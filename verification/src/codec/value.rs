//! `SMIv2` value types for SNMP varbinds.

use vstd::prelude::*;
use vstd::std_specs::convert::FromSpecImpl;
use crate::codec::oid;
use crate::codec::oid::Oid;
use crate::text;
use crate::text::{push_decimal, push_hex_bytes, push_signed};

verus! {

/// An `SMIv2` value carried in an SNMP varbind.
///
/// Covers all nine standard `SMIv2` types defined in RFC 2578.
#[non_exhaustive]
#[derive(Debug, PartialEq, Eq, Hash)]
pub enum Value {
    /// A signed 32-bit integer (`SNMPv2` `Integer`).
    Integer32(i32),
    /// An SNMP Object Identifier.
    ObjectIdentifier(Oid),
    /// An IPv4 address as four octets in network order.
    IpAddress([u8; 4]),
    /// An arbitrary byte string (`OCTET STRING`).
    OctetString(Vec<u8>),
    /// An unsigned 32-bit monotonically increasing counter that wraps at `u32::MAX`.
    Counter32(u32),
    /// An unsigned 64-bit monotonically increasing counter that wraps at `u64::MAX`.
    Counter64(u64),
    /// An unsigned 32-bit gauge that may increase or decrease, latching at `u32::MAX`.
    Gauge32(u32),
    /// Time in hundredths of a second since some epoch.
    TimeTicks(u32),
    /// Opaque arbitrary ASN.1 data encoded as a byte string.
    Opaque(Vec<u8>),
}

/// A [`Value`] as a mathematical value.
pub enum ValueView {
    /// A signed 32-bit integer.
    Integer32(i32),
    /// The arcs of an object identifier.
    ObjectIdentifier(Seq<u32>),
    /// The four octets of an IPv4 address.
    IpAddress(Seq<u8>),
    /// A byte string.
    OctetString(Seq<u8>),
    /// A 32-bit counter.
    Counter32(u32),
    /// A 64-bit counter.
    Counter64(u64),
    /// A 32-bit gauge.
    Gauge32(u32),
    /// Hundredths of a second.
    TimeTicks(u32),
    /// Opaque data.
    Opaque(Seq<u8>),
}

impl View for Value {
    type V = ValueView;

    open spec fn view(&self) -> ValueView {
        match self {
            Value::Integer32(n) => ValueView::Integer32(*n),
            Value::ObjectIdentifier(oid) => ValueView::ObjectIdentifier(oid@),
            Value::IpAddress(octets) => ValueView::IpAddress(octets@),
            Value::OctetString(bytes) => ValueView::OctetString(bytes@),
            Value::Counter32(n) => ValueView::Counter32(*n),
            Value::Counter64(n) => ValueView::Counter64(*n),
            Value::Gauge32(n) => ValueView::Gauge32(*n),
            Value::TimeTicks(n) => ValueView::TimeTicks(*n),
            Value::Opaque(bytes) => ValueView::Opaque(bytes@),
        }
    }
}

impl ValueView {
    /// The text of the value: numbers in decimal, OIDs and addresses dotted, byte
    /// strings in hexadecimal.
    pub open spec fn text(self) -> Seq<char> {
        match self {
            ValueView::Integer32(n) => text::signed_decimal(n as int),
            ValueView::ObjectIdentifier(arcs) => oid::dotted(arcs),
            ValueView::IpAddress(octets) => text::decimal(octets[0] as nat) + "."@ + text::decimal(
                octets[1] as nat,
            ) + "."@ + text::decimal(octets[2] as nat) + "."@ + text::decimal(octets[3] as nat),
            ValueView::OctetString(bytes) => text::hex_bytes(bytes),
            ValueView::Counter32(n) => text::decimal(n as nat),
            ValueView::Counter64(n) => text::decimal(n as nat),
            ValueView::Gauge32(n) => text::decimal(n as nat),
            ValueView::TimeTicks(n) => text::decimal(n as nat),
            ValueView::Opaque(bytes) => text::hex_bytes(bytes),
        }
    }

    /// Whether a value with this view can exist: arcs form an OID and an address has
    /// four octets.
    pub open spec fn well_formed(self) -> bool {
        match self {
            ValueView::ObjectIdentifier(arcs) => oid::valid_arcs(arcs),
            ValueView::IpAddress(octets) => octets.len() == 4,
            _ => true,
        }
    }
}

impl Value {
    /// The text of the value: numbers in decimal, OIDs and addresses dotted, byte
    /// strings in upper-case hexadecimal without separators.
    pub fn to_string(&self) -> (out: String)
        ensures
            out@ == self@.text(),
    {
        let mut out = String::new();
        match self {
            Value::Integer32(n) => push_signed(&mut out, *n),
            Value::ObjectIdentifier(oid) => {
                out = oid.to_string();
            },
            Value::IpAddress(octets) => {
                push_decimal(&mut out, octets[0] as u64);
                out.append(".");
                push_decimal(&mut out, octets[1] as u64);
                out.append(".");
                push_decimal(&mut out, octets[2] as u64);
                out.append(".");
                push_decimal(&mut out, octets[3] as u64);
            },
            Value::OctetString(bytes) => push_hex_bytes(&mut out, bytes.as_slice()),
            Value::Counter32(n) => push_decimal(&mut out, *n as u64),
            Value::Counter64(n) => push_decimal(&mut out, *n),
            Value::Gauge32(n) => push_decimal(&mut out, *n as u64),
            Value::TimeTicks(n) => push_decimal(&mut out, *n as u64),
            Value::Opaque(bytes) => push_hex_bytes(&mut out, bytes.as_slice()),
        }
        proof {
            assert(out@ =~= self@.text());
        }
        out
    }
}

impl Clone for Value {
    fn clone(&self) -> (copy: Self)
        ensures
            copy@ == self@,
    {
        match self {
            Value::Integer32(n) => Value::Integer32(*n),
            Value::ObjectIdentifier(oid) => Value::ObjectIdentifier(oid.clone()),
            Value::IpAddress(octets) => Value::IpAddress(*octets),
            Value::OctetString(bytes) => Value::OctetString(
                vstd::slice::slice_to_vec(bytes.as_slice()),
            ),
            Value::Counter32(n) => Value::Counter32(*n),
            Value::Counter64(n) => Value::Counter64(*n),
            Value::Gauge32(n) => Value::Gauge32(*n),
            Value::TimeTicks(n) => Value::TimeTicks(*n),
            Value::Opaque(bytes) => Value::Opaque(vstd::slice::slice_to_vec(bytes.as_slice())),
        }
    }
}

impl<'a> FromSpecImpl<&'a [u8]> for Value {
    open spec fn obeys_from_spec() -> bool {
        false
    }

    open spec fn from_spec(v: &'a [u8]) -> Self {
        arbitrary()
    }
}

impl<'a> From<&'a [u8]> for Value {
    /// Creates a `Value::OctetString` from a byte slice, copying the bytes.
    fn from(bytes: &'a [u8]) -> (value: Self)
        ensures
            value@ == ValueView::OctetString(bytes@),
    {
        Value::OctetString(vstd::slice::slice_to_vec(bytes))
    }
}

impl FromSpecImpl<Vec<u8>> for Value {
    open spec fn obeys_from_spec() -> bool {
        true
    }

    open spec fn from_spec(v: Vec<u8>) -> Self {
        Value::OctetString(v)
    }
}

impl From<Vec<u8>> for Value {
    /// Creates a `Value::OctetString` from a `Vec<u8>`, taking ownership without
    /// copying.
    fn from(bytes: Vec<u8>) -> (value: Self) {
        Value::OctetString(bytes)
    }
}

impl<'a> FromSpecImpl<&'a str> for Value {
    open spec fn obeys_from_spec() -> bool {
        false
    }

    open spec fn from_spec(v: &'a str) -> Self {
        arbitrary()
    }
}

impl<'a> From<&'a str> for Value {
    /// Creates a `Value::OctetString` from a string slice, encoding the UTF-8 bytes.
    fn from(s: &'a str) -> (value: Self)
        ensures
            value@ == ValueView::OctetString(vstd::utf8::encode_utf8(s@)),
    {
        Value::OctetString(vstd::slice::slice_to_vec(s.as_bytes()))
    }
}

/// Numbers are shown in decimal, whatever their type, and a negative one with a minus sign.
pub proof fn law_number_text(n: u32, long: u64, signed: i32)
    ensures
        ValueView::Counter32(n).text() == text::decimal(n as nat),
        ValueView::Gauge32(n).text() == text::decimal(n as nat),
        ValueView::TimeTicks(n).text() == text::decimal(n as nat),
        ValueView::Counter64(long).text() == text::decimal(long as nat),
        signed >= 0 ==> ValueView::Integer32(signed).text() == text::decimal(signed as nat),
        signed < 0 ==> ValueView::Integer32(signed).text() == seq!['-'] + text::decimal(
            (-signed) as nat,
        ),
{
    text::law_signed_decimal(signed as int);
}

/// Byte strings are shown by two hexadecimal digits for each byte, whatever they hold, so
/// that different byte strings are shown differently.
pub proof fn law_bytes_text(a: Seq<u8>, b: Seq<u8>)
    ensures
        ValueView::OctetString(a).text().len() == 2 * a.len(),
        ValueView::Opaque(a).text() == ValueView::OctetString(a).text(),
        ValueView::OctetString(a).text() == text::hex_bytes(a),
        ValueView::OctetString(a).text() == ValueView::OctetString(b).text() ==> a == b,
{
    text::law_hex_bytes(a, 0);
    text::law_hex_bytes(b, 0);
    if text::hex_bytes(a) == text::hex_bytes(b) {
        assert forall|i: int| 0 <= i < a.len() implies a[i] == b[i] by {
            text::law_hex_bytes(a, i);
            text::law_hex_bytes(b, i);
        }
        assert(a =~= b);
    }
}

/// An OID is shown by its dotted-decimal text, and an address by its four octets in the same
/// form, the first one first.
pub proof fn law_dotted_text(arcs: Seq<u32>, octets: Seq<u8>)
    requires
        octets.len() == 4,
    ensures
        ValueView::ObjectIdentifier(arcs).text() == oid::dotted(arcs),
        ValueView::IpAddress(octets).text() == oid::dotted(
            seq![octets[0] as u32, octets[1] as u32, octets[2] as u32, octets[3] as u32],
        ),
{
    let a = seq![octets[0] as u32];
    let b = a.push(octets[1] as u32);
    let c = b.push(octets[2] as u32);
    let d = c.push(octets[3] as u32);
    oid::law_dotted(a, octets[1] as u32);
    oid::law_dotted(b, octets[2] as u32);
    oid::law_dotted(c, octets[3] as u32);
    reveal_strlit(".");
    assert("."@ =~= seq!['.']);
    assert(d =~= seq![octets[0] as u32, octets[1] as u32, octets[2] as u32, octets[3] as u32]);
    assert(ValueView::IpAddress(octets).text() =~= oid::dotted(d));
}

/// The mathematical value of a value is of its type and holds what it holds.
pub proof fn law_value_view(value: Value)
    ensures
        match value {
            Value::Integer32(n) => value@ == ValueView::Integer32(n),
            Value::ObjectIdentifier(name) => value@ == ValueView::ObjectIdentifier(name@),
            Value::IpAddress(octets) => value@ == ValueView::IpAddress(octets@),
            Value::OctetString(bytes) => value@ == ValueView::OctetString(bytes@),
            Value::Counter32(n) => value@ == ValueView::Counter32(n),
            Value::Counter64(n) => value@ == ValueView::Counter64(n),
            Value::Gauge32(n) => value@ == ValueView::Gauge32(n),
            Value::TimeTicks(n) => value@ == ValueView::TimeTicks(n),
            Value::Opaque(bytes) => value@ == ValueView::Opaque(bytes@),
        },
{
}

} // verus!
