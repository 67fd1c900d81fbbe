//! Variable bindings on the wire.

use vstd::prelude::*;
use vstd::slice::slice_to_vec;
use crate::codec::ber::error;
use crate::codec::ber::error::{BerError, BerFault, BerType};
use crate::codec::ber::integer;
use crate::codec::ber::integer::{decode_unsigned_u32, decode_unsigned_u64};
use crate::codec::ber::oid;
use crate::codec::ber::reader::BerReader;
use crate::codec::ber::tag::{
    TAG_COUNTER32, TAG_COUNTER64, TAG_END_OF_MIB_VIEW, TAG_GAUGE32, TAG_INTEGER, TAG_IP_ADDRESS,
    TAG_NO_SUCH_INSTANCE, TAG_NO_SUCH_OBJECT, TAG_NULL, TAG_OCTET_STRING, TAG_OID, TAG_OPAQUE,
    TAG_SEQUENCE, TAG_TIMETICKS,
};
use crate::codec::ber::tlv;
use crate::codec::ber::tlv::{Cursor, Step};
use crate::codec::ber::writer::BerWriter;
use crate::codec::oid::Oid;
use crate::codec::pdu::types::{VarbindValue, VarbindValueView, VarbindView};
use crate::codec::value::{Value, ValueView};

verus! {

// ----- Decoded forms -------------------------------------------------------------

/// The value of a varbind as it stands on the wire.
#[derive(Debug, PartialEq, Eq)]
pub enum DecodedVarbindValue {
    /// A NULL: no value provided.
    Unspecified,
    /// The `noSuchObject` exception.
    NoSuchObject,
    /// The `noSuchInstance` exception.
    NoSuchInstance,
    /// The `endOfMibView` exception.
    EndOfMibView,
    /// An INTEGER.
    Integer(i32),
    /// An OCTET STRING.
    OctetString(Vec<u8>),
    /// An OBJECT IDENTIFIER.
    ObjectIdentifier(Oid),
    /// A value under any other tag.
    Raw { tag: u8, value_bytes: Vec<u8> },
}

/// A [`DecodedVarbindValue`] as a mathematical value.
pub enum DecodedValueView {
    /// A NULL.
    Unspecified,
    /// The `noSuchObject` exception.
    NoSuchObject,
    /// The `noSuchInstance` exception.
    NoSuchInstance,
    /// The `endOfMibView` exception.
    EndOfMibView,
    /// An INTEGER.
    Integer(i32),
    /// An OCTET STRING.
    OctetString(Seq<u8>),
    /// The arcs of an OBJECT IDENTIFIER.
    ObjectIdentifier(Seq<u32>),
    /// A value under any other tag.
    Raw { tag: u8, value_bytes: Seq<u8> },
}

impl View for DecodedVarbindValue {
    type V = DecodedValueView;

    open spec fn view(&self) -> DecodedValueView {
        match self {
            DecodedVarbindValue::Unspecified => DecodedValueView::Unspecified,
            DecodedVarbindValue::NoSuchObject => DecodedValueView::NoSuchObject,
            DecodedVarbindValue::NoSuchInstance => DecodedValueView::NoSuchInstance,
            DecodedVarbindValue::EndOfMibView => DecodedValueView::EndOfMibView,
            DecodedVarbindValue::Integer(n) => DecodedValueView::Integer(*n),
            DecodedVarbindValue::OctetString(bytes) => DecodedValueView::OctetString(bytes@),
            DecodedVarbindValue::ObjectIdentifier(name) => DecodedValueView::ObjectIdentifier(
                name@,
            ),
            DecodedVarbindValue::Raw { tag, value_bytes } => DecodedValueView::Raw {
                tag: *tag,
                value_bytes: value_bytes@,
            },
        }
    }
}

/// A varbind as it stands on the wire.
#[derive(Debug, PartialEq, Eq)]
pub struct DecodedVarbind {
    /// The object identifier being bound.
    pub name: Oid,
    /// The value bound to it.
    pub value: DecodedVarbindValue,
}

/// A [`DecodedVarbind`] as a mathematical value.
pub struct DecodedVarbindView {
    /// The arcs of the object identifier being bound.
    pub name: Seq<u32>,
    /// The value bound to it.
    pub value: DecodedValueView,
}

impl View for DecodedVarbind {
    type V = DecodedVarbindView;

    open spec fn view(&self) -> DecodedVarbindView {
        DecodedVarbindView { name: self.name@, value: self.value@ }
    }
}

/// The views of a sequence of decoded varbinds.
pub open spec fn decoded_views(varbinds: Seq<DecodedVarbind>) -> Seq<DecodedVarbindView> {
    Seq::new(varbinds.len(), |i: int| varbinds[i]@)
}

// ----- What the bytes stand for ----------------------------------------------------

/// Whether `tag` is one of the three exceptions.
pub open spec fn is_exception(tag: u8) -> bool {
    tag == TAG_NO_SUCH_OBJECT || tag == TAG_NO_SUCH_INSTANCE || tag == TAG_END_OF_MIB_VIEW
}

/// The exception under `tag`.
pub open spec fn exception_view(tag: u8) -> DecodedValueView {
    if tag == TAG_NO_SUCH_OBJECT {
        DecodedValueView::NoSuchObject
    } else if tag == TAG_NO_SUCH_INSTANCE {
        DecodedValueView::NoSuchInstance
    } else {
        DecodedValueView::EndOfMibView
    }
}

/// The value triple of a varbind.
pub open spec fn value_step(place: Cursor) -> Step<DecodedValueView> {
    match place.peek() {
        Err(fault) => Step { outcome: Err(fault), used: 0 },
        Ok(tag) => if tag == TAG_NULL {
            let step = place.null();
            Step {
                outcome: match step.outcome {
                    Ok(_) => Ok(DecodedValueView::Unspecified),
                    Err(fault) => Err(fault),
                },
                used: step.used,
            }
        } else if is_exception(tag) {
            let step = place.tlv();
            Step {
                outcome: match step.outcome {
                    Ok((_, value)) => if value.len() > 0 {
                        Err(BerFault::ExceptionLength { tag, length: value.len() as usize })
                    } else {
                        Ok(exception_view(tag))
                    },
                    Err(fault) => Err(fault),
                },
                used: step.used,
            }
        } else if tag == TAG_INTEGER {
            let step = place.integer();
            Step {
                outcome: match step.outcome {
                    Ok(n) => Ok(DecodedValueView::Integer(n)),
                    Err(fault) => Err(fault),
                },
                used: step.used,
            }
        } else if tag == TAG_OCTET_STRING {
            let step = place.octets();
            Step {
                outcome: match step.outcome {
                    Ok(bytes) => Ok(DecodedValueView::OctetString(bytes)),
                    Err(fault) => Err(fault),
                },
                used: step.used,
            }
        } else if tag == TAG_OID {
            let step = place.oid();
            Step {
                outcome: match step.outcome {
                    Ok(arcs) => Ok(DecodedValueView::ObjectIdentifier(arcs)),
                    Err(fault) => Err(fault),
                },
                used: step.used,
            }
        } else {
            let step = place.tlv();
            Step {
                outcome: match step.outcome {
                    Ok((tag, value)) => Ok(DecodedValueView::Raw { tag, value_bytes: value }),
                    Err(fault) => Err(fault),
                },
                used: step.used,
            }
        },
    }
}

/// The value triple of a varbind, which must be the last thing in it.
pub open spec fn last_value_outcome(place: Cursor) -> Result<DecodedValueView, BerFault> {
    let step = value_step(place);
    match step.outcome {
        Err(fault) => Err(fault),
        Ok(value) => if step.used < place.rest.len() {
            Err(BerFault::BytesInVarbind { count: (place.rest.len() - step.used) as usize })
        } else {
            Ok(value)
        },
    }
}

/// `done` followed by the varbinds from `place` on, or the first fault in them.
#[verifier::opaque]
pub open spec fn varbinds_outcome(done: Seq<DecodedVarbindView>, place: Cursor) -> Result<
    Seq<DecodedVarbindView>,
    BerFault,
>
    decreases place.rest.len(),
{
    if place.rest.len() == 0 {
        Ok(done)
    } else {
        let step = place.sequence();
        match step.outcome {
            Err(fault) => Err(fault),
            Ok(inner) => match inner.oid().outcome {
                Err(fault) => Err(fault),
                Ok(name) => match last_value_outcome(inner.advance(inner.oid().used)) {
                    Err(fault) => Err(fault),
                    Ok(value) => if 0 < step.used <= place.rest.len() {
                        varbinds_outcome(
                            done.push(DecodedVarbindView { name, value }),
                            place.advance(step.used),
                        )
                    } else {
                        arbitrary()
                    },
                },
            },
        }
    }
}

/// The varbinds of a `VarBindList`, which must be all of `bytes`.
pub open spec fn varbind_list_outcome(bytes: Seq<u8>) -> Result<
    Seq<DecodedVarbindView>,
    BerFault,
> {
    let step = (Cursor { rest: bytes, at: 0 }).sequence();
    match step.outcome {
        Err(fault) => Err(fault),
        Ok(inner) => if step.used < bytes.len() {
            Err(BerFault::BytesAfterVarbindList)
        } else {
            varbinds_outcome(Seq::empty(), inner)
        },
    }
}

/// The value that a decoded one stands for.
pub open spec fn converted_outcome(decoded: DecodedValueView) -> Result<
    VarbindValueView,
    BerFault,
> {
    match decoded {
        DecodedValueView::Unspecified => Ok(VarbindValueView::Unspecified),
        DecodedValueView::NoSuchObject => Ok(VarbindValueView::NoSuchObject),
        DecodedValueView::NoSuchInstance => Ok(VarbindValueView::NoSuchInstance),
        DecodedValueView::EndOfMibView => Ok(VarbindValueView::EndOfMibView),
        DecodedValueView::Integer(n) => Ok(VarbindValueView::Value(ValueView::Integer32(n))),
        DecodedValueView::OctetString(bytes) => Ok(
            VarbindValueView::Value(ValueView::OctetString(bytes)),
        ),
        DecodedValueView::ObjectIdentifier(arcs) => Ok(
            VarbindValueView::Value(ValueView::ObjectIdentifier(arcs)),
        ),
        DecodedValueView::Raw { tag, value_bytes } => if tag == TAG_IP_ADDRESS {
            if value_bytes.len() == 4 {
                Ok(VarbindValueView::Value(ValueView::IpAddress(value_bytes)))
            } else {
                Err(BerFault::IpAddressLength { length: value_bytes.len() as usize })
            }
        } else if tag == TAG_COUNTER32 {
            match integer::unsigned32_outcome(value_bytes, 0) {
                Ok(n) => Ok(VarbindValueView::Value(ValueView::Counter32(n))),
                Err(fault) => Err(fault),
            }
        } else if tag == TAG_GAUGE32 {
            match integer::unsigned32_outcome(value_bytes, 0) {
                Ok(n) => Ok(VarbindValueView::Value(ValueView::Gauge32(n))),
                Err(fault) => Err(fault),
            }
        } else if tag == TAG_TIMETICKS {
            match integer::unsigned32_outcome(value_bytes, 0) {
                Ok(n) => Ok(VarbindValueView::Value(ValueView::TimeTicks(n))),
                Err(fault) => Err(fault),
            }
        } else if tag == TAG_OPAQUE {
            Ok(VarbindValueView::Value(ValueView::Opaque(value_bytes)))
        } else if tag == TAG_COUNTER64 {
            match integer::unsigned64_outcome(value_bytes, 0) {
                Ok(n) => Ok(VarbindValueView::Value(ValueView::Counter64(n))),
                Err(fault) => Err(fault),
            }
        } else {
            Err(BerFault::UnsupportedTag { tag })
        },
    }
}

// ----- How varbinds are written ------------------------------------------------------

/// The triple of a varbind value.
pub open spec fn value_tlv(value: VarbindValueView) -> Seq<u8> {
    match value {
        VarbindValueView::Unspecified => tlv::null_tlv(),
        VarbindValueView::NoSuchObject => seq![TAG_NO_SUCH_OBJECT, 0u8],
        VarbindValueView::NoSuchInstance => seq![TAG_NO_SUCH_INSTANCE, 0u8],
        VarbindValueView::EndOfMibView => seq![TAG_END_OF_MIB_VIEW, 0u8],
        VarbindValueView::Value(ValueView::Integer32(n)) => tlv::integer_tlv(n as int),
        VarbindValueView::Value(ValueView::OctetString(bytes)) => tlv::octets_tlv(bytes),
        VarbindValueView::Value(ValueView::ObjectIdentifier(arcs)) => tlv::oid_tlv(arcs),
        VarbindValueView::Value(ValueView::IpAddress(octets)) => tlv::tlv_bytes(
            TAG_IP_ADDRESS,
            octets,
        ),
        VarbindValueView::Value(ValueView::Counter32(n)) => tlv::unsigned_tlv(
            TAG_COUNTER32,
            n as nat,
        ),
        VarbindValueView::Value(ValueView::Gauge32(n)) => tlv::unsigned_tlv(
            TAG_GAUGE32,
            n as nat,
        ),
        VarbindValueView::Value(ValueView::TimeTicks(n)) => tlv::unsigned_tlv(
            TAG_TIMETICKS,
            n as nat,
        ),
        VarbindValueView::Value(ValueView::Opaque(bytes)) => tlv::tlv_bytes(TAG_OPAQUE, bytes),
        VarbindValueView::Value(ValueView::Counter64(n)) => tlv::unsigned_tlv(
            TAG_COUNTER64,
            n as nat,
        ),
    }
}

/// A varbind around an encoded value.
pub open spec fn varbind_around(arcs: Seq<u32>, value: Seq<u8>) -> Seq<u8> {
    tlv::sequence_tlv(tlv::oid_tlv(arcs) + value)
}

/// The triple of a varbind.
pub open spec fn varbind_tlv(varbind: VarbindView) -> Seq<u8> {
    varbind_around(varbind.oid, value_tlv(varbind.value))
}

/// `parts` one after the other.
pub open spec fn concat(parts: Seq<Seq<u8>>) -> Seq<u8>
    decreases parts.len(),
{
    if parts.len() == 0 {
        Seq::empty()
    } else {
        concat(parts.drop_last()) + parts.last()
    }
}

/// The triples of varbinds, one by one.
pub open spec fn varbind_tlvs(varbinds: Seq<VarbindView>) -> Seq<Seq<u8>> {
    Seq::new(varbinds.len(), |i: int| varbind_tlv(varbinds[i]))
}

/// A `VarBindList` around encoded varbinds.
pub open spec fn varbind_list_around(parts: Seq<Seq<u8>>) -> Seq<u8> {
    tlv::sequence_tlv(concat(parts))
}

/// A `VarBindList`.
pub open spec fn varbind_list_tlv(varbinds: Seq<VarbindView>) -> Seq<u8> {
    varbind_list_around(varbind_tlvs(varbinds))
}

/// The bytes of each slice.
pub open spec fn slice_views(parts: Seq<&[u8]>) -> Seq<Seq<u8>> {
    Seq::new(parts.len(), |i: int| parts[i]@)
}

// ----- Decoding --------------------------------------------------------------------

/// Reads a `VarBindList`, which must be all of the bytes.
pub fn decode_varbind_list(raw_varbind_list_bytes: &[u8]) -> (result: Result<
    Vec<DecodedVarbind>,
    BerError,
>)
    ensures
        match (result, varbind_list_outcome(raw_varbind_list_bytes@)) {
            (Ok(varbinds), Ok(wanted)) => decoded_views(varbinds@) == wanted,
            (Err(error), Err(fault)) => error.reports(fault),
            _ => false,
        },
{
    let mut outer_reader = BerReader::new(raw_varbind_list_bytes);
    let ghost start = outer_reader@;
    let mut list_reader = match outer_reader.read_sequence() {
        Ok(reader) => reader,
        Err(error) => {
            return Err(error);
        },
    };
    proof {
        tlv::law_tlv_progress(start);
    }
    if !outer_reader.is_empty() {
        return Err(BerError::from_fault(BerFault::BytesAfterVarbindList));
    }
    let ghost contents = list_reader@;
    let mut varbinds: Vec<DecodedVarbind> = Vec::new();
    proof {
        assert(decoded_views(varbinds@) =~= Seq::empty());
    }
    while !list_reader.is_empty()
        invariant
            varbinds_outcome(decoded_views(varbinds@), list_reader@) == varbinds_outcome(
                Seq::empty(),
                contents,
            ),
            varbind_list_outcome(raw_varbind_list_bytes@) == varbinds_outcome(
                Seq::empty(),
                contents,
            ),
        decreases list_reader@.rest.len(),
    {
        let ghost place = list_reader@;
        proof {
            reveal(varbinds_outcome);
            tlv::law_tlv_progress(place);
        }
        let mut varbind_reader = match list_reader.read_sequence() {
            Ok(reader) => reader,
            Err(error) => {
                return Err(error);
            },
        };
        let name = match varbind_reader.read_oid() {
            Ok(name) => name,
            Err(error) => {
                return Err(error);
            },
        };
        let value = match decode_varbind_value(&mut varbind_reader) {
            Ok(value) => value,
            Err(error) => {
                return Err(error);
            },
        };
        let ghost before = decoded_views(varbinds@);
        varbinds.push(DecodedVarbind { name, value });
        proof {
            assert(decoded_views(varbinds@) =~= before.push(
                DecodedVarbindView { name: name@, value: value@ },
            ));
        }
    }
    proof {
        reveal(varbinds_outcome);
    }
    Ok(varbinds)
}

/// Reads the value triple of a varbind, which must be the last thing in it.
pub fn decode_varbind_value(varbind_reader: &mut BerReader<'_>) -> (result: Result<
    DecodedVarbindValue,
    BerError,
>)
    ensures
        match (result, last_value_outcome(old(varbind_reader)@)) {
            (Ok(value), Ok(wanted)) => value@ == wanted,
            (Err(error), Err(fault)) => error.reports(fault),
            _ => false,
        },
        final(varbind_reader)@ == old(varbind_reader)@.advance(
            value_step(old(varbind_reader)@).used,
        ),
{
    let ghost start = varbind_reader@;
    proof {
        assert(start.advance(0) =~= start);
        tlv::law_tlv_progress(start);
    }
    let tag: u8 = match varbind_reader.peek_tag() {
        Ok(tag) => tag,
        Err(error) => {
            return Err(error);
        },
    };
    let value = if tag == TAG_NULL {
        match varbind_reader.read_null() {
            Ok(()) => DecodedVarbindValue::Unspecified,
            Err(error) => {
                return Err(error);
            },
        }
    } else if tag == TAG_NO_SUCH_OBJECT || tag == TAG_NO_SUCH_INSTANCE || tag
        == TAG_END_OF_MIB_VIEW {
        match varbind_reader.read_tlv() {
            Ok((_, exception_bytes)) => {
                if !exception_bytes.is_empty() {
                    return Err(
                        BerError::from_fault(
                            BerFault::ExceptionLength { tag, length: exception_bytes.len() },
                        ),
                    );
                }
                if tag == TAG_NO_SUCH_OBJECT {
                    DecodedVarbindValue::NoSuchObject
                } else if tag == TAG_NO_SUCH_INSTANCE {
                    DecodedVarbindValue::NoSuchInstance
                } else {
                    DecodedVarbindValue::EndOfMibView
                }
            },
            Err(error) => {
                return Err(error);
            },
        }
    } else if tag == TAG_INTEGER {
        match varbind_reader.read_integer() {
            Ok(n) => DecodedVarbindValue::Integer(n),
            Err(error) => {
                return Err(error);
            },
        }
    } else if tag == TAG_OCTET_STRING {
        match varbind_reader.read_octet_string() {
            Ok(bytes) => DecodedVarbindValue::OctetString(slice_to_vec(bytes)),
            Err(error) => {
                return Err(error);
            },
        }
    } else if tag == TAG_OID {
        match varbind_reader.read_oid() {
            Ok(name) => DecodedVarbindValue::ObjectIdentifier(name),
            Err(error) => {
                return Err(error);
            },
        }
    } else {
        match varbind_reader.read_tlv() {
            Ok((raw_tag, raw_value)) => DecodedVarbindValue::Raw {
                tag: raw_tag,
                value_bytes: slice_to_vec(raw_value),
            },
            Err(error) => {
                return Err(error);
            },
        }
    };
    if !varbind_reader.is_empty() {
        return Err(
            BerError::from_fault(
                BerFault::BytesInVarbind { count: varbind_reader.remaining().len() },
            ),
        );
    }
    Ok(value)
}

/// The value that a decoded one stands for.
pub fn decode_varbind_value_to_value(decoded: &DecodedVarbindValue) -> (result: Result<
    VarbindValue,
    BerError,
>)
    ensures
        match (result, converted_outcome(decoded@)) {
            (Ok(value), Ok(wanted)) => value@ == wanted,
            (Err(error), Err(fault)) => error.reports(fault),
            _ => false,
        },
{
    match decoded {
        DecodedVarbindValue::Unspecified => Ok(VarbindValue::Unspecified),
        DecodedVarbindValue::NoSuchObject => Ok(VarbindValue::NoSuchObject),
        DecodedVarbindValue::NoSuchInstance => Ok(VarbindValue::NoSuchInstance),
        DecodedVarbindValue::EndOfMibView => Ok(VarbindValue::EndOfMibView),
        DecodedVarbindValue::Integer(n) => Ok(VarbindValue::Value(Value::Integer32(*n))),
        DecodedVarbindValue::OctetString(bytes) => Ok(
            VarbindValue::Value(Value::OctetString(slice_to_vec(bytes.as_slice()))),
        ),
        DecodedVarbindValue::ObjectIdentifier(name) => Ok(
            VarbindValue::Value(Value::ObjectIdentifier(name.clone())),
        ),
        DecodedVarbindValue::Raw { tag, value_bytes } => {
            let bytes = value_bytes.as_slice();
            if *tag == TAG_IP_ADDRESS {
                if bytes.len() != 4 {
                    return Err(
                        BerError::from_fault(BerFault::IpAddressLength { length: bytes.len() }),
                    );
                }
                let octets: [u8; 4] = [bytes[0], bytes[1], bytes[2], bytes[3]];
                proof {
                    assert(octets@ =~= bytes@);
                }
                Ok(VarbindValue::Value(Value::IpAddress(octets)))
            } else if *tag == TAG_COUNTER32 {
                match decode_unsigned_u32(bytes, 0) {
                    Ok(n) => Ok(VarbindValue::Value(Value::Counter32(n))),
                    Err(error) => Err(error),
                }
            } else if *tag == TAG_GAUGE32 {
                match decode_unsigned_u32(bytes, 0) {
                    Ok(n) => Ok(VarbindValue::Value(Value::Gauge32(n))),
                    Err(error) => Err(error),
                }
            } else if *tag == TAG_TIMETICKS {
                match decode_unsigned_u32(bytes, 0) {
                    Ok(n) => Ok(VarbindValue::Value(Value::TimeTicks(n))),
                    Err(error) => Err(error),
                }
            } else if *tag == TAG_OPAQUE {
                Ok(VarbindValue::Value(Value::Opaque(slice_to_vec(bytes))))
            } else if *tag == TAG_COUNTER64 {
                match decode_unsigned_u64(bytes, 0) {
                    Ok(n) => Ok(VarbindValue::Value(Value::Counter64(n))),
                    Err(error) => Err(error),
                }
            } else {
                Err(BerError::from_fault(BerFault::UnsupportedTag { tag: *tag }))
            }
        },
    }
}

// ----- Encoding --------------------------------------------------------------------

/// A `VarBindList` around encoded varbinds.
pub fn encode_varbind_list(encoded_varbinds: &[&[u8]]) -> (out: Vec<u8>)
    ensures
        out@ == varbind_list_around(slice_views(encoded_varbinds@)),
{
    let mut inner_writer = BerWriter::new();
    let ghost parts = slice_views(encoded_varbinds@);
    let mut i: usize = 0;
    proof {
        assert(parts.take(0) =~= Seq::empty());
    }
    while i < encoded_varbinds.len()
        invariant
            i <= encoded_varbinds@.len(),
            parts == slice_views(encoded_varbinds@),
            inner_writer@ == concat(parts.take(i as int)),
        decreases encoded_varbinds@.len() - i,
    {
        inner_writer.write_raw(encoded_varbinds[i]);
        proof {
            assert(parts.take(i as int + 1).drop_last() =~= parts.take(i as int));
        }
        i += 1;
    }
    proof {
        assert(parts.take(parts.len() as int) =~= parts);
    }
    let mut outer_writer = BerWriter::new();
    outer_writer.write_sequence(inner_writer.as_bytes());
    proof {
        assert(outer_writer@ =~= varbind_list_around(parts));
    }
    outer_writer.into_vec()
}

/// A varbind around an encoded value.
pub fn encode_varbind(oid: &Oid, encoded_value_tlv: &[u8]) -> (out: Vec<u8>)
    ensures
        out@ == varbind_around(oid@, encoded_value_tlv@),
{
    let mut inner_writer = BerWriter::new();
    inner_writer.write_oid(oid);
    inner_writer.write_raw(encoded_value_tlv);
    proof {
        assert(inner_writer@ =~= tlv::oid_tlv(oid@) + encoded_value_tlv@);
    }
    let mut outer_writer = BerWriter::new();
    outer_writer.write_sequence(inner_writer.as_bytes());
    proof {
        assert(outer_writer@ =~= varbind_around(oid@, encoded_value_tlv@));
    }
    outer_writer.into_vec()
}

/// The triple of a varbind value. Every value that exists can be encoded.
pub fn encode_varbind_value(value: &VarbindValue) -> (result: Result<Vec<u8>, BerError>)
    ensures
        result matches Ok(out) && out@ == value_tlv(value@),
{
    let mut writer = BerWriter::new();
    match value {
        VarbindValue::Unspecified => {
            return Ok(encode_null_value());
        },
        VarbindValue::NoSuchObject => {
            return encode_exception(TAG_NO_SUCH_OBJECT);
        },
        VarbindValue::NoSuchInstance => {
            return encode_exception(TAG_NO_SUCH_INSTANCE);
        },
        VarbindValue::EndOfMibView => {
            return encode_exception(TAG_END_OF_MIB_VIEW);
        },
        VarbindValue::Value(Value::Integer32(n)) => {
            return Ok(encode_integer_value(*n));
        },
        VarbindValue::Value(Value::OctetString(bytes)) => {
            return Ok(encode_octet_string_value(bytes.as_slice()));
        },
        VarbindValue::Value(Value::ObjectIdentifier(name)) => {
            return Ok(encode_oid_value(name));
        },
        VarbindValue::Value(Value::IpAddress(octets)) => {
            writer.write_tlv(TAG_IP_ADDRESS, octets.as_slice());
        },
        VarbindValue::Value(Value::Counter32(n)) => {
            writer.write_tagged_unsigned32(TAG_COUNTER32, *n);
        },
        VarbindValue::Value(Value::Gauge32(n)) => {
            writer.write_tagged_unsigned32(TAG_GAUGE32, *n);
        },
        VarbindValue::Value(Value::TimeTicks(n)) => {
            writer.write_tagged_unsigned32(TAG_TIMETICKS, *n);
        },
        VarbindValue::Value(Value::Opaque(bytes)) => {
            writer.write_tlv(TAG_OPAQUE, bytes.as_slice());
        },
        VarbindValue::Value(Value::Counter64(n)) => {
            writer.write_tagged_unsigned64(TAG_COUNTER64, *n);
        },
    }
    proof {
        assert(writer@ =~= value_tlv(value@));
    }
    Ok(writer.into_vec())
}

/// A NULL value.
pub fn encode_null_value() -> (out: Vec<u8>)
    ensures
        out@ == tlv::null_tlv(),
{
    let mut writer = BerWriter::new();
    writer.write_null();
    proof {
        assert(writer@ =~= tlv::null_tlv());
    }
    writer.into_vec()
}

/// An INTEGER value.
pub fn encode_integer_value(value: i32) -> (out: Vec<u8>)
    ensures
        out@ == tlv::integer_tlv(value as int),
{
    let mut writer = BerWriter::new();
    writer.write_integer(value);
    proof {
        assert(writer@ =~= tlv::integer_tlv(value as int));
    }
    writer.into_vec()
}

/// An OCTET STRING value.
pub fn encode_octet_string_value(bytes: &[u8]) -> (out: Vec<u8>)
    ensures
        out@ == tlv::octets_tlv(bytes@),
{
    let mut writer = BerWriter::new();
    writer.write_octet_string(bytes);
    proof {
        assert(writer@ =~= tlv::octets_tlv(bytes@));
    }
    writer.into_vec()
}

/// An OBJECT IDENTIFIER value.
pub fn encode_oid_value(oid: &Oid) -> (out: Vec<u8>)
    ensures
        out@ == tlv::oid_tlv(oid@),
{
    let mut writer = BerWriter::new();
    writer.write_oid(oid);
    proof {
        assert(writer@ =~= tlv::oid_tlv(oid@));
    }
    writer.into_vec()
}

/// An exception value, if `tag` is one of the three exceptions.
pub fn encode_exception(tag: u8) -> (result: Result<Vec<u8>, BerError>)
    ensures
        match result {
            Ok(out) => is_exception(tag) && out@ == seq![tag, 0u8],
            Err(error) => !is_exception(tag) && error.reports(BerFault::InvalidException { tag }),
        },
{
    if tag != TAG_NO_SUCH_OBJECT && tag != TAG_NO_SUCH_INSTANCE && tag != TAG_END_OF_MIB_VIEW {
        return Err(BerError::from_fault(BerFault::InvalidException { tag }));
    }
    let mut out: Vec<u8> = Vec::new();
    out.push(tag);
    out.push(0x00);
    proof {
        assert(out@ =~= seq![tag, 0u8]);
    }
    Ok(out)
}

// ----- Laws --------------------------------------------------------------------------

/// Whether a value can be read back: it can exist, and an OID in it has at most
/// [`oid::MAX_ARCS`] arcs.
pub open spec fn wire_value(value: VarbindValueView) -> bool {
    &&& value.well_formed()
    &&& value matches VarbindValueView::Value(ValueView::ObjectIdentifier(arcs)) ==> arcs.len()
        <= oid::MAX_ARCS
}

/// Whether a varbind can be read back.
pub open spec fn wire_varbind(varbind: VarbindView) -> bool {
    &&& varbind.well_formed()
    &&& varbind.oid.len() <= oid::MAX_ARCS
    &&& wire_value(varbind.value)
}

/// The decoded form of a value.
pub open spec fn decoded_value(value: VarbindValueView) -> DecodedValueView {
    match value {
        VarbindValueView::Unspecified => DecodedValueView::Unspecified,
        VarbindValueView::NoSuchObject => DecodedValueView::NoSuchObject,
        VarbindValueView::NoSuchInstance => DecodedValueView::NoSuchInstance,
        VarbindValueView::EndOfMibView => DecodedValueView::EndOfMibView,
        VarbindValueView::Value(ValueView::Integer32(n)) => DecodedValueView::Integer(n),
        VarbindValueView::Value(ValueView::OctetString(bytes)) => DecodedValueView::OctetString(
            bytes,
        ),
        VarbindValueView::Value(ValueView::ObjectIdentifier(arcs)) =>
            DecodedValueView::ObjectIdentifier(arcs),
        VarbindValueView::Value(ValueView::IpAddress(octets)) => DecodedValueView::Raw {
            tag: TAG_IP_ADDRESS,
            value_bytes: octets,
        },
        VarbindValueView::Value(ValueView::Counter32(n)) => DecodedValueView::Raw {
            tag: TAG_COUNTER32,
            value_bytes: integer::unsigned_bytes(n as nat),
        },
        VarbindValueView::Value(ValueView::Gauge32(n)) => DecodedValueView::Raw {
            tag: TAG_GAUGE32,
            value_bytes: integer::unsigned_bytes(n as nat),
        },
        VarbindValueView::Value(ValueView::TimeTicks(n)) => DecodedValueView::Raw {
            tag: TAG_TIMETICKS,
            value_bytes: integer::unsigned_bytes(n as nat),
        },
        VarbindValueView::Value(ValueView::Opaque(bytes)) => DecodedValueView::Raw {
            tag: TAG_OPAQUE,
            value_bytes: bytes,
        },
        VarbindValueView::Value(ValueView::Counter64(n)) => DecodedValueView::Raw {
            tag: TAG_COUNTER64,
            value_bytes: integer::unsigned_bytes(n as nat),
        },
    }
}

/// The decoded form of a varbind.
pub open spec fn decoded_varbind(varbind: VarbindView) -> DecodedVarbindView {
    DecodedVarbindView { name: varbind.oid, value: decoded_value(varbind.value) }
}

/// The decoded forms of varbinds.
pub open spec fn decoded_varbinds(varbinds: Seq<VarbindView>) -> Seq<DecodedVarbindView> {
    Seq::new(varbinds.len(), |i: int| decoded_varbind(varbinds[i]))
}

/// The decoded form of a value converts to the value itself.
pub proof fn law_value_conversion(value: VarbindValueView)
    requires
        wire_value(value),
    ensures
        converted_outcome(decoded_value(value)) == Ok::<VarbindValueView, BerFault>(value),
{
    reveal_with_fuel(integer::pow256, 9);
    match value {
        VarbindValueView::Value(ValueView::Counter32(n)) => {
            integer::law_unsigned_round_trip(n as nat, 4, 0);
        },
        VarbindValueView::Value(ValueView::Gauge32(n)) => {
            integer::law_unsigned_round_trip(n as nat, 4, 0);
        },
        VarbindValueView::Value(ValueView::TimeTicks(n)) => {
            integer::law_unsigned_round_trip(n as nat, 4, 0);
        },
        VarbindValueView::Value(ValueView::Counter64(n)) => {
            integer::law_unsigned_round_trip(n as nat, 8, 0);
        },
        _ => {},
    }
}

proof fn lemma_raw_value(tag: u8, bytes: Seq<u8>, at: int)
    requires
        tlv::tlv_bytes(tag, bytes).len() <= usize::MAX,
        tag != TAG_NULL,
        !is_exception(tag),
        tag != TAG_INTEGER,
        tag != TAG_OCTET_STRING,
        tag != TAG_OID,
    ensures
        last_value_outcome(Cursor { rest: tlv::tlv_bytes(tag, bytes), at }) == Ok::<
            DecodedValueView,
            BerFault,
        >(DecodedValueView::Raw { tag, value_bytes: bytes }),
{
    let whole = tlv::tlv_bytes(tag, bytes);
    tlv::lemma_tlv_len(tag, bytes);
    tlv::law_tlv_round_trip(tag, bytes, Seq::empty(), at);
    assert(whole + Seq::<u8>::empty() =~= whole);
}

proof fn lemma_exception_value(tag: u8, at: int)
    requires
        is_exception(tag),
    ensures
        last_value_outcome(Cursor { rest: seq![tag, 0u8], at }) == Ok::<DecodedValueView, BerFault>(
            exception_view(tag),
        ),
{
    let whole = tlv::tlv_bytes(tag, Seq::empty());
    tlv::lemma_empty_tlv(tag);
    tlv::law_tlv_round_trip(tag, Seq::empty(), Seq::empty(), at);
    assert(whole + Seq::<u8>::empty() =~= whole);
}

/// A value triple is read back in its decoded form.
pub proof fn law_value_round_trip(value: VarbindValueView, at: int)
    requires
        wire_value(value),
        value_tlv(value).len() <= usize::MAX,
    ensures
        last_value_outcome(Cursor { rest: value_tlv(value), at }) == Ok::<
            DecodedValueView,
            BerFault,
        >(decoded_value(value)),
{
    let whole = value_tlv(value);
    assert(whole + Seq::<u8>::empty() =~= whole);
    match value {
        VarbindValueView::Unspecified => {
            tlv::law_null_round_trip(Seq::empty(), at);
        },
        VarbindValueView::NoSuchObject => {
            lemma_exception_value(TAG_NO_SUCH_OBJECT, at);
        },
        VarbindValueView::NoSuchInstance => {
            lemma_exception_value(TAG_NO_SUCH_INSTANCE, at);
        },
        VarbindValueView::EndOfMibView => {
            lemma_exception_value(TAG_END_OF_MIB_VIEW, at);
        },
        VarbindValueView::Value(ValueView::Integer32(n)) => {
            tlv::lemma_tlv_len(TAG_INTEGER, integer::signed_bytes(n as int));
            tlv::law_integer_round_trip(n, Seq::empty(), at);
        },
        VarbindValueView::Value(ValueView::OctetString(bytes)) => {
            tlv::lemma_tlv_len(TAG_OCTET_STRING, bytes);
            tlv::law_octets_round_trip(bytes, Seq::empty(), at);
        },
        VarbindValueView::Value(ValueView::ObjectIdentifier(arcs)) => {
            tlv::lemma_tlv_len(TAG_OID, oid::oid_bytes(arcs));
            tlv::law_oid_tlv_round_trip(arcs, Seq::empty(), at);
        },
        VarbindValueView::Value(ValueView::IpAddress(octets)) => {
            lemma_raw_value(TAG_IP_ADDRESS, octets, at);
        },
        VarbindValueView::Value(ValueView::Counter32(n)) => {
            lemma_raw_value(TAG_COUNTER32, integer::unsigned_bytes(n as nat), at);
        },
        VarbindValueView::Value(ValueView::Gauge32(n)) => {
            lemma_raw_value(TAG_GAUGE32, integer::unsigned_bytes(n as nat), at);
        },
        VarbindValueView::Value(ValueView::TimeTicks(n)) => {
            lemma_raw_value(TAG_TIMETICKS, integer::unsigned_bytes(n as nat), at);
        },
        VarbindValueView::Value(ValueView::Opaque(bytes)) => {
            lemma_raw_value(TAG_OPAQUE, bytes, at);
        },
        VarbindValueView::Value(ValueView::Counter64(n)) => {
            lemma_raw_value(TAG_COUNTER64, integer::unsigned_bytes(n as nat), at);
        },
    }
}

proof fn lemma_concat_front(parts: Seq<Seq<u8>>)
    requires
        parts.len() > 0,
    ensures
        concat(parts) == parts[0] + concat(parts.skip(1)),
    decreases parts.len(),
{
    if parts.len() == 1 {
        assert(parts.drop_last() =~= Seq::empty());
        assert(parts.skip(1) =~= Seq::empty());
        assert(concat(parts) =~= parts[0] + concat(parts.skip(1)));
    } else {
        lemma_concat_front(parts.drop_last());
        assert(parts.drop_last().skip(1) =~= parts.skip(1).drop_last());
        assert(concat(parts) =~= parts[0] + concat(parts.skip(1)));
    }
}

proof fn lemma_one_varbind(varbind: VarbindView, tail: Seq<u8>, at: int)
    requires
        wire_varbind(varbind),
        varbind_tlv(varbind).len() <= usize::MAX,
    ensures
        ({
            let place = Cursor { rest: varbind_tlv(varbind) + tail, at };
            let step = place.sequence();
            &&& step.used == varbind_tlv(varbind).len()
            &&& step.outcome matches Ok(inner) && inner.oid().outcome == Ok::<
                Seq<u32>,
                BerFault,
            >(varbind.oid) && last_value_outcome(inner.advance(inner.oid().used)) == Ok::<
                DecodedValueView,
                BerFault,
            >(decoded_value(varbind.value))
        }),
{
    let name = tlv::oid_tlv(varbind.oid);
    let value = value_tlv(varbind.value);
    let contents = name + value;
    tlv::lemma_tlv_len(TAG_SEQUENCE, contents);
    tlv::law_primitive_round_trip(
        BerType::Oid,
        TAG_SEQUENCE,
        contents,
        tail,
        at,
    );
    let inner = Cursor {
        rest: contents,
        at: at + varbind_tlv(varbind).len() - contents.len(),
    };
    tlv::law_oid_tlv_round_trip(varbind.oid, value, inner.at);
    assert(contents.skip(name.len() as int) =~= value);
    law_value_round_trip(varbind.value, inner.at + name.len());
}

proof fn lemma_varbinds_step(
    done: Seq<DecodedVarbindView>,
    varbind: VarbindView,
    tail: Seq<u8>,
    at: int,
)
    requires
        wire_varbind(varbind),
        varbind_tlv(varbind).len() <= usize::MAX,
    ensures
        varbinds_outcome(done, Cursor { rest: varbind_tlv(varbind) + tail, at })
            == varbinds_outcome(
            done.push(decoded_varbind(varbind)),
            Cursor { rest: tail, at: at + varbind_tlv(varbind).len() },
        ),
{
    reveal(varbinds_outcome);
    let first = varbind_tlv(varbind);
    let place = Cursor { rest: first + tail, at };
    tlv::lemma_tlv_len(TAG_SEQUENCE, tlv::oid_tlv(varbind.oid) + value_tlv(varbind.value));
    lemma_one_varbind(varbind, tail, at);
    assert(place.advance(first.len()) =~= (Cursor { rest: tail, at: at + first.len() }));
}

proof fn lemma_varbinds(done: Seq<DecodedVarbindView>, varbinds: Seq<VarbindView>, at: int)
    requires
        forall|i: int| 0 <= i < varbinds.len() ==> wire_varbind(#[trigger] varbinds[i]),
        concat(varbind_tlvs(varbinds)).len() <= usize::MAX,
    ensures
        varbinds_outcome(done, Cursor { rest: concat(varbind_tlvs(varbinds)), at }) == Ok::<
            Seq<DecodedVarbindView>,
            BerFault,
        >(done + decoded_varbinds(varbinds)),
    decreases varbinds.len(),
{
    let parts = varbind_tlvs(varbinds);
    if varbinds.len() == 0 {
        assert(varbinds_outcome(done, Cursor { rest: concat(parts), at }) == Ok::<
            Seq<DecodedVarbindView>,
            BerFault,
        >(done)) by {
            reveal(varbinds_outcome);
        }
        assert(done + decoded_varbinds(varbinds) =~= done);
    } else {
        let rest = varbinds.skip(1);
        let first = varbind_tlv(varbinds[0]);
        let tail = concat(varbind_tlvs(rest));
        let next = done.push(decoded_varbind(varbinds[0]));
        assert(concat(parts) == first + tail) by {
            assert(parts.skip(1) =~= varbind_tlvs(rest));
            lemma_concat_front(parts);
        }
        lemma_varbinds_step(done, varbinds[0], tail, at);
        assert forall|i: int| 0 <= i < rest.len() implies wire_varbind(#[trigger] rest[i]) by {
            assert(wire_varbind(varbinds[i + 1]));
        }
        lemma_varbinds(next, rest, at + first.len());
        assert(next + decoded_varbinds(rest) =~= done + decoded_varbinds(varbinds));
    }
}

/// A `VarBindList` is read back as the varbinds that it was written for.
pub proof fn law_varbind_list_round_trip(varbinds: Seq<VarbindView>)
    requires
        forall|i: int| 0 <= i < varbinds.len() ==> wire_varbind(#[trigger] varbinds[i]),
        varbind_list_tlv(varbinds).len() <= usize::MAX,
    ensures
        varbind_list_outcome(varbind_list_tlv(varbinds)) == Ok::<
            Seq<DecodedVarbindView>,
            BerFault,
        >(decoded_varbinds(varbinds)),
{
    let contents = concat(varbind_tlvs(varbinds));
    let whole = varbind_list_tlv(varbinds);
    tlv::lemma_tlv_len(TAG_SEQUENCE, contents);
    assert(whole + Seq::<u8>::empty() =~= whole);
    tlv::law_primitive_round_trip(
        BerType::Oid,
        TAG_SEQUENCE,
        contents,
        Seq::empty(),
        0,
    );
    lemma_varbinds(Seq::empty(), varbinds, (whole.len() - contents.len()) as int);
    assert(Seq::<DecodedVarbindView>::empty() + decoded_varbinds(varbinds) =~= decoded_varbinds(
        varbinds,
    ));
}

/// A value is one triple whose tag names its type. The contents of a number denote it; those
/// of an OCTET STRING, an address or an opaque value are its bytes; those of an OBJECT
/// IDENTIFIER are its arcs; and a NULL or an exception has none.
pub proof fn law_value_triple(value: VarbindValueView)
    requires
        wire_value(value),
        value_tlv(value).len() <= usize::MAX,
    ensures
        (Cursor { rest: value_tlv(value), at: 0 }).tlv().used == value_tlv(value).len(),
        (Cursor { rest: value_tlv(value), at: 0 }).tlv().outcome matches Ok((tag, contents))
            && match value {
            VarbindValueView::Unspecified => tag == 0x05 && contents.len() == 0,
            VarbindValueView::NoSuchObject => tag == 0x80 && contents.len() == 0,
            VarbindValueView::NoSuchInstance => tag == 0x81 && contents.len() == 0,
            VarbindValueView::EndOfMibView => tag == 0x82 && contents.len() == 0,
            VarbindValueView::Value(ValueView::Integer32(n)) => tag == 0x02
                && integer::signed_value(contents) == n,
            VarbindValueView::Value(ValueView::OctetString(bytes)) => tag == 0x04 && contents
                == bytes,
            VarbindValueView::Value(ValueView::ObjectIdentifier(arcs)) => tag == 0x06
                && oid::oid_outcome(contents, 0) == Ok::<Seq<u32>, BerFault>(arcs),
            VarbindValueView::Value(ValueView::IpAddress(octets)) => tag == 0x40 && contents
                == octets,
            VarbindValueView::Value(ValueView::Counter32(n)) => tag == 0x41
                && integer::signed_value(contents) == n,
            VarbindValueView::Value(ValueView::Gauge32(n)) => tag == 0x42 && integer::signed_value(
                contents,
            ) == n,
            VarbindValueView::Value(ValueView::TimeTicks(n)) => tag == 0x43
                && integer::signed_value(contents) == n,
            VarbindValueView::Value(ValueView::Opaque(bytes)) => tag == 0x44 && contents == bytes,
            VarbindValueView::Value(ValueView::Counter64(n)) => tag == 0x46
                && integer::signed_value(contents) == n,
        },
{
    let whole = value_tlv(value);
    let place = Cursor { rest: whole, at: 0 };
    assert(whole + Seq::<u8>::empty() =~= whole);
    match value {
        VarbindValueView::Unspecified => {
            lemma_triple(TAG_NULL, Seq::empty());
            tlv::lemma_empty_tlv(TAG_NULL);
        },
        VarbindValueView::NoSuchObject => {
            lemma_triple(TAG_NO_SUCH_OBJECT, Seq::empty());
            tlv::lemma_empty_tlv(TAG_NO_SUCH_OBJECT);
        },
        VarbindValueView::NoSuchInstance => {
            lemma_triple(TAG_NO_SUCH_INSTANCE, Seq::empty());
            tlv::lemma_empty_tlv(TAG_NO_SUCH_INSTANCE);
        },
        VarbindValueView::EndOfMibView => {
            lemma_triple(TAG_END_OF_MIB_VIEW, Seq::empty());
            tlv::lemma_empty_tlv(TAG_END_OF_MIB_VIEW);
        },
        VarbindValueView::Value(ValueView::Integer32(n)) => {
            lemma_triple(TAG_INTEGER, integer::signed_bytes(n as int));
            integer::lemma_signed_bytes(n as int);
        },
        VarbindValueView::Value(ValueView::OctetString(bytes)) => {
            lemma_triple(TAG_OCTET_STRING, bytes);
        },
        VarbindValueView::Value(ValueView::ObjectIdentifier(arcs)) => {
            lemma_triple(TAG_OID, oid::oid_bytes(arcs));
            oid::law_oid_round_trip(arcs, 0);
        },
        VarbindValueView::Value(ValueView::IpAddress(octets)) => {
            lemma_triple(TAG_IP_ADDRESS, octets);
        },
        VarbindValueView::Value(ValueView::Counter32(n)) => {
            lemma_triple(TAG_COUNTER32, integer::unsigned_bytes(n as nat));
            integer::law_unsigned_is_signed(n as nat);
        },
        VarbindValueView::Value(ValueView::Gauge32(n)) => {
            lemma_triple(TAG_GAUGE32, integer::unsigned_bytes(n as nat));
            integer::law_unsigned_is_signed(n as nat);
        },
        VarbindValueView::Value(ValueView::TimeTicks(n)) => {
            lemma_triple(TAG_TIMETICKS, integer::unsigned_bytes(n as nat));
            integer::law_unsigned_is_signed(n as nat);
        },
        VarbindValueView::Value(ValueView::Opaque(bytes)) => {
            lemma_triple(TAG_OPAQUE, bytes);
        },
        VarbindValueView::Value(ValueView::Counter64(n)) => {
            lemma_triple(TAG_COUNTER64, integer::unsigned_bytes(n as nat));
            integer::law_unsigned_is_signed(n as nat);
        },
    }
}

proof fn lemma_triple(tag: u8, contents: Seq<u8>)
    requires
        contents.len() <= usize::MAX || tlv::tlv_bytes(tag, contents).len() <= usize::MAX,
    ensures
        (Cursor { rest: tlv::tlv_bytes(tag, contents), at: 0 }).tlv() == (Step {
            outcome: Ok::<(u8, Seq<u8>), BerFault>((tag, contents)),
            used: tlv::tlv_bytes(tag, contents).len(),
        }),
{
    let whole = tlv::tlv_bytes(tag, contents);
    tlv::lemma_tlv_len(tag, contents);
    assert(whole + Seq::<u8>::empty() =~= whole);
    tlv::law_tlv_round_trip(tag, contents, Seq::empty(), 0);
}

/// A value under an application tag is read by its tag. An address must have four bytes, a
/// counter, gauge or number of ticks must be unsigned and fit its type, in however many
/// bytes it is written, and an opaque value may be anything. Every other tag is refused.
pub proof fn law_application_values(tag: u8, bytes: Seq<u8>)
    ensures
        ({
            let outcome = converted_outcome(DecodedValueView::Raw { tag, value_bytes: bytes });
            let unsigned = bytes.len() > 0 && bytes[0] < 128;
            let short = unsigned && integer::be_value(bytes) <= 0xffff_ffff;
            let long = unsigned && integer::be_value(bytes) <= 0xffff_ffff_ffff_ffff;
            let word = integer::be_value(bytes) as u32;
            &&& tag == 0x40 ==> (outcome is Ok <==> bytes.len() == 4)
            &&& tag == 0x40 && bytes.len() == 4 ==> outcome->Ok_0 == VarbindValueView::Value(
                ValueView::IpAddress(bytes),
            )
            &&& tag == 0x41 || tag == 0x42 || tag == 0x43 ==> (outcome is Ok <==> short)
            &&& tag == 0x41 && short ==> outcome->Ok_0 == VarbindValueView::Value(
                ValueView::Counter32(word),
            )
            &&& tag == 0x42 && short ==> outcome->Ok_0 == VarbindValueView::Value(
                ValueView::Gauge32(word),
            )
            &&& tag == 0x43 && short ==> outcome->Ok_0 == VarbindValueView::Value(
                ValueView::TimeTicks(word),
            )
            &&& tag == 0x44 ==> outcome == Ok::<VarbindValueView, BerFault>(
                VarbindValueView::Value(ValueView::Opaque(bytes)),
            )
            &&& tag == 0x46 ==> (outcome is Ok <==> long)
            &&& tag == 0x46 && long ==> outcome->Ok_0 == VarbindValueView::Value(
                ValueView::Counter64(integer::be_value(bytes) as u64),
            )
            &&& !(0x40 <= tag <= 0x44) && tag != 0x46 ==> outcome == Err::<
                VarbindValueView,
                BerFault,
            >(BerFault::UnsupportedTag { tag })
        }),
{
    integer::law_integer_ranges(bytes, 0);
}

/// A value that needs no conversion keeps what it holds.
pub proof fn law_universal_values(n: i32, bytes: Seq<u8>, arcs: Seq<u32>)
    ensures
        converted_outcome(DecodedValueView::Integer(n)) == Ok::<VarbindValueView, BerFault>(
            VarbindValueView::Value(ValueView::Integer32(n)),
        ),
        converted_outcome(DecodedValueView::OctetString(bytes)) == Ok::<VarbindValueView, BerFault>(
            VarbindValueView::Value(ValueView::OctetString(bytes)),
        ),
        converted_outcome(DecodedValueView::ObjectIdentifier(arcs)) == Ok::<
            VarbindValueView,
            BerFault,
        >(VarbindValueView::Value(ValueView::ObjectIdentifier(arcs))),
{
}

/// The value of a varbind is read by its tag. A NULL or an exception must be empty, and any
/// tag that is not one of the six universal or exceptional ones is kept with its contents.
pub proof fn law_value_read(place: Cursor)
    requires
        place.tlv().outcome is Ok,
        place.tlv().used == place.rest.len(),
    ensures
        ({
            let tag = place.tlv().outcome->Ok_0.0;
            let contents = place.tlv().outcome->Ok_0.1;
            let outcome = last_value_outcome(place);
            let empty = contents.len() == 0;
            &&& tag == 0x05 || 0x80 <= tag <= 0x82 ==> (outcome is Ok <==> empty)
            &&& tag == 0x05 && empty ==> outcome->Ok_0 == DecodedValueView::Unspecified
            &&& tag == 0x80 && empty ==> outcome->Ok_0 == DecodedValueView::NoSuchObject
            &&& tag == 0x81 && empty ==> outcome->Ok_0 == DecodedValueView::NoSuchInstance
            &&& tag == 0x82 && empty ==> outcome->Ok_0 == DecodedValueView::EndOfMibView
            &&& tag == 0x02 ==> match outcome {
                Ok(DecodedValueView::Integer(n)) => integer::signed_value(contents) == n,
                Ok(_) => false,
                Err(_) => contents.len() == 0 || integer::signed_value(contents) > 0x7fff_ffff
                    || integer::signed_value(contents) < -0x8000_0000,
            }
            &&& tag == 0x04 ==> outcome == Ok::<DecodedValueView, BerFault>(
                DecodedValueView::OctetString(contents),
            )
            &&& tag == 0x06 ==> match outcome {
                Ok(DecodedValueView::ObjectIdentifier(arcs)) => oid::oid_bytes(arcs) == contents,
                Ok(_) => false,
                Err(_) => oid::oid_outcome(contents, place.at as usize) is Err,
            }
            &&& !(tag == 0x02 || 0x04 <= tag <= 0x06 || 0x80 <= tag <= 0x82) ==> outcome == Ok::<
                DecodedValueView,
                BerFault,
            >(DecodedValueView::Raw { tag, value_bytes: contents })
        }),
{
    tlv::law_tlv_progress(place);
    tlv::law_typed_reads(place);
    let contents = place.tlv().outcome->Ok_0.1;
    integer::law_integer_ranges(contents, place.at as usize);
    oid::law_oid_canonical(contents, place.at as usize);
}

/// A varbind is one SEQUENCE of its OID and its value, in this order and nothing else.
pub proof fn law_varbind(arcs: Seq<u32>, value: Seq<u8>)
    requires
        crate::codec::oid::valid_arcs(arcs),
        arcs.len() <= 128,
        varbind_around(arcs, value).len() <= usize::MAX,
    ensures
        ({
            let whole = varbind_around(arcs, value);
            &&& (Cursor { rest: whole, at: 0 }).sequence() matches Step { outcome: Ok(inner), used }
            &&& used == whole.len()
            &&& inner.oid().outcome == Ok::<Seq<u32>, BerFault>(arcs)
            &&& inner.advance(inner.oid().used).rest == value
        }),
{
    let name = tlv::oid_tlv(arcs);
    let contents = name + value;
    let whole = varbind_around(arcs, value);
    tlv::lemma_tlv_len(TAG_SEQUENCE, contents);
    assert(whole + Seq::<u8>::empty() =~= whole);
    tlv::law_primitive_round_trip(BerType::Oid, TAG_SEQUENCE, contents, Seq::empty(), 0);
    tlv::law_oid_tlv_round_trip(arcs, value, (whole.len() - contents.len()) as int);
    assert(contents.skip(name.len() as int) =~= value);
}

/// A `VarBindList` is one SEQUENCE whose contents are the varbinds one after the other:
/// those of a longer list are those of the shorter one followed by the one that was added.
pub proof fn law_varbind_list(parts: Seq<Seq<u8>>, next: Seq<u8>)
    requires
        varbind_list_around(parts).len() <= usize::MAX,
    ensures
        (Cursor { rest: varbind_list_around(parts), at: 0 }).sequence() matches Step {
            outcome: Ok(inner),
            used,
        } && used == varbind_list_around(parts).len() && inner.rest == concat(parts),
        concat(Seq::empty()).len() == 0,
        concat(parts.push(next)) == concat(parts) + next,
{
    let contents = concat(parts);
    let whole = varbind_list_around(parts);
    tlv::lemma_tlv_len(TAG_SEQUENCE, contents);
    assert(whole + Seq::<u8>::empty() =~= whole);
    tlv::law_primitive_round_trip(BerType::Oid, TAG_SEQUENCE, contents, Seq::empty(), 0);
    assert(parts.push(next).drop_last() =~= parts);
}

/// The triples of varbinds stand in the order of the varbinds, each around its own OID and
/// its own value.
pub proof fn law_varbind_order(varbinds: Seq<VarbindView>)
    ensures
        varbind_tlvs(varbinds).len() == varbinds.len(),
        forall|i: int|
            0 <= i < varbinds.len() ==> #[trigger] varbind_tlvs(varbinds)[i] == varbind_around(
                varbinds[i].oid,
                value_tlv(varbinds[i].value),
            ),
        varbind_list_tlv(varbinds) == varbind_list_around(varbind_tlvs(varbinds)),
{
}

/// The mathematical value of a decoded varbind holds what the varbind holds.
pub proof fn law_decoded_view(varbind: DecodedVarbind)
    ensures
        varbind@.name == varbind.name@,
        varbind@.value == varbind.value@,
        match varbind.value {
            DecodedVarbindValue::Unspecified => varbind@.value is Unspecified,
            DecodedVarbindValue::NoSuchObject => varbind@.value is NoSuchObject,
            DecodedVarbindValue::NoSuchInstance => varbind@.value is NoSuchInstance,
            DecodedVarbindValue::EndOfMibView => varbind@.value is EndOfMibView,
            DecodedVarbindValue::Integer(n) => varbind@.value == DecodedValueView::Integer(n),
            DecodedVarbindValue::OctetString(bytes) => varbind@.value
                == DecodedValueView::OctetString(bytes@),
            DecodedVarbindValue::ObjectIdentifier(name) => varbind@.value
                == DecodedValueView::ObjectIdentifier(name@),
            DecodedVarbindValue::Raw { tag, value_bytes } => varbind@.value matches
                DecodedValueView::Raw { tag: t, value_bytes: v } && t == tag && v == value_bytes@,
        },
{
}

/// Bytes behind a `VarBindList`, and bytes behind the value inside a varbind, are refused.
pub proof fn law_trailing_bytes(contents: Seq<u8>, more: Seq<u8>, place: Cursor)
    requires
        contents.len() <= usize::MAX,
        more.len() > 0,
    ensures
        varbind_list_outcome(tlv::tlv_bytes(0x30, contents) + more) == Err::<
            Seq<DecodedVarbindView>,
            BerFault,
        >(BerFault::BytesAfterVarbindList),
        value_step(place).outcome is Ok && value_step(place).used < place.rest.len()
            ==> last_value_outcome(place) == Err::<DecodedValueView, BerFault>(
            BerFault::BytesInVarbind { count: (place.rest.len() - value_step(place).used) as usize },
        ),
{
    tlv::law_primitive_round_trip(BerType::Oid, 0x30, contents, more, 0);
}

/// The mathematical values of varbinds and of encoded parts stand in the order of what they
/// are the values of.
pub proof fn law_views_in_order(varbinds: Seq<DecodedVarbind>, parts: Seq<&[u8]>)
    ensures
        decoded_views(varbinds).len() == varbinds.len(),
        forall|i: int|
            0 <= i < varbinds.len() ==> (#[trigger] decoded_views(varbinds)[i]) == varbinds[i]@,
        slice_views(parts).len() == parts.len(),
        forall|i: int| 0 <= i < parts.len() ==> (#[trigger] slice_views(parts)[i]) == parts[i]@,
{
}

} // verus!
