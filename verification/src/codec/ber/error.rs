//! What can go wrong while reading or writing BER, and how it is reported.

use vstd::prelude::*;
use crate::text;
use crate::text::{push_decimal, push_hex_byte, push_signed};

verus! {

/// The primitive type that a reader asked for.
#[derive(Copy, Clone, Debug, PartialEq, Eq, Structural)]
pub enum BerType {
    /// An INTEGER under its universal tag.
    Integer,
    /// An unsigned 32-bit integer under an application tag.
    TaggedUnsigned32,
    /// An unsigned 64-bit integer under an application tag.
    TaggedUnsigned64,
    /// An OCTET STRING.
    OctetString,
    /// A NULL.
    Null,
    /// An OBJECT IDENTIFIER.
    Oid,
}

impl BerType {
    /// The name used in error messages.
    pub open spec fn text(self) -> Seq<char> {
        match self {
            BerType::Integer => "INTEGER"@,
            BerType::TaggedUnsigned32 => "tagged unsigned32"@,
            BerType::TaggedUnsigned64 => "tagged unsigned64"@,
            BerType::OctetString => "OCTET STRING"@,
            BerType::Null => "NULL"@,
            BerType::Oid => "OID"@,
        }
    }

    fn name(self) -> (name: &'static str)
        ensures
            name@ == self.text(),
    {
        match self {
            BerType::Integer => "INTEGER",
            BerType::TaggedUnsigned32 => "tagged unsigned32",
            BerType::TaggedUnsigned64 => "tagged unsigned64",
            BerType::OctetString => "OCTET STRING",
            BerType::Null => "NULL",
            BerType::Oid => "OID",
        }
    }
}

/// The reason for which a BER operation is refused, with what the message reports.
///
/// Offsets are absolute: they count from the first byte of the outermost message.
#[derive(Copy, Clone, Debug, PartialEq, Eq, Structural)]
pub enum BerFault {
    /// No byte is left where a tag is expected.
    MissingTag { offset: usize },
    /// No byte is left where a length is expected.
    MissingLength { offset: usize },
    /// The indefinite length form, which SNMP forbids.
    IndefiniteLength { offset: usize },
    /// A long-form length with fewer bytes than it announces.
    TruncatedLength { need: usize, offset: usize },
    /// A length that does not fit in `usize`.
    LengthOverflow { offset: usize },
    /// A value that is shorter than its length field says.
    TruncatedValue { length: usize, remaining: usize, tag: u8, offset: usize },
    /// Another tag than that of the primitive type asked for.
    UnexpectedType { wanted: BerType, expected: u8, found: u8, offset: usize },
    /// Another tag than that of the constructed value asked for.
    UnexpectedTag { expected: u8, found: u8, offset: usize },
    /// A NULL with contents.
    NullLength { length: usize, offset: usize },
    /// An INTEGER without contents.
    EmptyInteger { offset: usize },
    /// An INTEGER outside the range of `i32`.
    SignedTooLarge { bytes: usize, offset: usize },
    /// An INTEGER outside the range of the unsigned type of `bits` bits.
    UnsignedTooLarge { bits: usize, bytes: usize, offset: usize },
    /// A negative INTEGER where an unsigned one is expected.
    NegativeUnsigned { offset: usize },
    /// An OID without contents.
    EmptyOid { offset: usize },
    /// A sub-identifier whose last byte is missing.
    TruncatedSubIdentifier { offset: usize },
    /// A sub-identifier with a leading zero group.
    NonMinimalSubIdentifier { offset: usize },
    /// A sub-identifier that does not fit in `u64`.
    SubIdentifierOverflow { offset: usize },
    /// More sub-identifiers than an SNMP OID may have.
    TooManySubIdentifiers { count: usize, offset: usize },
    /// A second arc that does not fit in `u32`.
    SecondArcOverflow { offset: usize },
    /// A later arc that does not fit in `u32`.
    ArcOverflow { offset: usize },
    /// Bytes after the `VarBindList` SEQUENCE.
    BytesAfterVarbindList,
    /// An exception value with contents.
    ExceptionLength { tag: u8, length: usize },
    /// Bytes after the value inside a `VarBind`.
    BytesInVarbind { count: usize },
    /// An `IpAddress` that is not four bytes long.
    IpAddressLength { length: usize },
    /// A value under a tag that is no `SMIv2` type.
    UnsupportedTag { tag: u8 },
    /// A tag that is none of the three exceptions.
    InvalidException { tag: u8 },
    /// Bytes after a PDU.
    BytesAfterPdu,
    /// A tag that is no PDU type.
    UnknownPdu { tag: u8 },
    /// A PDU that ends before its `VarBindList`.
    MissingVarbindList,
    /// Bytes after the `VarBindList` inside a PDU.
    BytesAfterPduVarbinds,
    /// A tag under which no standard PDU can be written.
    InvalidPduTag { tag: u8 },
    /// A message of another version than `SNMPv3`.
    WrongVersion { version: i32 },
    /// A negative `msgID`.
    NegativeMessageId,
    /// A `msgMaxSize` below the minimum.
    MaxSizeTooSmall,
    /// A `msgFlags` that is not one byte long.
    FlagsLength { length: usize },
    /// A scoped PDU that is neither plaintext nor ciphertext.
    UnexpectedScopedPdu { tag: u8 },
}

impl BerFault {
    /// The message that reports this fault.
    pub open spec fn text(self) -> Seq<char> {
        match self {
            BerFault::MissingTag { offset } => "BER: unexpected end of input at offset "@ + text::decimal(
                offset as nat,
            ) + " while peeking tag"@,
            BerFault::MissingLength { offset } => "BER: unexpected end of input at offset "@
                + text::decimal(offset as nat) + " while reading length"@,
            BerFault::IndefiniteLength { offset } =>
                "BER: indefinite-length encoding is not permitted in SNMP at offset "@ + text::decimal(
                offset as nat,
            ),
            BerFault::TruncatedLength { need, offset } => "BER: truncated length field: need "@
                + text::decimal(need as nat) + " bytes at offset "@ + text::decimal(offset as nat),
            BerFault::LengthOverflow { offset } => "BER: length value overflows usize at offset "@
                + text::decimal(offset as nat),
            BerFault::TruncatedValue { length, remaining, tag, offset } =>
                "BER: truncated value: length field ("@ + text::decimal(length as nat)
                + ") exceeds remaining input ("@ + text::decimal(remaining as nat)
                + " bytes) for tag 0x"@ + text::hex_byte(tag) + " at offset "@ + text::decimal(offset as nat),
            BerFault::UnexpectedType { wanted, expected, found, offset } => "BER: expected "@
                + wanted.text() + " (0x"@ + text::hex_byte(expected) + "), got 0x"@ + text::hex_byte(found)
                + " at offset "@ + text::decimal(offset as nat),
            BerFault::UnexpectedTag { expected, found, offset } => "BER: expected tag 0x"@
                + text::hex_byte(expected) + ", got 0x"@ + text::hex_byte(found) + " at offset "@ + text::decimal(
                offset as nat,
            ),
            BerFault::NullLength { length, offset } =>
                "BER: NULL value must have length 0, got "@ + text::decimal(length as nat)
                + " at offset "@ + text::decimal(offset as nat),
            BerFault::EmptyInteger { offset } => "BER: INTEGER value has zero length at offset "@
                + text::decimal(offset as nat),
            BerFault::SignedTooLarge { bytes, offset } =>
                "BER: INTEGER value too large for i32 ("@ + text::decimal(bytes as nat)
                + " bytes) at offset "@ + text::decimal(offset as nat),
            BerFault::UnsignedTooLarge { bits, bytes, offset } =>
                "BER: INTEGER value too large for u"@ + text::decimal(bits as nat) + " ("@ + text::decimal(
                bytes as nat,
            ) + " bytes) at offset "@ + text::decimal(offset as nat),
            BerFault::NegativeUnsigned { offset } =>
                "BER: negative INTEGER cannot be decoded as unsigned at offset "@ + text::decimal(
                offset as nat,
            ),
            BerFault::EmptyOid { offset } => "BER: OID value has zero length at offset "@
                + text::decimal(offset as nat),
            BerFault::TruncatedSubIdentifier { offset } =>
                "BER: truncated OID sub-identifier at offset "@ + text::decimal(offset as nat),
            BerFault::NonMinimalSubIdentifier { offset } =>
                "BER: non-minimal OID sub-identifier encoding (leading 0x80) at offset "@
                + text::decimal(offset as nat),
            BerFault::SubIdentifierOverflow { offset } =>
                "BER: OID sub-identifier overflows u64 at offset "@ + text::decimal(offset as nat),
            BerFault::TooManySubIdentifiers { count, offset } =>
                "BER: OID has too many sub-identifiers ("@ + text::decimal(count as nat)
                + ", maximum 128) at offset "@ + text::decimal(offset as nat),
            BerFault::SecondArcOverflow { offset } =>
                "BER: OID second arc overflows u32 at offset "@ + text::decimal(offset as nat),
            BerFault::ArcOverflow { offset } => "BER: OID arc overflows u32 at offset "@
                + text::decimal(offset as nat),
            BerFault::BytesAfterVarbindList => "BER: trailing bytes after VarBindList SEQUENCE"@,
            BerFault::ExceptionLength { tag, length } => "BER: exception tag 0x"@ + text::hex_byte(tag)
                + " must have length 0, got "@ + text::decimal(length as nat),
            BerFault::BytesInVarbind { count } => "BER: trailing bytes in VarBind SEQUENCE: "@
                + text::decimal(count as nat) + " byte(s) remain after value"@,
            BerFault::IpAddressLength { length } =>
                "BER: IpAddress must be exactly 4 bytes, got "@ + text::decimal(length as nat),
            BerFault::UnsupportedTag { tag } => "BER: unsupported APPLICATION tag 0x"@ + text::hex_byte(
                tag,
            ) + " in VarBind value"@,
            BerFault::InvalidException { tag } => "BER: invalid exception tag 0x"@ + text::hex_byte(tag),
            BerFault::BytesAfterPdu => "BER: trailing bytes after PDU TLV"@,
            BerFault::UnknownPdu { tag } => "BER: unrecognised PDU tag 0x"@ + text::hex_byte(tag),
            BerFault::MissingVarbindList => "BER: PDU missing VarBindList"@,
            BerFault::BytesAfterPduVarbinds => "BER: trailing bytes after VarBindList in PDU"@,
            BerFault::InvalidPduTag { tag } => "BER: invalid standard PDU tag 0x"@ + text::hex_byte(tag),
            BerFault::WrongVersion { version } =>
                "BER: expected SNMPv3 (version 3), got version "@ + text::signed_decimal(version as int),
            BerFault::NegativeMessageId => "BER: msgID must be non-negative per RFC 3412 §6.4"@,
            BerFault::MaxSizeTooSmall =>
                "BER: msgMaxSize must be at least 484 per RFC 3412 §6.6"@,
            BerFault::FlagsLength { length } => "BER: msgFlags must be exactly 1 byte, got "@
                + text::decimal(length as nat),
            BerFault::UnexpectedScopedPdu { tag } =>
                "BER: expected ScopedPduData as SEQUENCE (0x30) or OCTET STRING (0x04), got tag 0x"@
                + text::hex_byte(tag),
        }
    }

    /// Renders the message that reports this fault.
    pub fn render(self) -> (out: String)
        ensures
            out@ == self.text(),
    {
        match self {
            BerFault::MissingTag { offset } => {
                let mut out = with_number("BER: unexpected end of input at offset ", offset);
                out.append(" while peeking tag");
                out
            },
            BerFault::MissingLength { offset } => {
                let mut out = with_number("BER: unexpected end of input at offset ", offset);
                out.append(" while reading length");
                out
            },
            BerFault::IndefiniteLength { offset } => with_number(
                "BER: indefinite-length encoding is not permitted in SNMP at offset ",
                offset,
            ),
            BerFault::TruncatedLength { need, offset } => {
                let mut out = with_number("BER: truncated length field: need ", need);
                out.append(" bytes at offset ");
                push_decimal(&mut out, offset as u64);
                out
            },
            BerFault::LengthOverflow { offset } => with_number(
                "BER: length value overflows usize at offset ",
                offset,
            ),
            BerFault::TruncatedValue { length, remaining, tag, offset } => {
                let mut out = with_number("BER: truncated value: length field (", length);
                out.append(") exceeds remaining input (");
                push_decimal(&mut out, remaining as u64);
                out.append(" bytes) for tag 0x");
                push_hex_byte(&mut out, tag);
                out.append(" at offset ");
                push_decimal(&mut out, offset as u64);
                out
            },
            BerFault::UnexpectedType { wanted, expected, found, offset } => {
                let mut out = "BER: expected ".to_owned();
                out.append(wanted.name());
                out.append(" (0x");
                push_hex_byte(&mut out, expected);
                out.append("), got 0x");
                push_hex_byte(&mut out, found);
                out.append(" at offset ");
                push_decimal(&mut out, offset as u64);
                out
            },
            BerFault::UnexpectedTag { expected, found, offset } => {
                let mut out = with_byte("BER: expected tag 0x", expected);
                out.append(", got 0x");
                push_hex_byte(&mut out, found);
                out.append(" at offset ");
                push_decimal(&mut out, offset as u64);
                out
            },
            BerFault::NullLength { length, offset } => {
                let mut out = with_number("BER: NULL value must have length 0, got ", length);
                out.append(" at offset ");
                push_decimal(&mut out, offset as u64);
                out
            },
            BerFault::EmptyInteger { offset } => with_number(
                "BER: INTEGER value has zero length at offset ",
                offset,
            ),
            BerFault::SignedTooLarge { bytes, offset } => {
                let mut out = with_number("BER: INTEGER value too large for i32 (", bytes);
                out.append(" bytes) at offset ");
                push_decimal(&mut out, offset as u64);
                out
            },
            BerFault::UnsignedTooLarge { bits, bytes, offset } => {
                let mut out = with_number("BER: INTEGER value too large for u", bits);
                out.append(" (");
                push_decimal(&mut out, bytes as u64);
                out.append(" bytes) at offset ");
                push_decimal(&mut out, offset as u64);
                out
            },
            BerFault::NegativeUnsigned { offset } => with_number(
                "BER: negative INTEGER cannot be decoded as unsigned at offset ",
                offset,
            ),
            BerFault::EmptyOid { offset } => with_number(
                "BER: OID value has zero length at offset ",
                offset,
            ),
            BerFault::TruncatedSubIdentifier { offset } => with_number(
                "BER: truncated OID sub-identifier at offset ",
                offset,
            ),
            BerFault::NonMinimalSubIdentifier { offset } => with_number(
                "BER: non-minimal OID sub-identifier encoding (leading 0x80) at offset ",
                offset,
            ),
            BerFault::SubIdentifierOverflow { offset } => with_number(
                "BER: OID sub-identifier overflows u64 at offset ",
                offset,
            ),
            BerFault::TooManySubIdentifiers { count, offset } => {
                let mut out = with_number("BER: OID has too many sub-identifiers (", count);
                out.append(", maximum 128) at offset ");
                push_decimal(&mut out, offset as u64);
                out
            },
            BerFault::SecondArcOverflow { offset } => with_number(
                "BER: OID second arc overflows u32 at offset ",
                offset,
            ),
            BerFault::ArcOverflow { offset } => with_number(
                "BER: OID arc overflows u32 at offset ",
                offset,
            ),
            BerFault::BytesAfterVarbindList =>
                "BER: trailing bytes after VarBindList SEQUENCE".to_owned(),
            BerFault::ExceptionLength { tag, length } => {
                let mut out = with_byte("BER: exception tag 0x", tag);
                out.append(" must have length 0, got ");
                push_decimal(&mut out, length as u64);
                out
            },
            BerFault::BytesInVarbind { count } => {
                let mut out = with_number("BER: trailing bytes in VarBind SEQUENCE: ", count);
                out.append(" byte(s) remain after value");
                out
            },
            BerFault::IpAddressLength { length } => with_number(
                "BER: IpAddress must be exactly 4 bytes, got ",
                length,
            ),
            BerFault::UnsupportedTag { tag } => {
                let mut out = with_byte("BER: unsupported APPLICATION tag 0x", tag);
                out.append(" in VarBind value");
                out
            },
            BerFault::InvalidException { tag } => with_byte("BER: invalid exception tag 0x", tag),
            BerFault::BytesAfterPdu => "BER: trailing bytes after PDU TLV".to_owned(),
            BerFault::UnknownPdu { tag } => with_byte("BER: unrecognised PDU tag 0x", tag),
            BerFault::MissingVarbindList => "BER: PDU missing VarBindList".to_owned(),
            BerFault::BytesAfterPduVarbinds =>
                "BER: trailing bytes after VarBindList in PDU".to_owned(),
            BerFault::InvalidPduTag { tag } => with_byte("BER: invalid standard PDU tag 0x", tag),
            BerFault::WrongVersion { version } => {
                let mut out = "BER: expected SNMPv3 (version 3), got version ".to_owned();
                push_signed(&mut out, version);
                out
            },
            BerFault::NegativeMessageId =>
                "BER: msgID must be non-negative per RFC 3412 §6.4".to_owned(),
            BerFault::MaxSizeTooSmall =>
                "BER: msgMaxSize must be at least 484 per RFC 3412 §6.6".to_owned(),
            BerFault::FlagsLength { length } => with_number(
                "BER: msgFlags must be exactly 1 byte, got ",
                length,
            ),
            BerFault::UnexpectedScopedPdu { tag } => with_byte(
                "BER: expected ScopedPduData as SEQUENCE (0x30) or OCTET STRING (0x04), got tag 0x",
                tag,
            ),
        }
    }
}

fn with_number(prefix: &str, n: usize) -> (out: String)
    ensures
        out@ == prefix@ + text::decimal(n as nat),
{
    let mut out = prefix.to_owned();
    push_decimal(&mut out, n as u64);
    out
}

fn with_byte(prefix: &str, b: u8) -> (out: String)
    ensures
        out@ == prefix@ + text::hex_byte(b),
{
    let mut out = prefix.to_owned();
    push_hex_byte(&mut out, b);
    out
}

/// An error raised while reading or writing BER.
///
/// Its view is the message. A wrong message version is marked apart, so that the
/// message decoder can report it under a kind of its own.
#[derive(Debug)]
pub struct BerError {
    message: String,
    is_wrong_version: bool,
}

impl View for BerError {
    type V = Seq<char>;

    closed spec fn view(&self) -> Seq<char> {
        self.message@
    }
}

impl BerError {
    /// Whether the error reports a wrong message version.
    pub closed spec fn marks_version(&self) -> bool {
        self.is_wrong_version
    }

    /// Whether this is the error that `fault` is reported by.
    pub open spec fn reports(&self, fault: BerFault) -> bool {
        &&& self@ == fault.text()
        &&& self.marks_version() == (fault is WrongVersion)
    }

    /// An error with the given message.
    pub fn new(message: String) -> (error: BerError)
        ensures
            error@ == message@,
            !error.marks_version(),
    {
        BerError { message, is_wrong_version: false }
    }

    /// A wrong-version error with the given message.
    pub fn wrong_version(message: String) -> (error: BerError)
        ensures
            error@ == message@,
            error.marks_version(),
    {
        BerError { message, is_wrong_version: true }
    }

    /// The error that reports `fault`.
    pub fn from_fault(fault: BerFault) -> (error: BerError)
        ensures
            error.reports(fault),
    {
        let message = fault.render();
        match fault {
            BerFault::WrongVersion { version: _ } => BerError { message, is_wrong_version: true },
            _ => BerError { message, is_wrong_version: false },
        }
    }

    /// Whether the error reports a wrong message version.
    pub fn is_wrong_version(&self) -> (marked: bool)
        ensures
            marked == self.marks_version(),
    {
        self.is_wrong_version
    }

    /// The message.
    pub fn message(&self) -> (text: &str)
        ensures
            text@ == self@,
    {
        self.message.as_str()
    }

    /// The message as an owned string.
    pub fn to_string(&self) -> (text: String)
        ensures
            text@ == self@,
    {
        self.message.clone()
    }
}

/// Whether `result` is what `outcome` prescribes: the same value, or the error that
/// reports the fault.
pub open spec fn agrees<T>(result: Result<T, BerError>, outcome: Result<T, BerFault>) -> bool {
    match (result, outcome) {
        (Ok(value), Ok(wanted)) => value == wanted,
        (Err(error), Err(fault)) => error.reports(fault),
        _ => false,
    }
}

} // verus!
