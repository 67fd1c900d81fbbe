//! The SNMP codec: OIDs, values and the BER wire format.
//!
//! - [`Oid`]: an SNMP Object Identifier, with its order and its dotted-decimal text.
//! - [`Value`]: an `SMIv2` value carried in an SNMP varbind (RFC 2578).
//! - [`pdu`]: SNMP PDUs and messages, decoded and encoded (RFC 3416, RFC 3412).
//! - [`ber`]: the BER primitives beneath them.

pub mod ber;
pub mod oid;
pub mod pdu;
pub mod value;

pub use oid::{Oid, OidErrorCategory, ParseArcError, ParseOidError};
pub use pdu::{
    decode_pdu, decode_scoped_pdu, decode_v3_message, encode_response, encode_trap,
    encode_v3_report, encode_v3_response, encode_v3_trap, DecodeError, DecodeErrorKind,
    DecodedScopedPdu, EncodeError, ErrorStatus, GetBulkRequest, GetNextRequest, GetRequest,
    GetResponse, InboundPdu, InvalidErrorStatus, MessageId, PendingEncryption, PendingSignature,
    RequestId, SecurityModel, SetRequest, UsmSecurityFields, V3Encoding, V3InboundMessage,
    V3ScopedData, Varbind, VarbindValue, WireTrapPdu,
};
pub use value::Value;
