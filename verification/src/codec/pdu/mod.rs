//! SNMP PDU types and their BER form for SNMPv2/v3 agents (RFC 3416).

pub mod decode;
pub mod encode;
pub mod types;

pub use decode::{decode_pdu, decode_scoped_pdu, decode_v3_message};
pub use encode::{
    encode_response, encode_trap, encode_v3_report, encode_v3_response, encode_v3_trap,
    PendingEncryption, PendingSignature, V3Encoding,
};
pub use types::{
    DecodeError, DecodeErrorKind, DecodedScopedPdu, EncodeError, ErrorStatus, GetBulkRequest,
    GetNextRequest, GetRequest, GetResponse, InboundPdu, InvalidErrorStatus, MessageId, RequestId,
    SecurityModel, SetRequest, UsmSecurityFields, V3InboundMessage, V3ScopedData, Varbind,
    VarbindValue, WireTrapPdu,
};
