//! BER tag bytes used by SNMP.

use vstd::prelude::*;

verus! {

/// Universal INTEGER.
pub const TAG_INTEGER: u8 = 0x02;

/// Universal OCTET STRING.
pub const TAG_OCTET_STRING: u8 = 0x04;

/// Universal NULL.
pub const TAG_NULL: u8 = 0x05;

/// Universal OBJECT IDENTIFIER.
pub const TAG_OID: u8 = 0x06;

/// Universal SEQUENCE, constructed.
pub const TAG_SEQUENCE: u8 = 0x30;

/// `GetRequest-PDU`.
pub const TAG_GET_REQUEST: u8 = 0xA0;

/// `GetNextRequest-PDU`.
pub const TAG_GET_NEXT_REQUEST: u8 = 0xA1;

/// `Response-PDU`.
pub const TAG_RESPONSE: u8 = 0xA2;

/// `SetRequest-PDU`.
pub const TAG_SET_REQUEST: u8 = 0xA3;

/// `Trap-PDU` of `SNMPv1`, which this codec refuses.
pub const TAG_TRAP_V1: u8 = 0xA4;

/// `GetBulkRequest-PDU`.
pub const TAG_GET_BULK_REQUEST: u8 = 0xA5;

/// `InformRequest-PDU`.
pub const TAG_INFORM_REQUEST: u8 = 0xA6;

/// `SNMPv2-Trap-PDU`.
pub const TAG_TRAP: u8 = 0xA7;

/// `Report-PDU`.
pub const TAG_REPORT: u8 = 0xA8;

/// `noSuchObject` exception.
pub const TAG_NO_SUCH_OBJECT: u8 = 0x80;

/// `noSuchInstance` exception.
pub const TAG_NO_SUCH_INSTANCE: u8 = 0x81;

/// `endOfMibView` exception.
pub const TAG_END_OF_MIB_VIEW: u8 = 0x82;

/// `IpAddress`.
pub const TAG_IP_ADDRESS: u8 = 0x40;

/// `Counter32`.
pub const TAG_COUNTER32: u8 = 0x41;

/// `Gauge32`.
pub const TAG_GAUGE32: u8 = 0x42;

/// `TimeTicks`.
pub const TAG_TIMETICKS: u8 = 0x43;

/// `Opaque`.
pub const TAG_OPAQUE: u8 = 0x44;

/// `Counter64`.
pub const TAG_COUNTER64: u8 = 0x46;

} // verus!
