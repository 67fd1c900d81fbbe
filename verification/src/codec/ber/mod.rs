//! BER encoding and decoding primitives for SNMP.
//!
//! [`tlv`] states what bytes stand for; the reader and the writer are proved against it.

pub mod error;
pub mod integer;
pub mod oid;
pub mod pdu;
pub mod reader;
pub mod snmp;
pub mod tag;
pub mod tlv;
pub mod varbind;
pub mod writer;

pub use error::BerError;
pub use reader::BerReader;
pub use writer::BerWriter;
