//! The core of an embeddable SNMPv3 agent: OIDs, SMIv2 values, a BER codec for SNMP
//! messages, the MIB store and the rules of the agent, each with machine-checked
//! contracts.

pub mod agent;
pub mod codec;
mod counter;
pub mod fuzz;
pub mod mib;
pub mod seeds;
pub mod text;
pub mod usm;

pub use agent::{SecurityConfig, SetError, TrapError, TrapPdu};
pub use codec::{Oid, Value, Varbind, VarbindValue};
