//! The rules of an agent: its configuration, its traps and the errors of its calls.

use vstd::prelude::*;
use vstd::slice::slice_to_vec;
use crate::codec::oid::Oid;
use crate::codec::pdu::types;
use crate::codec::pdu::types::{
    RequestId, Varbind, VarbindValue, VarbindValueView, VarbindView, WireTrapPdu,
};
use crate::codec::value::{Value, ValueView};

verus! {

// ----- Configuration -----------------------------------------------------------------

/// The least length of an engine ID (RFC 3411 §5).
pub const MIN_ENGINE_ID_LEN: usize = 5;

/// The greatest length of an engine ID (RFC 3411 §5).
pub const MAX_ENGINE_ID_LEN: usize = 32;

/// The number of concurrent connections that an agent takes unless it is told otherwise.
pub const DEFAULT_MAX_CONNECTIONS: usize = 64;

/// Whether an engine ID has a length that RFC 3411 §5 permits.
pub open spec fn valid_engine_id(engine_id: Seq<u8>) -> bool {
    MIN_ENGINE_ID_LEN <= engine_id.len() <= MAX_ENGINE_ID_LEN
}

/// The engine ID has a length outside the range of 5 to 32 octets.
#[derive(Copy, Clone, Debug, PartialEq, Eq)]
pub struct InvalidEngineId;

impl InvalidEngineId {
    /// The message for the user.
    pub fn to_string(&self) -> (text: String)
        ensures
            text@ == "engine ID length is invalid: must be between 5 and 32 octets (RFC 3411 §5)"@,
    {
        "engine ID length is invalid: must be between 5 and 32 octets (RFC 3411 §5)".to_owned()
    }
}

/// Checks the length of an engine ID.
pub fn check_engine_id(engine_id: &[u8]) -> (result: Result<(), InvalidEngineId>)
    ensures
        result is Ok <==> valid_engine_id(engine_id@),
        result is Ok <==> 5 <= engine_id@.len() <= 32,
{
    if engine_id.len() < MIN_ENGINE_ID_LEN || engine_id.len() > MAX_ENGINE_ID_LEN {
        Err(InvalidEngineId)
    } else {
        Ok(())
    }
}

/// The engine ID of an agent that is given none: enterprise format, enterprise number
/// 8072, with the text `basic-snmp-agent`.
pub open spec fn default_engine_id_bytes() -> Seq<u8> {
    seq![
        0x80u8,
        0x00,
        0x1f,
        0x88,
        0x04,
        0x62,
        0x61,
        0x73,
        0x69,
        0x63,
        0x2d,
        0x73,
        0x6e,
        0x6d,
        0x70,
        0x2d,
        0x61,
        0x67,
        0x65,
        0x6e,
        0x74,
    ]
}

/// The engine ID of an agent that is given none.
pub fn default_engine_id() -> (engine_id: Vec<u8>)
    ensures
        engine_id@ == default_engine_id_bytes(),
        valid_engine_id(engine_id@),
{
    let bytes: [u8; 21] = [
        0x80,
        0x00,
        0x1f,
        0x88,
        0x04,
        0x62,
        0x61,
        0x73,
        0x69,
        0x63,
        0x2d,
        0x73,
        0x6e,
        0x6d,
        0x70,
        0x2d,
        0x61,
        0x67,
        0x65,
        0x6e,
        0x74,
    ];
    proof {
        assert(bytes@ =~= default_engine_id_bytes());
    }
    slice_to_vec(bytes.as_slice())
}

/// The security configuration of an agent.
///
/// Each variant is one of the three security levels of RFC 3414. `A` and `P` are the
/// users at the two authenticated levels, and `S` stores the engine-boots counter.
#[derive(Debug)]
pub enum SecurityConfig<A, P, S> {
    /// No authentication and no privacy. No engine-boots counter is kept.
    NoAuthNoPriv,
    /// Authentication without privacy.
    AuthNoPriv {
        /// The authenticated user.
        user: A,
        /// Storage for the engine-boots counter (RFC 3414 §2.2).
        boots_store: S,
    },
    /// Authentication with privacy.
    AuthPriv {
        /// The user with authentication and privacy.
        user: P,
        /// Storage for the engine-boots counter (RFC 3414 §2.2).
        boots_store: S,
    },
}

/// The user of an agent that authenticates.
#[derive(Debug, PartialEq, Eq)]
pub enum ConfiguredUser<A, P> {
    /// A user without privacy.
    AuthNoPriv(A),
    /// A user with privacy.
    AuthPriv(P),
}

impl<A, P, S> SecurityConfig<A, P, S> {
    /// The user and the engine-boots store, which go together: both levels that
    /// authenticate have them, and the level that does not has neither.
    pub open spec fn parts(self) -> Option<(ConfiguredUser<A, P>, S)> {
        match self {
            SecurityConfig::NoAuthNoPriv => None,
            SecurityConfig::AuthNoPriv { user, boots_store } => Some(
                (ConfiguredUser::AuthNoPriv(user), boots_store),
            ),
            SecurityConfig::AuthPriv { user, boots_store } => Some(
                (ConfiguredUser::AuthPriv(user), boots_store),
            ),
        }
    }

    /// Takes the configuration apart.
    pub fn into_parts(self) -> (parts: Option<(ConfiguredUser<A, P>, S)>)
        ensures
            parts == self.parts(),
    {
        match self {
            SecurityConfig::NoAuthNoPriv => None,
            SecurityConfig::AuthNoPriv { user, boots_store } => Some(
                (ConfiguredUser::AuthNoPriv(user), boots_store),
            ),
            SecurityConfig::AuthPriv { user, boots_store } => Some(
                (ConfiguredUser::AuthPriv(user), boots_store),
            ),
        }
    }
}

/// The engine-boots counter of an agent: the stored one, or 1 where none is kept.
pub fn engine_boots(stored: Option<u32>) -> (boots: u32)
    ensures
        boots == (match stored {
            Some(value) => value,
            None => 1,
        }),
{
    match stored {
        Some(value) => value,
        None => 1,
    }
}

// ----- Errors ------------------------------------------------------------------------

/// Why a value could not be set.
#[derive(Copy, Clone, Debug, PartialEq, Eq)]
pub enum SetError {
    /// The event loop has terminated.
    Disconnected,
}

impl SetError {
    /// The message for the user.
    pub fn to_string(&self) -> (text: String)
        ensures
            text@ == "agent event loop has terminated"@,
    {
        match self {
            SetError::Disconnected => "agent event loop has terminated".to_owned(),
        }
    }
}

/// Why a trap could not be sent.
#[derive(Copy, Clone, Debug, PartialEq, Eq)]
pub enum TrapError {
    /// No destination addresses were provided.
    EmptyDestinations,
}

impl TrapError {
    /// The message for the user.
    pub fn to_string(&self) -> (text: String)
        ensures
            text@ == "trap destination list is empty"@,
    {
        match self {
            TrapError::EmptyDestinations => "trap destination list is empty".to_owned(),
        }
    }
}

// ----- Traps -------------------------------------------------------------------------

/// Checks the destinations of a trap before any of it is sent.
pub fn check_destinations<D>(destinations: &[D]) -> (result: Result<(), TrapError>)
    ensures
        result is Ok <==> destinations@.len() > 0,
{
    if destinations.len() == 0 {
        Err(TrapError::EmptyDestinations)
    } else {
        Ok(())
    }
}

/// A trap as an application asks for it.
#[derive(Debug)]
pub struct TrapPdu {
    /// The request identifier.
    pub request_id: RequestId,
    /// The OID of the trap.
    pub trap_oid: Oid,
    /// The varbinds that go with the trap.
    pub varbinds: Vec<Varbind>,
}

/// The arcs of `sysUpTime.0`.
pub open spec fn sys_up_time_arcs() -> Seq<u32> {
    seq![1u32, 3, 6, 1, 2, 1, 1, 3, 0]
}

/// The arcs of `snmpTrapOID.0`.
pub open spec fn snmp_trap_oid_arcs() -> Seq<u32> {
    seq![1u32, 3, 6, 1, 6, 3, 1, 1, 4, 1, 0]
}

/// The varbinds of a trap on the wire: the up time of the agent and the OID of the trap
/// come first (RFC 3416 §4.2.6).
pub open spec fn wire_trap_varbinds(
    up_time: u32,
    trap_oid: Seq<u32>,
    varbinds: Seq<VarbindView>,
) -> Seq<VarbindView> {
    seq![
        VarbindView {
            oid: sys_up_time_arcs(),
            value: VarbindValueView::Value(ValueView::TimeTicks(up_time)),
        },
        VarbindView {
            oid: snmp_trap_oid_arcs(),
            value: VarbindValueView::Value(ValueView::ObjectIdentifier(trap_oid)),
        },
    ] + varbinds
}

/// A trap on the wire has two varbinds more than the application gave it: the first is
/// 1.3.6.1.2.1.1.3.0 with the up time, the second 1.3.6.1.6.3.1.1.4.1.0 with the OID of the
/// trap, and those of the application follow in their order.
pub proof fn law_wire_trap_varbinds(up_time: u32, trap_oid: Seq<u32>, varbinds: Seq<VarbindView>)
    ensures
        ({
            let wire = wire_trap_varbinds(up_time, trap_oid, varbinds);
            &&& wire.len() == varbinds.len() + 2
            &&& wire[0].oid == seq![1u32, 3, 6, 1, 2, 1, 1, 3, 0]
            &&& wire[0].value == VarbindValueView::Value(ValueView::TimeTicks(up_time))
            &&& wire[1].oid == seq![1u32, 3, 6, 1, 6, 3, 1, 1, 4, 1, 0]
            &&& wire[1].value == VarbindValueView::Value(ValueView::ObjectIdentifier(trap_oid))
            &&& forall|i: int| 0 <= i < varbinds.len() ==> #[trigger] wire[2 + i] == varbinds[i]
        }),
{
}

/// The trap as it is sent: with `sysUpTime.0` and `snmpTrapOID.0` in front of its own
/// varbinds.
pub fn wire_trap(up_time: u32, pdu: TrapPdu) -> (wire: WireTrapPdu)
    ensures
        wire.request_id == pdu.request_id,
        types::varbind_views(wire.varbinds@) == wire_trap_varbinds(
            up_time,
            pdu.trap_oid@,
            types::varbind_views(pdu.varbinds@),
        ),
        wire.varbinds@.len() == pdu.varbinds@.len() + 2,
        forall|i: int|
            0 <= i < pdu.varbinds@.len() ==> (#[trigger] wire.varbinds@[2 + i])@ == pdu.varbinds@[i]@,
{
    let up_time_arcs: [u32; 9] = [1, 3, 6, 1, 2, 1, 1, 3, 0];
    let trap_oid_arcs: [u32; 11] = [1, 3, 6, 1, 6, 3, 1, 1, 4, 1, 0];
    proof {
        assert(up_time_arcs@ =~= sys_up_time_arcs());
        assert(trap_oid_arcs@ =~= snmp_trap_oid_arcs());
    }
    let ghost trap_oid = pdu.trap_oid@;
    let ghost own = pdu.varbinds@;
    let mut varbinds: Vec<Varbind> = Vec::new();
    varbinds.push(
        Varbind {
            oid: Oid::from_slice(up_time_arcs.as_slice()),
            value: VarbindValue::Value(Value::TimeTicks(up_time)),
        },
    );
    varbinds.push(
        Varbind {
            oid: Oid::from_slice(trap_oid_arcs.as_slice()),
            value: VarbindValue::Value(Value::ObjectIdentifier(pdu.trap_oid)),
        },
    );
    let mut rest = pdu.varbinds;
    varbinds.append(&mut rest);
    proof {
        assert(types::varbind_views(varbinds@) =~= wire_trap_varbinds(
            up_time,
            trap_oid,
            types::varbind_views(own),
        ));
    }
    WireTrapPdu { request_id: pdu.request_id, varbinds }
}

/// An engine ID is accepted exactly when it has 5 to 32 octets, whatever they are.
pub proof fn law_engine_id_length(engine_id: Seq<u8>)
    ensures
        valid_engine_id(engine_id) <==> 5 <= engine_id.len() <= 32,
{
}

/// A configuration without security has no parts. Any other gives the very user and the very
/// store that it was made with, and tells the two levels apart.
pub proof fn law_security_parts<A, P, S>(auth_user: A, priv_user: P, store: S)
    ensures
        SecurityConfig::<A, P, S>::NoAuthNoPriv.parts() is None,
        (SecurityConfig::<A, P, S>::AuthNoPriv {
            user: auth_user,
            boots_store: store,
        }).parts() == Some((ConfiguredUser::<A, P>::AuthNoPriv(auth_user), store)),
        (SecurityConfig::<A, P, S>::AuthPriv { user: priv_user, boots_store: store }).parts() == Some(
            (ConfiguredUser::<A, P>::AuthPriv(priv_user), store),
        ),
{
}

/// What [`wire_trap`] returns keeps the request identifier and all varbinds of the trap, in
/// their order, behind the up time and the OID of the trap.
pub proof fn law_wire_trap(up_time: u32, pdu: TrapPdu, wire: WireTrapPdu)
    requires
        call_ensures(wire_trap, (up_time, pdu), wire),
    ensures
        wire.request_id == pdu.request_id,
        wire.varbinds@.len() == pdu.varbinds@.len() + 2,
        wire.varbinds@[0].oid@ == seq![1u32, 3, 6, 1, 2, 1, 1, 3, 0],
        wire.varbinds@[0].value@ == VarbindValueView::Value(ValueView::TimeTicks(up_time)),
        wire.varbinds@[1].oid@ == seq![1u32, 3, 6, 1, 6, 3, 1, 1, 4, 1, 0],
        wire.varbinds@[1].value@ == VarbindValueView::Value(
            ValueView::ObjectIdentifier(pdu.trap_oid@),
        ),
        forall|i: int|
            0 <= i < pdu.varbinds@.len() ==> (#[trigger] wire.varbinds@[2 + i]).oid@
                == pdu.varbinds@[i].oid@ && wire.varbinds@[2 + i].value@ == pdu.varbinds@[i].value@,
{
    let own = types::varbind_views(pdu.varbinds@);
    let views = types::varbind_views(wire.varbinds@);
    law_wire_trap_varbinds(up_time, pdu.trap_oid@, own);
    assert(views[0] == wire.varbinds@[0]@);
    assert(views[1] == wire.varbinds@[1]@);
    assert forall|i: int| 0 <= i < pdu.varbinds@.len() implies (#[trigger] wire.varbinds@[2
        + i]).oid@ == pdu.varbinds@[i].oid@ && wire.varbinds@[2 + i].value@
        == pdu.varbinds@[i].value@ by {
        assert(views[2 + i] == own[i]);
    }
}

} // verus!
