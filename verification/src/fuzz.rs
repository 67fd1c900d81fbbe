//! Inputs for fuzzing the request path.
//!
//! An input fixes the choices that a fuzzer makes: which request is sent, to which engine
//! and under which identifiers.

use vstd::prelude::*;
use vstd::slice::slice_to_vec;
use crate::codec::oid;
use crate::codec::oid::Oid;
use crate::codec::value::{Value, ValueView};
use crate::mib::Store;

verus! {

// ----- Choices -----------------------------------------------------------------------

/// The engine ID under test: enterprise format, with the text `test`.
pub open spec fn fuzz_engine_id() -> Seq<u8> {
    seq![0x80u8, 0x00, 0x1f, 0x88, 0x80, 0x74, 0x65, 0x73, 0x74]
}

/// The name of the user under test, `fuzz-user`.
pub open spec fn fuzz_user_name() -> Seq<u8> {
    seq![0x66u8, 0x75, 0x7a, 0x7a, 0x2d, 0x75, 0x73, 0x65, 0x72]
}

/// The type of a request.
#[derive(Debug)]
pub enum PduType {
    /// GET.
    GetRequest,
    /// GETNEXT.
    GetNextRequest,
    /// GETBULK.
    GetBulkRequest,
    /// SET.
    SetRequest,
}

/// The engine ID that a request is sent to.
#[derive(Debug)]
pub enum EngineIdChoice {
    /// The engine ID under test.
    Matching,
    /// None, as in engine discovery.
    Empty,
    /// Some engine ID.
    Custom([u8; 8]),
}

impl EngineIdChoice {
    /// The engine ID.
    pub open spec fn bytes(self) -> Seq<u8> {
        match self {
            EngineIdChoice::Matching => fuzz_engine_id(),
            EngineIdChoice::Empty => Seq::empty(),
            EngineIdChoice::Custom(custom_engine_id) => custom_engine_id@,
        }
    }

    /// The engine ID.
    pub fn as_bytes(&self) -> (bytes: &[u8])
        ensures
            bytes@ == self.bytes(),
    {
        match self {
            Self::Matching => {
                let bytes: &[u8] = &[0x80, 0x00, 0x1f, 0x88, 0x80, 0x74, 0x65, 0x73, 0x74];
                proof {
                    assert(bytes@ =~= fuzz_engine_id());
                }
                bytes
            },
            Self::Empty => {
                let bytes: &[u8] = &[];
                proof {
                    assert(bytes@ =~= Seq::empty());
                }
                bytes
            },
            Self::Custom(custom_engine_id) => custom_engine_id,
        }
    }
}

/// The user name that a request carries.
#[derive(Debug)]
pub enum UserNameChoice {
    /// The user under test.
    Valid,
    /// Some user name.
    Custom([u8; 9]),
}

impl UserNameChoice {
    /// The user name.
    pub open spec fn bytes(self) -> Seq<u8> {
        match self {
            UserNameChoice::Valid => fuzz_user_name(),
            UserNameChoice::Custom(custom_user_name) => custom_user_name@,
        }
    }

    /// The user name.
    pub fn as_bytes(&self) -> (bytes: &[u8])
        ensures
            bytes@ == self.bytes(),
    {
        match self {
            Self::Valid => {
                let bytes: &[u8] = &[0x66, 0x75, 0x7a, 0x7a, 0x2d, 0x75, 0x73, 0x65, 0x72];
                proof {
                    assert(bytes@ =~= fuzz_user_name());
                }
                bytes
            },
            Self::Custom(custom_user_name) => custom_user_name,
        }
    }
}

/// The number of arcs that are taken: between two and twelve.
pub open spec fn arc_count(oid_arc_count: u8) -> nat {
    if oid_arc_count < 2 {
        2
    } else if oid_arc_count > 12 {
        12
    } else {
        oid_arc_count as nat
    }
}

/// The arcs that are taken, with the first two reduced to the range of an OID.
pub open spec fn constrained_arcs(oid_arc_count: u8, oid_arcs: Seq<u32>) -> Seq<u32> {
    Seq::new(
        arc_count(oid_arc_count),
        |i: int|
            if i == 0 {
                oid_arcs[i] % 3
            } else if i == 1 {
                oid_arcs[i] % 40
            } else {
                oid_arcs[i]
            },
    )
}

/// The arcs of the OID that a request asks for.
pub fn constrained_oid_arcs(oid_arc_count: u8, oid_arcs: &[u32; 12]) -> (arcs: Vec<u32>)
    ensures
        arcs@ == constrained_arcs(oid_arc_count, oid_arcs@),
{
    let count: usize = if oid_arc_count < 2 {
        2
    } else if oid_arc_count > 12 {
        12
    } else {
        oid_arc_count as usize
    };
    let mut arcs: Vec<u32> = Vec::new();
    let mut i: usize = 0;
    while i < count
        invariant
            i <= count,
            2 <= count <= 12,
            count == arc_count(oid_arc_count),
            arcs@.len() == i,
            forall|j: int|
                0 <= j < i ==> #[trigger] arcs@[j] == constrained_arcs(
                    oid_arc_count,
                    oid_arcs@,
                )[j],
        decreases count - i,
    {
        let arc: u32 = oid_arcs[i];
        arcs.push(
            if i == 0 {
                arc % 3
            } else if i == 1 {
                arc % 40
            } else {
                arc
            },
        );
        i += 1;
    }
    proof {
        assert(arcs@ =~= constrained_arcs(oid_arc_count, oid_arcs@));
    }
    arcs
}

/// Whatever a fuzzer chooses, the arcs form an OID, and the first two arcs fit in one
/// sub-identifier of at most 119.
pub proof fn law_constrained_arcs_valid(oid_arc_count: u8, oid_arcs: Seq<u32>)
    ensures
        oid::valid_arcs(constrained_arcs(oid_arc_count, oid_arcs)),
        constrained_arcs(oid_arc_count, oid_arcs)[0] * 40 + constrained_arcs(
            oid_arc_count,
            oid_arcs,
        )[1] <= 119,
{
    let arcs = constrained_arcs(oid_arc_count, oid_arcs);
    assert(arcs[0] == oid_arcs[0] % 3);
    assert(arcs[1] == oid_arcs[1] % 40);
}

// ----- Inputs ------------------------------------------------------------------------

/// The kind of request in a frame.
#[derive(Debug, PartialEq, Eq)]
pub enum FrameKind {
    /// GET.
    GetRequest,
    /// GETNEXT.
    GetNextRequest,
    /// GETBULK, with its two counts.
    GetBulkRequest { non_repeaters: u32, max_repetitions: u32 },
    /// SET.
    SetRequest,
}

/// What an unauthenticated request frame is built from.
#[derive(Debug, PartialEq, Eq)]
pub struct Frame {
    /// The kind of request.
    pub kind: FrameKind,
    /// The engine ID that the request is sent to.
    pub engine_id: Vec<u8>,
    /// The context name.
    pub context_name: Vec<u8>,
    /// The message identifier.
    pub msg_id: i32,
    /// The request identifier.
    pub request_id: i32,
    /// The arcs of the OID that the request asks for.
    pub oid_arcs: Vec<u32>,
}

/// What an authenticated GET frame is built from.
#[derive(Debug, PartialEq, Eq)]
pub struct AuthFrame {
    /// The engine ID that the request is sent to.
    pub engine_id: Vec<u8>,
    /// The user name.
    pub user_name: Vec<u8>,
    /// The context name.
    pub context_name: Vec<u8>,
    /// The message identifier.
    pub msg_id: i32,
    /// The request identifier.
    pub request_id: i32,
    /// The arcs of the OID that the request asks for.
    pub oid_arcs: Vec<u32>,
    /// The `msgFlags` byte.
    pub msg_flags: u8,
    /// The authentication parameters and the engine boots and time, unless the frame
    /// carries none.
    pub auth: Option<AuthFields>,
}

/// The authentication fields of a frame.
#[derive(Debug, PartialEq, Eq)]
pub struct AuthFields {
    /// `msgAuthenticationParameters`.
    pub auth_params: Vec<u8>,
    /// `msgAuthoritativeEngineBoots`.
    pub engine_boots: u32,
    /// `msgAuthoritativeEngineTime`.
    pub engine_time: u32,
}

/// A structured input for the unauthenticated request path.
#[derive(Debug)]
pub struct FuzzSnmpv3 {
    /// The type of the request.
    pub pdu_type: PduType,
    /// The message identifier.
    pub msg_id: i32,
    /// The request identifier.
    pub request_id: i32,
    /// The engine ID that the request is sent to.
    pub engine_id: EngineIdChoice,
    /// How many of the arcs are taken.
    pub oid_arc_count: u8,
    /// The arcs to take from.
    pub oid_arcs: [u32; 12],
    /// The first count of a GETBULK.
    pub non_repeaters: u16,
    /// The second count of a GETBULK.
    pub max_repetitions: u16,
}

impl FuzzSnmpv3 {
    /// The frame that this input stands for.
    pub fn frame(&self) -> (frame: Frame)
        ensures
            frame.kind == (match self.pdu_type {
                PduType::GetRequest => FrameKind::GetRequest,
                PduType::GetNextRequest => FrameKind::GetNextRequest,
                PduType::GetBulkRequest => FrameKind::GetBulkRequest {
                    non_repeaters: self.non_repeaters as u32,
                    max_repetitions: self.max_repetitions as u32,
                },
                PduType::SetRequest => FrameKind::SetRequest,
            }),
            frame.engine_id@ == self.engine_id.bytes(),
            frame.context_name@.len() == 0,
            frame.msg_id == self.msg_id,
            frame.request_id == self.request_id,
            frame.oid_arcs@ == constrained_arcs(self.oid_arc_count, self.oid_arcs@),
    {
        let kind = match self.pdu_type {
            PduType::GetRequest => FrameKind::GetRequest,
            PduType::GetNextRequest => FrameKind::GetNextRequest,
            PduType::GetBulkRequest => FrameKind::GetBulkRequest {
                non_repeaters: self.non_repeaters as u32,
                max_repetitions: self.max_repetitions as u32,
            },
            PduType::SetRequest => FrameKind::SetRequest,
        };
        Frame {
            kind,
            engine_id: slice_to_vec(self.engine_id.as_bytes()),
            context_name: Vec::new(),
            msg_id: self.msg_id,
            request_id: self.request_id,
            oid_arcs: constrained_oid_arcs(self.oid_arc_count, &self.oid_arcs),
        }
    }
}

/// A structured input for the authenticated request path. It always stands for a GET.
#[derive(Debug)]
pub struct FuzzSnmpv3Auth {
    /// The message identifier.
    pub msg_id: i32,
    /// The request identifier.
    pub request_id: i32,
    /// The engine ID that the request is sent to.
    pub engine_id: EngineIdChoice,
    /// The user name.
    pub user_name: UserNameChoice,
    /// The `msgFlags` byte.
    pub msg_flags: u8,
    /// The authentication parameters.
    pub auth_params: [u8; 24],
    /// The engine boots.
    pub engine_boots: u32,
    /// The engine time.
    pub engine_time: u32,
    /// How many of the arcs are taken.
    pub oid_arc_count: u8,
    /// The arcs to take from.
    pub oid_arcs: [u32; 12],
}

impl FuzzSnmpv3Auth {
    /// The frame that this input stands for.
    pub fn frame(&self) -> (frame: AuthFrame)
        ensures
            frame.engine_id@ == self.engine_id.bytes(),
            frame.user_name@ == self.user_name.bytes(),
            frame.context_name@.len() == 0,
            frame.msg_id == self.msg_id,
            frame.request_id == self.request_id,
            frame.oid_arcs@ == constrained_arcs(self.oid_arc_count, self.oid_arcs@),
            frame.msg_flags == self.msg_flags,
            frame.auth matches Some(fields) && fields.auth_params@ == self.auth_params@
                && fields.engine_boots == self.engine_boots && fields.engine_time
                == self.engine_time,
    {
        AuthFrame {
            engine_id: slice_to_vec(self.engine_id.as_bytes()),
            user_name: slice_to_vec(self.user_name.as_bytes()),
            context_name: Vec::new(),
            msg_id: self.msg_id,
            request_id: self.request_id,
            oid_arcs: constrained_oid_arcs(self.oid_arc_count, &self.oid_arcs),
            msg_flags: self.msg_flags,
            auth: Some(
                AuthFields {
                    auth_params: slice_to_vec(self.auth_params.as_slice()),
                    engine_boots: self.engine_boots,
                    engine_time: self.engine_time,
                },
            ),
        }
    }
}

// ----- The agent under test -------------------------------------------------------------

/// The counters of refused requests.
#[derive(Debug, PartialEq, Eq)]
pub struct DispatchCounters {
    /// Requests for another engine ID.
    pub unknown_engine_ids: u32,
    /// Requests of unknown users.
    pub unknown_user_names: u32,
    /// Requests at a security level that is not supported.
    pub unsupported_sec_levels: u32,
    /// Requests with a wrong authentication code.
    pub wrong_digests: u32,
    /// Requests outside the time window.
    pub not_in_time_windows: u32,
    /// Requests that could not be decrypted.
    pub decryption_errors: u32,
    /// Requests under an unknown security model.
    pub unknown_security_models: u32,
}

impl DispatchCounters {
    /// Creates counters that are all zero.
    pub fn new() -> (counters: Self)
        ensures
            counters.unknown_engine_ids == 0,
            counters.unknown_user_names == 0,
            counters.unsupported_sec_levels == 0,
            counters.wrong_digests == 0,
            counters.not_in_time_windows == 0,
            counters.decryption_errors == 0,
            counters.unknown_security_models == 0,
    {
        DispatchCounters {
            unknown_engine_ids: 0,
            unknown_user_names: 0,
            unsupported_sec_levels: 0,
            wrong_digests: 0,
            not_in_time_windows: 0,
            decryption_errors: 0,
            unknown_security_models: 0,
        }
    }
}

/// An OID under `mib-2`, `1.3.6.1.2.1`, with the arcs `group.object.0`.
pub open spec fn mib_2_oid(group: u32, object: u32) -> Seq<u32> {
    seq![1u32, 3, 6, 1, 2, 1, group, object, 0]
}

/// The entries of the store under test: one for each type of value, and three of the
/// system group.
pub open spec fn mib_entries() -> Map<Seq<u32>, ValueView> {
    Map::<Seq<u32>, ValueView>::empty().insert(
        mib_2_oid(1, 1),
        ValueView::OctetString(
            seq![
                0x62u8,
                0x61,
                0x73,
                0x69,
                0x63,
                0x2d,
                0x73,
                0x6e,
                0x6d,
                0x70,
                0x2d,
                0x61,
                0x67,
                0x65,
                0x6e,
                0x74,
            ],
        ),
    ).insert(mib_2_oid(1, 3), ValueView::TimeTicks(0)).insert(
        mib_2_oid(1, 5),
        ValueView::OctetString(seq![0x61u8, 0x67, 0x65, 0x6e, 0x74]),
    ).insert(mib_2_oid(2, 1), ValueView::Integer32(1)).insert(
        mib_2_oid(2, 2),
        ValueView::Counter32(0),
    ).insert(mib_2_oid(2, 3), ValueView::Counter64(0)).insert(
        mib_2_oid(2, 4),
        ValueView::Gauge32(0),
    ).insert(mib_2_oid(2, 5), ValueView::IpAddress(seq![127u8, 0, 0, 1])).insert(
        mib_2_oid(2, 6),
        ValueView::ObjectIdentifier(seq![1u32, 3, 6, 1, 4, 1, 99999]),
    ).insert(mib_2_oid(2, 7), ValueView::Opaque(seq![0xDEu8, 0xAD, 0xBE, 0xEF]))
}

fn mib_2(group: u32, object: u32) -> (oid: Oid)
    ensures
        oid@ == mib_2_oid(group, object),
{
    let arcs: [u32; 9] = [1, 3, 6, 1, 2, 1, group, object, 0];
    proof {
        assert(arcs@ =~= mib_2_oid(group, object));
    }
    Oid::from_slice(arcs.as_slice())
}

/// The store under test.
pub fn mib() -> (store: Store)
    ensures
        store@ == mib_entries(),
{
    let mut store = Store::new();
    let description: [u8; 16] = [
        0x62,
        0x61,
        0x73,
        0x69,
        0x63,
        0x2d,
        0x73,
        0x6e,
        0x6d,
        0x70,
        0x2d,
        0x61,
        0x67,
        0x65,
        0x6e,
        0x74,
    ];
    let name: [u8; 5] = [0x61, 0x67, 0x65, 0x6e, 0x74];
    let enterprise: [u32; 7] = [1, 3, 6, 1, 4, 1, 99999];
    let opaque: [u8; 4] = [0xDE, 0xAD, 0xBE, 0xEF];
    let address: [u8; 4] = [127, 0, 0, 1];
    proof {
        assert(description@ =~= seq![
            0x62u8,
            0x61,
            0x73,
            0x69,
            0x63,
            0x2d,
            0x73,
            0x6e,
            0x6d,
            0x70,
            0x2d,
            0x61,
            0x67,
            0x65,
            0x6e,
            0x74,
        ]);
        assert(name@ =~= seq![0x61u8, 0x67, 0x65, 0x6e, 0x74]);
        assert(enterprise@ =~= seq![1u32, 3, 6, 1, 4, 1, 99999]);
        assert(opaque@ =~= seq![0xDEu8, 0xAD, 0xBE, 0xEF]);
        assert(address@ =~= seq![127u8, 0, 0, 1]);
    }
    store.set(mib_2(1, 1), Value::OctetString(slice_to_vec(description.as_slice())));
    store.set(mib_2(1, 3), Value::TimeTicks(0));
    store.set(mib_2(1, 5), Value::OctetString(slice_to_vec(name.as_slice())));
    store.set(mib_2(2, 1), Value::Integer32(1));
    store.set(mib_2(2, 2), Value::Counter32(0));
    store.set(mib_2(2, 3), Value::Counter64(0));
    store.set(mib_2(2, 4), Value::Gauge32(0));
    store.set(mib_2(2, 5), Value::IpAddress(address));
    store.set(mib_2(2, 6), Value::ObjectIdentifier(Oid::from_slice(enterprise.as_slice())));
    store.set(mib_2(2, 7), Value::Opaque(slice_to_vec(opaque.as_slice())));
    store
}

/// Of the arcs that a fuzzer chooses, as many are taken as it asks for, but at least two and
/// at most twelve. The first is reduced below 3 and the second below 40; all others are taken
/// as they are.
pub proof fn law_constrained_arcs(oid_arc_count: u8, oid_arcs: Seq<u32>, i: int)
    ensures
        ({
            let arcs = constrained_arcs(oid_arc_count, oid_arcs);
            &&& oid_arc_count <= 2 ==> arcs.len() == 2
            &&& oid_arc_count >= 12 ==> arcs.len() == 12
            &&& 2 <= oid_arc_count <= 12 ==> arcs.len() == oid_arc_count
            &&& oid_arcs[0] < 3 ==> arcs[0] == oid_arcs[0]
            &&& arcs[0] < 3 && (oid_arcs[0] - arcs[0]) % 3 == 0
            &&& oid_arcs[1] < 40 ==> arcs[1] == oid_arcs[1]
            &&& arcs[1] < 40 && (oid_arcs[1] - arcs[1]) % 40 == 0
            &&& 2 <= i < arcs.len() ==> arcs[i] == oid_arcs[i]
        }),
{
}

/// A request that is sent to a chosen engine ID or by a chosen user carries exactly the
/// chosen bytes, and one without an engine ID carries none.
pub proof fn law_choices(engine_id: [u8; 8], user_name: [u8; 9])
    ensures
        EngineIdChoice::Custom(engine_id).bytes() == engine_id@,
        EngineIdChoice::Empty.bytes().len() == 0,
        UserNameChoice::Custom(user_name).bytes() == user_name@,
{
}

} // verus!
