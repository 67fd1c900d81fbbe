//! Seeds for the fuzzers' corpora, and the rules by which one corpus feeds another.

use vstd::prelude::*;
use vstd::slice::slice_to_vec;
use crate::fuzz;
use crate::fuzz::{AuthFields, AuthFrame, EngineIdChoice, Frame, FrameKind, UserNameChoice};
use crate::text;
use crate::text::push_decimal;

verus! {

// ----- Raw seeds ---------------------------------------------------------------------

/// A file of a corpus.
#[derive(Debug, PartialEq, Eq)]
pub struct Seed {
    /// The name of the file.
    pub name: String,
    /// What the file holds.
    pub bytes: Vec<u8>,
}

impl View for Seed {
    type V = (Seq<char>, Seq<u8>);

    open spec fn view(&self) -> (Seq<char>, Seq<u8>) {
        (self.name@, self.bytes@)
    }
}

/// The views of seeds.
pub open spec fn seed_views(seeds: Seq<Seed>) -> Seq<(Seq<char>, Seq<u8>)> {
    seeds.map_values(|seed: Seed| seed@)
}

fn seed(name: &str, bytes: &[u8]) -> (out: Seed)
    ensures
        out@ == (name@, bytes@),
{
    Seed { name: name.to_owned(), bytes: slice_to_vec(bytes) }
}

/// The length of a structured seed.
pub const STRUCTURED_SEED_LEN: usize = 128;

/// Bytes that start at `first` and grow by `step`.
pub open spec fn progression(first: nat, step: nat) -> Seq<u8> {
    Seq::new(STRUCTURED_SEED_LEN as nat, |i: int| (first + step * i) as u8)
}

/// The seeds for a fuzzer of structured inputs: zeros, ones and ascending bytes.
pub fn structured_seeds() -> (seeds: Vec<Seed>)
    ensures
        seed_views(seeds@) == seq![
            ("zeros"@, progression(0, 0)),
            ("ones"@, progression(255, 0)),
            ("ascending"@, progression(0, 1)),
        ],
{
    let mut zeros: Vec<u8> = Vec::new();
    let mut ones: Vec<u8> = Vec::new();
    let mut ascending: Vec<u8> = Vec::new();
    let mut i: usize = 0;
    while i < STRUCTURED_SEED_LEN
        invariant
            i <= STRUCTURED_SEED_LEN,
            zeros@ =~= progression(0, 0).take(i as int),
            ones@ =~= progression(255, 0).take(i as int),
            ascending@ =~= progression(0, 1).take(i as int),
        decreases STRUCTURED_SEED_LEN - i,
    {
        zeros.push(0);
        ones.push(0xFF);
        ascending.push(i as u8);
        i += 1;
    }
    let mut seeds: Vec<Seed> = Vec::new();
    seeds.push(seed("zeros", zeros.as_slice()));
    seeds.push(seed("ones", ones.as_slice()));
    seeds.push(seed("ascending", ascending.as_slice()));
    proof {
        assert(zeros@ =~= progression(0, 0));
        assert(ones@ =~= progression(255, 0));
        assert(ascending@ =~= progression(0, 1));
        assert(seed_views(seeds@) =~= seq![
            ("zeros"@, progression(0, 0)),
            ("ones"@, progression(255, 0)),
            ("ascending"@, progression(0, 1)),
        ]);
    }
    seeds
}

/// The length fields that seed the fuzzer of message framing: the short form, the long
/// form in each width, the indefinite form, and nothing at all.
pub open spec fn framing_seeds() -> Seq<(Seq<char>, Seq<u8>)> {
    seq![
        ("short_form_zero"@, seq![0x00u8]),
        ("short_form_max"@, seq![0x7Fu8]),
        ("long_form_1_octet"@, seq![0x81u8, 0x80]),
        ("long_form_2_octets"@, seq![0x82u8, 0x01, 0x00]),
        ("long_form_3_octets"@, seq![0x83u8, 0x01, 0x00, 0x00]),
        ("long_form_4_octets"@, seq![0x84u8, 0x00, 0x01, 0x00, 0x00]),
        ("indefinite_length"@, seq![0x80u8]),
        ("empty"@, Seq::empty()),
    ]
}

/// The seeds for the fuzzer of message framing.
pub fn tcp_framing_seeds() -> (seeds: Vec<Seed>)
    ensures
        seed_views(seeds@) == framing_seeds(),
{
    let short_zero: [u8; 1] = [0x00];
    let short_max: [u8; 1] = [0x7F];
    let long_1: [u8; 2] = [0x81, 0x80];
    let long_2: [u8; 3] = [0x82, 0x01, 0x00];
    let long_3: [u8; 4] = [0x83, 0x01, 0x00, 0x00];
    let long_4: [u8; 5] = [0x84, 0x00, 0x01, 0x00, 0x00];
    let indefinite: [u8; 1] = [0x80];
    let empty: [u8; 0] = [];
    proof {
        assert(short_zero@ =~= seq![0x00u8]);
        assert(short_max@ =~= seq![0x7Fu8]);
        assert(long_1@ =~= seq![0x81u8, 0x80]);
        assert(long_2@ =~= seq![0x82u8, 0x01, 0x00]);
        assert(long_3@ =~= seq![0x83u8, 0x01, 0x00, 0x00]);
        assert(long_4@ =~= seq![0x84u8, 0x00, 0x01, 0x00, 0x00]);
        assert(indefinite@ =~= seq![0x80u8]);
        assert(empty@ =~= Seq::empty());
    }
    let mut seeds: Vec<Seed> = Vec::new();
    seeds.push(seed("short_form_zero", short_zero.as_slice()));
    seeds.push(seed("short_form_max", short_max.as_slice()));
    seeds.push(seed("long_form_1_octet", long_1.as_slice()));
    seeds.push(seed("long_form_2_octets", long_2.as_slice()));
    seeds.push(seed("long_form_3_octets", long_3.as_slice()));
    seeds.push(seed("long_form_4_octets", long_4.as_slice()));
    seeds.push(seed("indefinite_length", indefinite.as_slice()));
    seeds.push(seed("empty", empty.as_slice()));
    proof {
        assert(seed_views(seeds@) =~= framing_seeds());
    }
    seeds
}

// ----- Request seeds -----------------------------------------------------------------

/// The arcs of `sysDescr.0`, which every request seed asks for.
pub open spec fn sysdescr_arcs() -> Seq<u32> {
    seq![1u32, 3, 6, 1, 2, 1, 1, 1, 0]
}

fn sysdescr() -> (arcs: Vec<u32>)
    ensures
        arcs@ == sysdescr_arcs(),
{
    let arcs: [u32; 9] = [1, 3, 6, 1, 2, 1, 1, 1, 0];
    proof {
        assert(arcs@ =~= sysdescr_arcs());
    }
    slice_to_vec(arcs.as_slice())
}

/// A seed for the fuzzer of unauthenticated requests.
#[derive(Debug, PartialEq, Eq)]
pub struct RequestSeed {
    /// The name of the file.
    pub name: String,
    /// What the frame in the file is built from.
    pub frame: Frame,
}

/// Whether `seed` is the request of this kind, under this name and identifier.
pub open spec fn is_request_seed(
    seed: RequestSeed,
    name: Seq<char>,
    kind: FrameKind,
    id: i32,
) -> bool {
    &&& seed.name@ == name
    &&& seed.frame.kind == kind
    &&& seed.frame.engine_id@ == fuzz::fuzz_engine_id()
    &&& seed.frame.context_name@.len() == 0
    &&& seed.frame.msg_id == id
    &&& seed.frame.request_id == id
    &&& seed.frame.oid_arcs@ == sysdescr_arcs()
}

fn request_seed(name: &str, kind: FrameKind, id: i32) -> (seed: RequestSeed)
    ensures
        is_request_seed(seed, name@, kind, id),
{
    RequestSeed {
        name: name.to_owned(),
        frame: Frame {
            kind,
            engine_id: slice_to_vec(EngineIdChoice::Matching.as_bytes()),
            context_name: Vec::new(),
            msg_id: id,
            request_id: id,
            oid_arcs: sysdescr(),
        },
    }
}

/// The seeds for the fuzzer of unauthenticated requests: one of each type.
pub fn request_seeds() -> (seeds: Vec<RequestSeed>)
    ensures
        seeds@.len() == 4,
        is_request_seed(seeds@[0], "get_request"@, FrameKind::GetRequest, 1),
        is_request_seed(seeds@[1], "get_next_request"@, FrameKind::GetNextRequest, 2),
        is_request_seed(
            seeds@[2],
            "get_bulk_request"@,
            FrameKind::GetBulkRequest { non_repeaters: 0, max_repetitions: 10 },
            3,
        ),
        is_request_seed(seeds@[3], "set_request"@, FrameKind::SetRequest, 4),
{
    let mut seeds: Vec<RequestSeed> = Vec::new();
    seeds.push(request_seed("get_request", FrameKind::GetRequest, 1));
    seeds.push(request_seed("get_next_request", FrameKind::GetNextRequest, 2));
    seeds.push(
        request_seed(
            "get_bulk_request",
            FrameKind::GetBulkRequest { non_repeaters: 0, max_repetitions: 10 },
            3,
        ),
    );
    seeds.push(request_seed("set_request", FrameKind::SetRequest, 4));
    seeds
}

/// A seed for the fuzzer of authenticated requests.
#[derive(Debug, PartialEq, Eq)]
pub struct AuthSeed {
    /// The name of the file.
    pub name: String,
    /// What the frame in the file is built from.
    pub frame: AuthFrame,
    /// Whether the frame is to be signed. The agent must answer a signed frame.
    pub signed: bool,
}

/// Whether `seed` is the GET with these fields. Its authentication parameters, if it has
/// any, are the placeholder of 24 zeros.
pub open spec fn is_auth_seed(
    seed: AuthSeed,
    name: Seq<char>,
    user_name: Seq<u8>,
    id: i32,
    msg_flags: u8,
    has_auth: bool,
    signed: bool,
) -> bool {
    &&& seed.name@ == name
    &&& seed.frame.engine_id@ == fuzz::fuzz_engine_id()
    &&& seed.frame.user_name@ == user_name
    &&& seed.frame.context_name@.len() == 0
    &&& seed.frame.msg_id == id
    &&& seed.frame.request_id == id
    &&& seed.frame.oid_arcs@ == sysdescr_arcs()
    &&& seed.frame.msg_flags == msg_flags
    &&& match seed.frame.auth {
        Some(fields) => has_auth && fields.auth_params@ == Seq::new(24, |i: int| 0u8)
            && fields.engine_boots == 1 && fields.engine_time == 0,
        None => !has_auth,
    }
    &&& seed.signed == signed
}

fn auth_seed(name: &str, user_name: &[u8], id: i32, msg_flags: u8, has_auth: bool, signed: bool) -> (
    seed: AuthSeed)
    ensures
        is_auth_seed(seed, name@, user_name@, id, msg_flags, has_auth, signed),
{
    let auth = if has_auth {
        let placeholder: [u8; 24] = [0; 24];
        proof {
            assert(placeholder@ =~= Seq::new(24, |i: int| 0u8));
        }
        Some(
            AuthFields {
                auth_params: slice_to_vec(placeholder.as_slice()),
                engine_boots: 1,
                engine_time: 0,
            },
        )
    } else {
        None
    };
    AuthSeed {
        name: name.to_owned(),
        frame: AuthFrame {
            engine_id: slice_to_vec(EngineIdChoice::Matching.as_bytes()),
            user_name: slice_to_vec(user_name),
            context_name: Vec::new(),
            msg_id: id,
            request_id: id,
            oid_arcs: sysdescr(),
            msg_flags,
            auth,
        },
        signed,
    }
}

/// The bytes of `wrong-user`.
pub open spec fn wrong_user_name() -> Seq<u8> {
    seq![0x77u8, 0x72, 0x6f, 0x6e, 0x67, 0x2d, 0x75, 0x73, 0x65, 0x72]
}

/// The seeds for the fuzzer of authenticated requests: one that is signed, one with a
/// placeholder for its signature, one of another user, and one that claims no
/// authentication.
pub fn auth_seeds() -> (seeds: Vec<AuthSeed>)
    ensures
        seeds@.len() == 4,
        is_auth_seed(
            seeds@[0],
            "auth_get_request_valid_hmac"@,
            fuzz::fuzz_user_name(),
            10,
            5,
            true,
            true,
        ),
        is_auth_seed(
            seeds@[1],
            "auth_get_request"@,
            fuzz::fuzz_user_name(),
            10,
            5,
            true,
            false,
        ),
        is_auth_seed(
            seeds@[2],
            "auth_get_request_wrong_user"@,
            wrong_user_name(),
            11,
            5,
            true,
            false,
        ),
        is_auth_seed(
            seeds@[3],
            "noauth_get_request"@,
            fuzz::fuzz_user_name(),
            12,
            4,
            false,
            false,
        ),
{
    let user = UserNameChoice::Valid;
    let wrong: [u8; 10] = [0x77, 0x72, 0x6f, 0x6e, 0x67, 0x2d, 0x75, 0x73, 0x65, 0x72];
    proof {
        assert(wrong@ =~= wrong_user_name());
    }
    let mut seeds: Vec<AuthSeed> = Vec::new();
    seeds.push(auth_seed("auth_get_request_valid_hmac", user.as_bytes(), 10, 5, true, true));
    seeds.push(auth_seed("auth_get_request", user.as_bytes(), 10, 5, true, false));
    seeds.push(auth_seed("auth_get_request_wrong_user", wrong.as_slice(), 11, 5, true, false));
    seeds.push(auth_seed("noauth_get_request", user.as_bytes(), 12, 4, false, false));
    seeds
}

// ----- Cross-pollination -------------------------------------------------------------

/// The start of the name of every seed that comes from a structured corpus.
pub open spec fn cross_pollinated_prefix() -> Seq<char> {
    "structured_"@
}

/// The name under which a structured seed is written to the other corpus.
pub fn cross_pollinated_name(file_name: &str) -> (name: String)
    ensures
        name@ == cross_pollinated_prefix() + file_name@,
{
    let mut name = "structured_".to_owned();
    name.append(file_name);
    name
}

/// Whether a file of a corpus came from a structured one, by its name.
pub fn is_cross_pollinated(name: &str) -> (stale: bool)
    ensures
        stale == cross_pollinated_prefix().is_prefix_of(name@),
{
    let prefix: &str = "structured_";
    let length: usize = prefix.unicode_len();
    if name.unicode_len() < length {
        return false;
    }
    let mut i: usize = 0;
    while i < length
        invariant
            i <= length <= name@.len(),
            length == prefix@.len(),
            prefix@ == cross_pollinated_prefix(),
            forall|j: int| 0 <= j < i ==> prefix@[j] == name@[j],
        decreases length - i,
    {
        if prefix.get_char(i) != name.get_char(i) {
            proof {
                assert(name@.subrange(0, length as int)[i as int] != prefix@[i as int]);
            }
            return false;
        }
        i += 1;
    }
    proof {
        assert(name@.subrange(0, length as int) =~= prefix@);
    }
    true
}

/// A seed that was written by cross-pollination is recognised as such, so that the next
/// run can remove it, and two seeds never get the same name.
pub proof fn law_cross_pollinated_names(a: Seq<char>, b: Seq<char>)
    ensures
        cross_pollinated_prefix().is_prefix_of(cross_pollinated_prefix() + a),
        cross_pollinated_prefix() + a == cross_pollinated_prefix() + b ==> a == b,
{
    let prefix = cross_pollinated_prefix();
    assert((prefix + a).subrange(0, prefix.len() as int) =~= prefix);
    assert((prefix + a).skip(prefix.len() as int) =~= a);
    assert((prefix + b).skip(prefix.len() as int) =~= b);
}

/// What became of an entry of a structured corpus.
#[derive(Copy, Clone, Debug, PartialEq, Eq, Structural)]
pub enum EntryOutcome {
    /// The entry could not be looked at, or is no regular file.
    Ignored,
    /// The entry could not be read, decoded or encoded.
    Skipped,
    /// The entry was written to the other corpus.
    Converted,
}

/// How many entries were converted.
pub open spec fn converted_count(outcomes: Seq<EntryOutcome>) -> nat {
    outcomes.filter(|outcome: EntryOutcome| outcome == EntryOutcome::Converted).len()
}

/// How many entries were regular files.
pub open spec fn total_count(outcomes: Seq<EntryOutcome>) -> nat {
    outcomes.filter(|outcome: EntryOutcome| outcome != EntryOutcome::Ignored).len()
}

/// The line that reports a cross-pollination.
pub fn cross_pollination_report(label: &str, outcomes: &[EntryOutcome]) -> (line: String)
    ensures
        line@ == "cross-pollination ("@ + label@ + "): converted "@ + text::decimal(
            converted_count(outcomes@),
        ) + " of "@ + text::decimal(total_count(outcomes@)) + " structured entries"@,
{
    let mut converted: u64 = 0;
    let mut total: u64 = 0;
    let mut i: usize = 0;
    while i < outcomes.len()
        invariant
            i <= outcomes@.len(),
            converted <= i,
            total <= i,
            converted == converted_count(outcomes@.take(i as int)),
            total == total_count(outcomes@.take(i as int)),
        decreases outcomes@.len() - i,
    {
        let outcome: EntryOutcome = outcomes[i];
        proof {
            assert(outcomes@.take(i + 1).drop_last() =~= outcomes@.take(i as int));
            reveal(Seq::filter);
        }
        if outcome != EntryOutcome::Ignored {
            total += 1;
        }
        if outcome == EntryOutcome::Converted {
            converted += 1;
        }
        i += 1;
    }
    proof {
        assert(outcomes@.take(outcomes@.len() as int) =~= outcomes@);
    }
    let mut line = "cross-pollination (".to_owned();
    line.append(label);
    line.append("): converted ");
    push_decimal(&mut line, converted);
    line.append(" of ");
    push_decimal(&mut line, total);
    line.append(" structured entries");
    line
}

/// Each further entry is counted as a regular file unless it is ignored, and as converted
/// only if it was.
pub proof fn law_entry_counts(outcomes: Seq<EntryOutcome>, next: EntryOutcome)
    ensures
        converted_count(Seq::empty()) == 0,
        total_count(Seq::empty()) == 0,
        converted_count(outcomes.push(next)) == converted_count(outcomes) + (if next is Converted {
            1int
        } else {
            0
        }),
        total_count(outcomes.push(next)) == total_count(outcomes) + (if next is Ignored {
            0int
        } else {
            1
        }),
        converted_count(outcomes) <= total_count(outcomes) <= outcomes.len(),
    decreases outcomes.len(),
{
    reveal(Seq::filter);
    assert(outcomes.push(next).drop_last() =~= outcomes);
    if outcomes.len() > 0 {
        law_entry_counts(outcomes.drop_last(), outcomes.last());
        assert(outcomes.drop_last().push(outcomes.last()) =~= outcomes);
    }
}

/// A progression has 128 bytes, starts at its first byte and grows by its step.
pub proof fn law_progression(first: nat, step: nat, i: int)
    requires
        0 <= i < 128,
        first + step * i < 256,
    ensures
        progression(first, step).len() == 128,
        progression(first, step)[i] == first + step * i,
{
}

} // verus!
