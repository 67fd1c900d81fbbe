//! The contents of BER OBJECT IDENTIFIERs.

use vstd::prelude::*;
use vstd::slice::slice_subrange;
use crate::codec::ber::error;
use crate::codec::ber::error::{BerError, BerFault};
use crate::codec::oid;
use crate::codec::oid::Oid;

verus! {

/// The largest number of arcs that an OID on the wire may have.
pub const MAX_ARCS: usize = 128;

// ----- Base 128 --------------------------------------------------------------

/// The base-128 digits of `n`, most significant first and without leading zeros, each
/// with the continuation bit.
pub open spec fn continued_groups(n: nat) -> Seq<u8>
    decreases n,
{
    if n == 0 {
        Seq::empty()
    } else {
        continued_groups(n / 128).push((128 + n % 128) as u8)
    }
}

/// `n` in base 128: the continuation bit is set on every byte but the last.
pub open spec fn base128_bytes(n: nat) -> Seq<u8> {
    continued_groups(n / 128).push((n % 128) as u8)
}

/// The number that the low seven bits of each byte denote together.
pub open spec fn base128_value(bytes: Seq<u8>) -> nat
    decreases bytes.len(),
{
    if bytes.len() == 0 {
        0
    } else {
        base128_value(bytes.drop_last()) * 128 + bytes.last() as nat % 128
    }
}

/// The number of bytes with the continuation bit that `bytes` start with.
pub open spec fn continued_run(bytes: Seq<u8>) -> nat
    decreases bytes.len(),
{
    if bytes.len() == 0 || bytes[0] < 128 {
        0
    } else {
        1 + continued_run(bytes.skip(1))
    }
}

/// The bytes of the sub-identifier that `bytes` start with, as far as they are there.
pub open spec fn sub_identifier(bytes: Seq<u8>) -> Seq<u8> {
    let run = continued_run(bytes);
    if run < bytes.len() {
        bytes.take(run as int + 1)
    } else {
        bytes
    }
}

/// What the sub-identifier that `bytes` start with is read as, with its length.
pub open spec fn base128_outcome(bytes: Seq<u8>, offset: usize) -> Result<(u64, nat), BerFault> {
    let group = sub_identifier(bytes);
    if bytes.len() == 0 {
        Err(BerFault::TruncatedSubIdentifier { offset })
    } else if bytes[0] == 128 {
        Err(BerFault::NonMinimalSubIdentifier { offset })
    } else if base128_value(group) > u64::MAX {
        Err(BerFault::SubIdentifierOverflow { offset })
    } else if continued_run(bytes) >= bytes.len() {
        Err(BerFault::TruncatedSubIdentifier { offset })
    } else {
        Ok((base128_value(group) as u64, group.len()))
    }
}

// ----- Object identifiers ------------------------------------------------------

/// The base-128 forms of `arcs`, one after the other.
pub open spec fn arcs_bytes(arcs: Seq<u32>) -> Seq<u8>
    decreases arcs.len(),
{
    if arcs.len() == 0 {
        Seq::empty()
    } else {
        arcs_bytes(arcs.drop_last()) + base128_bytes(arcs.last() as nat)
    }
}

/// The contents of an OBJECT IDENTIFIER: the first two arcs share a sub-identifier.
pub open spec fn oid_bytes(arcs: Seq<u32>) -> Seq<u8> {
    base128_bytes((arcs[0] * 40 + arcs[1]) as nat) + arcs_bytes(arcs.skip(2))
}

/// `done` followed by the sub-identifiers that `bytes` hold, or the first fault in them.
pub open spec fn sub_identifiers(done: Seq<u64>, bytes: Seq<u8>, offset: usize) -> Result<
    Seq<u64>,
    BerFault,
>
    decreases bytes.len(),
{
    if bytes.len() == 0 {
        Ok(done)
    } else {
        match base128_outcome(bytes, offset) {
            Err(fault) => Err(fault),
            Ok((value, used)) => if 0 < used <= bytes.len() {
                sub_identifiers(done.push(value), bytes.skip(used as int), offset)
            } else {
                arbitrary()
            },
        }
    }
}

/// The first arc that the shared sub-identifier `combined` stands for.
pub open spec fn first_arc(combined: u64) -> u32 {
    if combined < 40 {
        0
    } else if combined < 80 {
        1
    } else {
        2
    }
}

/// The second arc that the shared sub-identifier `combined` stands for.
pub open spec fn second_arc(combined: u64) -> int {
    combined - 40 * first_arc(combined)
}

/// Whether every sub-identifier from the second on fits in `u32`.
pub open spec fn later_arcs_fit(subs: Seq<u64>) -> bool {
    forall|i: int| 1 <= i < subs.len() ==> #[trigger] subs[i] <= u32::MAX
}

/// The number of arcs that the sub-identifiers `subs` stand for, saturated at the range
/// of `usize`.
pub open spec fn arc_count(subs: Seq<u64>) -> usize {
    if subs.len() < usize::MAX {
        (subs.len() + 1) as usize
    } else {
        usize::MAX
    }
}

/// The arcs that the sub-identifiers `subs` stand for.
pub open spec fn arcs_of(subs: Seq<u64>) -> Seq<u32> {
    seq![first_arc(subs[0]), second_arc(subs[0]) as u32] + Seq::new(
        (subs.len() - 1) as nat,
        |i: int| subs[i + 1] as u32,
    )
}

/// What the contents `bytes` of an OBJECT IDENTIFIER are read as.
pub open spec fn oid_outcome(bytes: Seq<u8>, offset: usize) -> Result<Seq<u32>, BerFault> {
    if bytes.len() == 0 {
        Err(BerFault::EmptyOid { offset })
    } else {
        match sub_identifiers(Seq::empty(), bytes, offset) {
            Err(fault) => Err(fault),
            Ok(subs) => if subs.len() + 1 > MAX_ARCS {
                Err(BerFault::TooManySubIdentifiers { count: arc_count(subs), offset })
            } else if second_arc(subs[0]) > u32::MAX {
                Err(BerFault::SecondArcOverflow { offset })
            } else if !later_arcs_fit(subs) {
                Err(BerFault::ArcOverflow { offset })
            } else {
                Ok(arcs_of(subs))
            },
        }
    }
}

/// Whether `result` is what `outcome` prescribes: an OID with the same arcs, or the
/// error that reports the fault.
pub open spec fn oid_agrees(
    result: Result<Oid, BerError>,
    outcome: Result<Seq<u32>, BerFault>,
) -> bool {
    match (result, outcome) {
        (Ok(value), Ok(arcs)) => value@ == arcs,
        (Err(error), Err(fault)) => error.reports(fault),
        _ => false,
    }
}

// ----- Lemmas ----------------------------------------------------------------

proof fn lemma_continued_run(s: Seq<u8>)
    ensures
        continued_run(s) <= s.len(),
        forall|i: int| 0 <= i < continued_run(s) ==> #[trigger] s[i] >= 128,
        continued_run(s) < s.len() ==> s[continued_run(s) as int] < 128,
    decreases s.len(),
{
    if s.len() > 0 && s[0] >= 128 {
        lemma_continued_run(s.skip(1));
        assert forall|i: int| 0 <= i < continued_run(s) implies #[trigger] s[i] >= 128 by {
            if i > 0 {
                assert(s.skip(1)[i - 1] == s[i]);
            }
        }
    }
}

proof fn lemma_run_before(s: Seq<u8>, rest: Seq<u8>)
    requires
        forall|i: int| 0 <= i < s.len() ==> #[trigger] s[i] >= 128,
        rest.len() > 0,
        rest[0] < 128,
    ensures
        continued_run(s + rest) == s.len(),
    decreases s.len(),
{
    if s.len() == 0 {
        assert(s + rest =~= rest);
    } else {
        assert((s + rest)[0] == s[0]);
        assert((s + rest).skip(1) =~= s.skip(1) + rest);
        assert forall|i: int| 0 <= i < s.skip(1).len() implies #[trigger] s.skip(1)[i] >= 128 by {
            assert(s[i + 1] >= 128);
        }
        lemma_run_before(s.skip(1), rest);
    }
}

proof fn lemma_base128_value_grows(s: Seq<u8>, i: nat, j: nat)
    requires
        i <= j <= s.len(),
    ensures
        base128_value(s.take(i as int)) <= base128_value(s.take(j as int)),
    decreases j,
{
    if i < j {
        lemma_base128_value_grows(s, i, (j - 1) as nat);
        assert(s.take(j as int).drop_last() =~= s.take(j - 1));
    }
}

proof fn lemma_continued_groups(n: nat)
    ensures
        base128_value(continued_groups(n)) == n,
        forall|i: int|
            0 <= i < continued_groups(n).len() ==> #[trigger] continued_groups(n)[i] >= 128,
        continued_groups(n).len() > 0 ==> continued_groups(n)[0] > 128,
    decreases n,
{
    if n > 0 {
        lemma_continued_groups(n / 128);
        let before = continued_groups(n / 128);
        let groups = continued_groups(n);
        assert(groups.drop_last() =~= before);
        assert(groups.last() as nat % 128 == n % 128);
        assert forall|i: int| 0 <= i < groups.len() implies #[trigger] groups[i] >= 128 by {
            if i < before.len() {
                assert(before[i] >= 128);
            }
        }
        if before.len() == 0 {
            assert(n / 128 == 0) by {
                if n / 128 > 0 {
                    assert(before.len() > 0);
                }
            }
        }
    }
}

/// What is written in base 128 is read back, with the number of bytes that it takes.
pub proof fn law_base128_round_trip(n: u64, rest: Seq<u8>, offset: usize)
    ensures
        base128_outcome(base128_bytes(n as nat) + rest, offset) == Ok::<(u64, nat), BerFault>(
            (n, base128_bytes(n as nat).len()),
        ),
{
    let groups = continued_groups(n as nat / 128);
    let last = (n as nat % 128) as u8;
    let own = base128_bytes(n as nat);
    let all = own + rest;
    lemma_continued_groups(n as nat / 128);
    assert(all =~= groups + (seq![last] + rest));
    lemma_run_before(groups, seq![last] + rest);
    assert(all.take(groups.len() as int + 1) =~= own);
    assert(own.drop_last() =~= groups);
    assert(base128_value(own) == n);
}

proof fn lemma_arcs_bytes_front(arcs: Seq<u32>)
    requires
        arcs.len() > 0,
    ensures
        arcs_bytes(arcs) == base128_bytes(arcs[0] as nat) + arcs_bytes(arcs.skip(1)),
    decreases arcs.len(),
{
    if arcs.len() == 1 {
        assert(arcs.drop_last() =~= Seq::<u32>::empty());
        assert(arcs.skip(1) =~= Seq::<u32>::empty());
        assert(arcs_bytes(arcs) =~= base128_bytes(arcs[0] as nat) + arcs_bytes(arcs.skip(1)));
    } else {
        lemma_arcs_bytes_front(arcs.drop_last());
        assert(arcs.drop_last().skip(1) =~= arcs.skip(1).drop_last());
        assert(arcs_bytes(arcs) =~= base128_bytes(arcs[0] as nat) + arcs_bytes(arcs.skip(1)));
    }
}

proof fn lemma_sub_identifiers(done: Seq<u64>, arcs: Seq<u32>, offset: usize)
    ensures
        sub_identifiers(done, arcs_bytes(arcs), offset) == Ok::<Seq<u64>, BerFault>(
            done + arcs.map_values(|arc: u32| arc as u64),
        ),
    decreases arcs.len(),
{
    let widened = arcs.map_values(|arc: u32| arc as u64);
    if arcs.len() == 0 {
        assert(done + widened =~= done);
    } else {
        let own = base128_bytes(arcs[0] as nat);
        let rest = arcs_bytes(arcs.skip(1));
        lemma_arcs_bytes_front(arcs);
        law_base128_round_trip(arcs[0] as u64, rest, offset);
        assert((own + rest).skip(own.len() as int) =~= rest);
        lemma_sub_identifiers(done.push(arcs[0] as u64), arcs.skip(1), offset);
        assert(done.push(arcs[0] as u64) + arcs.skip(1).map_values(|arc: u32| arc as u64)
            =~= done + widened);
    }
}

proof fn lemma_base128_len(n: nat)
    requires
        n <= u64::MAX,
    ensures
        base128_bytes(n).len() <= 10,
{
    reveal_with_fuel(continued_groups, 10);
}

proof fn lemma_arcs_bytes_len(arcs: Seq<u32>)
    ensures
        arcs_bytes(arcs).len() <= 10 * arcs.len(),
    decreases arcs.len(),
{
    if arcs.len() > 0 {
        lemma_arcs_bytes_len(arcs.drop_last());
        lemma_base128_len(arcs.last() as nat);
    }
}

/// In base 128 each byte holds seven bits, the first the most significant ones and without
/// leading zeros; the continuation bit is set on every byte but the last.
pub proof fn law_base128_form(n: nat)
    ensures
        ({
            let own = base128_bytes(n);
            &&& own.len() >= 1
            &&& own.last() == n % 128
            &&& n < 128 ==> own.len() == 1
            &&& n >= 128 ==> own[0] != 128
            &&& forall|i: int| 0 <= i < own.len() - 1 ==> #[trigger] own[i] >= 128
            &&& base128_value(own) == n
            &&& n >= 128 ==> base128_value(own.drop_last()) == n / 128
        }),
{
    let groups = continued_groups(n / 128);
    let own = base128_bytes(n);
    lemma_continued_groups(n / 128);
    assert(own.drop_last() =~= groups);
    assert forall|i: int| 0 <= i < own.len() - 1 implies #[trigger] own[i] >= 128 by {
        assert(groups[i] >= 128);
    }
}

/// Each byte in base 128 weighs 128 times what the byte behind it weighs, whatever its
/// continuation bit.
pub proof fn law_base128_value(bytes: Seq<u8>, next: u8)
    ensures
        base128_value(Seq::empty()) == 0,
        base128_value(bytes.push(next)) == base128_value(bytes) * 128 + (if next < 128 {
            next as int
        } else {
            next - 128
        }),
{
    assert(bytes.push(next).drop_last() =~= bytes);
}

/// The contents of an OBJECT IDENTIFIER start with forty times the first arc plus the
/// second, and every further arc adds its own base-128 form at the end.
pub proof fn law_oid_bytes(first: u32, second: u32, arcs: Seq<u32>, next: u32)
    requires
        arcs.len() >= 2,
    ensures
        oid_bytes(seq![first, second]) == base128_bytes((40 * first + second) as nat),
        oid_bytes(arcs.push(next)) == oid_bytes(arcs) + base128_bytes(next as nat),
{
    let pair = seq![first, second];
    assert(pair.skip(2) =~= Seq::<u32>::empty());
    assert(oid_bytes(pair) =~= base128_bytes((40 * first + second) as nat));
    let longer = arcs.push(next);
    assert(longer.skip(2).drop_last() =~= arcs.skip(2));
    assert(oid_bytes(longer) =~= oid_bytes(arcs) + base128_bytes(next as nat));
}

/// An OBJECT IDENTIFIER of more than 128 arcs is refused.
pub proof fn law_too_many_arcs(arcs: Seq<u32>, offset: usize)
    requires
        oid::valid_arcs(arcs),
        arcs.len() > 128,
    ensures
        oid_outcome(oid_bytes(arcs), offset) is Err,
{
    let combined = (arcs[0] * 40 + arcs[1]) as u64;
    let own = base128_bytes(combined as nat);
    let tail = arcs.skip(2);
    let rest = arcs_bytes(tail);
    law_base128_round_trip(combined, rest, offset);
    assert((own + rest).skip(own.len() as int) =~= rest);
    lemma_sub_identifiers(Seq::<u64>::empty().push(combined), tail, offset);
}

/// The contents of an OBJECT IDENTIFIER take at most ten bytes per arc.
pub proof fn lemma_oid_bytes_len(arcs: Seq<u32>)
    requires
        arcs.len() >= 2,
    ensures
        oid_bytes(arcs).len() <= 10 * arcs.len(),
{
    lemma_base128_len((arcs[0] * 40 + arcs[1]) as nat);
    lemma_arcs_bytes_len(arcs.skip(2));
}

/// The contents written for a valid OID of at most [`MAX_ARCS`] arcs are read back as
/// the same OID.
pub proof fn law_oid_round_trip(arcs: Seq<u32>, offset: usize)
    requires
        oid::valid_arcs(arcs),
        arcs.len() <= MAX_ARCS,
    ensures
        oid_outcome(oid_bytes(arcs), offset) == Ok::<Seq<u32>, BerFault>(arcs),
        oid_bytes(arcs).len() > 0,
{
    let combined = (arcs[0] * 40 + arcs[1]) as u64;
    let own = base128_bytes(combined as nat);
    let tail = arcs.skip(2);
    let rest = arcs_bytes(tail);
    law_base128_round_trip(combined, rest, offset);
    assert((own + rest).skip(own.len() as int) =~= rest);
    assert(Seq::<u64>::empty().push(combined) =~= seq![combined]);
    lemma_sub_identifiers(seq![combined], tail, offset);
    let subs = seq![combined] + tail.map_values(|arc: u32| arc as u64);
    assert(sub_identifiers(Seq::empty(), own + rest, offset) == Ok::<Seq<u64>, BerFault>(subs));
    assert(subs[0] == combined);
    assert forall|i: int| 1 <= i < subs.len() implies #[trigger] subs[i] <= u32::MAX by {
        assert(subs[i] == tail[i - 1] as u64);
    }
    assert(arcs_of(subs) =~= arcs);
}

/// What is read from the contents of an OBJECT IDENTIFIER is a valid OID of at most
/// [`MAX_ARCS`] arcs.
pub proof fn law_oid_outcome_valid(bytes: Seq<u8>, offset: usize)
    ensures
        oid_outcome(bytes, offset) matches Ok(arcs) ==> oid::valid_arcs(arcs) && arcs.len()
            <= MAX_ARCS,
{
    if bytes.len() > 0 {
        lemma_sub_identifiers_grow(Seq::empty(), bytes, offset);
    }
}

proof fn lemma_base128_used(bytes: Seq<u8>, offset: usize)
    ensures
        base128_outcome(bytes, offset) matches Ok((_, used)) ==> 0 < used <= bytes.len() && used
            == continued_run(bytes) + 1,
{
    lemma_continued_run(bytes);
}

proof fn lemma_sub_identifiers_grow(done: Seq<u64>, bytes: Seq<u8>, offset: usize)
    ensures
        sub_identifiers(done, bytes, offset) matches Ok(subs) ==> subs.len() >= done.len() + (
        if bytes.len() > 0 {
            1int
        } else {
            0
        }),
    decreases bytes.len(),
{
    if bytes.len() > 0 {
        lemma_base128_used(bytes, offset);
        if let Ok((value, used)) = base128_outcome(bytes, offset) {
            lemma_sub_identifiers_grow(done.push(value), bytes.skip(used as int), offset);
        }
    }
}

proof fn lemma_groups_canonical(groups: Seq<u8>)
    requires
        forall|i: int| 0 <= i < groups.len() ==> #[trigger] groups[i] >= 128,
        groups.len() > 0 ==> groups[0] > 128,
    ensures
        continued_groups(base128_value(groups)) == groups,
    decreases groups.len(),
{
    if groups.len() > 0 {
        let before = groups.drop_last();
        assert forall|i: int| 0 <= i < before.len() implies #[trigger] before[i] >= 128 by {
            assert(groups[i] >= 128);
        }
        lemma_groups_canonical(before);
        assert(groups[groups.len() - 1] >= 128);
        assert(base128_value(groups) / 128 == base128_value(before));
        assert(base128_value(groups) > 0) by {
            if before.len() > 0 {
                assert(continued_groups(base128_value(before)).len() > 0);
            }
        }
        assert(continued_groups(base128_value(groups)) =~= groups);
    } else {
        assert(continued_groups(base128_value(groups)) =~= groups);
    }
}

/// A sub-identifier is read from its canonical form only.
pub proof fn law_base128_canonical(bytes: Seq<u8>, offset: usize)
    ensures
        base128_outcome(bytes, offset) matches Ok((value, used)) ==> used <= bytes.len()
            && base128_bytes(value as nat) == bytes.take(used as int),
{
    if let Ok((value, used)) = base128_outcome(bytes, offset) {
        lemma_continued_run(bytes);
        let own = bytes.take(used as int);
        let groups = own.drop_last();
        assert forall|i: int| 0 <= i < groups.len() implies #[trigger] groups[i] >= 128 by {
            assert(bytes[i] >= 128);
        }
        lemma_groups_canonical(groups);
        assert(own.last() == bytes[continued_run(bytes) as int]);
        assert(value as nat / 128 == base128_value(groups));
        assert(base128_bytes(value as nat) =~= own);
    }
}

/// The base-128 forms of `subs`, one after the other.
spec fn subs_bytes(subs: Seq<u64>) -> Seq<u8>
    decreases subs.len(),
{
    if subs.len() == 0 {
        Seq::empty()
    } else {
        base128_bytes(subs[0] as nat) + subs_bytes(subs.skip(1))
    }
}

proof fn lemma_subs_canonical(done: Seq<u64>, bytes: Seq<u8>, offset: usize)
    ensures
        sub_identifiers(done, bytes, offset) matches Ok(subs) ==> done.len() <= subs.len()
            && subs.take(done.len() as int) == done && subs_bytes(subs.skip(done.len() as int))
            == bytes,
    decreases bytes.len(),
{
    if let Ok(subs) = sub_identifiers(done, bytes, offset) {
        if bytes.len() == 0 {
            assert(subs.take(done.len() as int) =~= done);
            assert(subs_bytes(subs.skip(done.len() as int)) =~= bytes);
        } else {
            lemma_base128_used(bytes, offset);
            law_base128_canonical(bytes, offset);
            if let Ok((value, used)) = base128_outcome(bytes, offset) {
                let rest = bytes.skip(used as int);
                let next = done.push(value);
                lemma_subs_canonical(next, rest, offset);
                let own = subs.skip(done.len() as int);
                assert(subs.take(next.len() as int)[done.len() as int] == value);
                assert(subs.take(done.len() as int) =~= subs.take(next.len() as int).take(
                    done.len() as int,
                ));
                assert(next.take(done.len() as int) =~= done);
                assert(own[0] == value);
                assert(own.skip(1) =~= subs.skip(next.len() as int));
                assert(bytes =~= bytes.take(used as int) + rest);
            }
        }
    }
}

proof fn lemma_narrowed_bytes(arcs: Seq<u32>, subs: Seq<u64>)
    requires
        arcs.len() == subs.len(),
        forall|i: int| 0 <= i < arcs.len() ==> #[trigger] arcs[i] == subs[i],
    ensures
        arcs_bytes(arcs) == subs_bytes(subs),
    decreases arcs.len(),
{
    if arcs.len() > 0 {
        lemma_arcs_bytes_front(arcs);
        assert forall|i: int| 0 <= i < arcs.skip(1).len() implies #[trigger] arcs.skip(1)[i]
            == subs.skip(1)[i] by {
            assert(arcs[i + 1] == subs[i + 1]);
        }
        lemma_narrowed_bytes(arcs.skip(1), subs.skip(1));
    }
}

/// An OID is read from its canonical contents only: what was read is written as the same
/// bytes again.
pub proof fn law_oid_canonical(bytes: Seq<u8>, offset: usize)
    ensures
        oid_outcome(bytes, offset) matches Ok(arcs) ==> oid_bytes(arcs) == bytes,
{
    if let Ok(arcs) = oid_outcome(bytes, offset) {
        lemma_sub_identifiers_grow(Seq::empty(), bytes, offset);
        lemma_subs_canonical(Seq::empty(), bytes, offset);
        if let Ok(subs) = sub_identifiers(Seq::empty(), bytes, offset) {
            assert(subs.skip(0) =~= subs);
            let later = arcs.skip(2);
            assert forall|i: int| 0 <= i < later.len() implies #[trigger] later[i] == subs.skip(
                1,
            )[i] by {
                assert(subs[i + 1] <= u32::MAX);
            }
            lemma_narrowed_bytes(later, subs.skip(1));
            assert(arcs[0] * 40 + arcs[1] == subs[0]);
        }
    }
}

// ----- Encoding --------------------------------------------------------------

fn push_continued(dest: &mut Vec<u8>, value: u64)
    ensures
        final(dest)@ == old(dest)@ + continued_groups(value as nat),
    decreases value,
{
    if value > 0 {
        push_continued(dest, value / 128);
        dest.push((128 + value % 128) as u8);
    }
    proof {
        assert(dest@ =~= old(dest)@ + continued_groups(value as nat));
    }
}

/// Appends `value` in base 128.
pub fn encode_base128(dest: &mut Vec<u8>, value: u64)
    ensures
        final(dest)@ == old(dest)@ + base128_bytes(value as nat),
{
    push_continued(dest, value / 128);
    dest.push((value % 128) as u8);
    proof {
        assert(dest@ =~= old(dest)@ + base128_bytes(value as nat));
    }
}

/// The contents of the OBJECT IDENTIFIER for `oid`.
pub fn encode_oid(oid: &Oid) -> (out: Vec<u8>)
    ensures
        out@ == oid_bytes(oid@),
        oid::valid_arcs(oid@),
{
    let arcs = oid.as_slice();
    let mut out: Vec<u8> = Vec::new();
    encode_base128(&mut out, arcs[0] as u64 * 40 + arcs[1] as u64);
    let ghost first = out@;
    let mut i: usize = 2;
    proof {
        assert(arcs@.subrange(2, 2) =~= Seq::<u32>::empty());
        assert(first + arcs_bytes(Seq::empty()) =~= first);
    }
    while i < arcs.len()
        invariant
            2 <= i <= arcs@.len(),
            out@ == first + arcs_bytes(arcs@.subrange(2, i as int)),
        decreases arcs@.len() - i,
    {
        let ghost before = out@;
        encode_base128(&mut out, arcs[i] as u64);
        proof {
            let done = arcs@.subrange(2, i as int + 1);
            assert(done.drop_last() =~= arcs@.subrange(2, i as int));
            assert(out@ =~= first + arcs_bytes(done));
        }
        i += 1;
    }
    proof {
        assert(arcs@.subrange(2, arcs@.len() as int) =~= arcs@.skip(2));
    }
    out
}

// ----- Decoding --------------------------------------------------------------

/// Reads the sub-identifier that `bytes` start with, and its length.
pub fn decode_base128(bytes: &[u8], error_offset: usize) -> (result: Result<
    (u64, usize),
    BerError,
>)
    ensures
        match (result, base128_outcome(bytes@, error_offset)) {
            (Ok((value, used)), Ok((number, length))) => value == number && used == length && 0
                < used <= bytes@.len(),
            (Err(error), Err(fault)) => error.reports(fault),
            _ => false,
        },
{
    let mut value: u64 = 0;
    let mut used: usize = 0;
    proof {
        lemma_continued_run(bytes@);
        assert(bytes@.skip(0) =~= bytes@);
        assert(bytes@.take(0) =~= Seq::<u8>::empty());
    }
    if bytes.len() > 0 && bytes[0] == 128 {
        return Err(
            BerError::from_fault(BerFault::NonMinimalSubIdentifier { offset: error_offset }),
        );
    }
    while used < bytes.len()
        invariant
            used <= bytes@.len(),
            bytes@.len() > 0 ==> bytes@[0] != 128,
            continued_run(bytes@) <= bytes@.len(),
            continued_run(bytes@) == used + continued_run(bytes@.skip(used as int)),
            value == base128_value(bytes@.take(used as int)),
        decreases bytes@.len() - used,
    {
        let byte: u8 = bytes[used];
        proof {
            assert(bytes@.take(used as int + 1).drop_last() =~= bytes@.take(used as int));
            assert(bytes@.skip(used as int).skip(1) =~= bytes@.skip(used as int + 1));
            let group = sub_identifier(bytes@);
            assert(group =~= bytes@.take(group.len() as int));
            lemma_base128_value_grows(bytes@, (used + 1) as nat, group.len());
        }
        if value > u64::MAX / 128 {
            return Err(
                BerError::from_fault(BerFault::SubIdentifierOverflow { offset: error_offset }),
            );
        }
        value = value * 128 + (byte % 128) as u64;
        used += 1;
        if byte < 128 {
            return Ok((value, used));
        }
    }
    proof {
        assert(bytes@.take(bytes@.len() as int) =~= bytes@);
    }
    Err(BerError::from_fault(BerFault::TruncatedSubIdentifier { offset: error_offset }))
}

/// Reads the contents of an OBJECT IDENTIFIER.
pub fn decode_oid(oid_bytes: &[u8], error_offset: usize) -> (result: Result<Oid, BerError>)
    ensures
        oid_agrees(result, oid_outcome(oid_bytes@, error_offset)),
{
    if oid_bytes.is_empty() {
        return Err(BerError::from_fault(BerFault::EmptyOid { offset: error_offset }));
    }
    let mut subs: Vec<u64> = Vec::new();
    let mut start: usize = 0;
    proof {
        assert(oid_bytes@.skip(0) =~= oid_bytes@);
        assert(subs@ =~= Seq::<u64>::empty());
    }
    while start < oid_bytes.len()
        invariant
            start <= oid_bytes@.len(),
            oid_bytes@.len() > 0,
            start > 0 ==> subs@.len() > 0,
            sub_identifiers(subs@, oid_bytes@.skip(start as int), error_offset) == sub_identifiers(
                Seq::empty(),
                oid_bytes@,
                error_offset,
            ),
        decreases oid_bytes@.len() - start,
    {
        let remaining = slice_subrange(oid_bytes, start, oid_bytes.len());
        proof {
            assert(remaining@ =~= oid_bytes@.skip(start as int));
        }
        match decode_base128(remaining, error_offset) {
            Ok((value, used)) => {
                subs.push(value);
                proof {
                    assert(remaining@.skip(used as int) =~= oid_bytes@.skip(start + used));
                }
                start += used;
            },
            Err(error) => {
                return Err(error);
            },
        }
    }
    proof {
        assert(sub_identifiers(Seq::empty(), oid_bytes@, error_offset) == Ok::<
            Seq<u64>,
            BerFault,
        >(subs@));
    }
    arcs_from_sub_identifiers(subs.as_slice(), error_offset)
}

fn arcs_from_sub_identifiers(subs: &[u64], error_offset: usize) -> (result: Result<Oid, BerError>)
    requires
        subs@.len() > 0,
    ensures
        oid_agrees(
            result,
            if subs@.len() + 1 > MAX_ARCS {
                Err(
                    BerFault::TooManySubIdentifiers {
                        count: arc_count(subs@),
                        offset: error_offset,
                    },
                )
            } else if second_arc(subs@[0]) > u32::MAX {
                Err(BerFault::SecondArcOverflow { offset: error_offset })
            } else if !later_arcs_fit(subs@) {
                Err(BerFault::ArcOverflow { offset: error_offset })
            } else {
                Ok(arcs_of(subs@))
            },
        ),
{
    if subs.len() >= MAX_ARCS {
        let mut count: usize = subs.len();
        if count < usize::MAX {
            count += 1;
        }
        return Err(
            BerError::from_fault(
                BerFault::TooManySubIdentifiers { count, offset: error_offset },
            ),
        );
    }
    let combined: u64 = subs[0];
    let (first, second): (u32, u64) = if combined < 40 {
        (0, combined)
    } else if combined < 80 {
        (1, combined - 40)
    } else {
        (2, combined - 80)
    };
    if second > u32::MAX as u64 {
        return Err(BerError::from_fault(BerFault::SecondArcOverflow { offset: error_offset }));
    }
    let mut arcs: Vec<u32> = Vec::new();
    arcs.push(first);
    arcs.push(second as u32);
    let mut i: usize = 1;
    while i < subs.len()
        invariant
            1 <= i <= subs@.len(),
            second_arc(subs@[0]) <= u32::MAX,
            subs@.len() < MAX_ARCS,
            forall|j: int| 1 <= j < i ==> #[trigger] subs@[j] <= u32::MAX,
            arcs@ =~= arcs_of(subs@).take(i as int + 1),
        decreases subs@.len() - i,
    {
        if subs[i] > u32::MAX as u64 {
            return Err(BerError::from_fault(BerFault::ArcOverflow { offset: error_offset }));
        }
        arcs.push(subs[i] as u32);
        i += 1;
    }
    proof {
        assert(arcs@ =~= arcs_of(subs@));
    }
    Ok(Oid::from_slice(arcs.as_slice()))
}

} // verus!
