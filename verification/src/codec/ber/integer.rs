//! Big-endian byte strings and the contents of BER INTEGERs.

use vstd::arithmetic::power::pow;
use vstd::prelude::*;
use vstd::slice::slice_subrange;
use crate::codec::ber::error;
use crate::codec::ber::error::{BerError, BerFault};

verus! {

/// 256 to the power `n`.
pub open spec fn pow256(n: nat) -> nat
    decreases n,
{
    if n == 0 {
        1
    } else {
        256 * pow256((n - 1) as nat)
    }
}

/// The number that `bytes` denote, most significant byte first.
pub open spec fn be_value(bytes: Seq<u8>) -> nat
    decreases bytes.len(),
{
    if bytes.len() == 0 {
        0
    } else {
        be_value(bytes.drop_last()) * 256 + bytes.last() as nat
    }
}

/// The shortest non-empty byte string that denotes `n`, most significant byte first.
pub open spec fn be_bytes(n: nat) -> Seq<u8>
    decreases n,
{
    if n < 256 {
        seq![n as u8]
    } else {
        be_bytes(n / 256).push((n % 256) as u8)
    }
}

/// The number that `bytes` denote in two's complement, most significant byte first.
pub open spec fn signed_value(bytes: Seq<u8>) -> int
    decreases bytes.len(),
{
    if bytes.len() == 0 {
        0
    } else if bytes.len() == 1 {
        if bytes[0] < 128 {
            bytes[0] as int
        } else {
            bytes[0] - 256
        }
    } else {
        signed_value(bytes.drop_last()) * 256 + bytes.last()
    }
}

/// The shortest two's complement byte string that denotes `v`.
pub open spec fn signed_bytes(v: int) -> Seq<u8>
    decreases (if v < 0 { -v } else { v }),
{
    if -128 <= v < 128 {
        seq![(v % 256) as u8]
    } else {
        signed_bytes(v / 256).push((v % 256) as u8)
    }
}

/// The shortest two's complement byte string that denotes the natural number `n`.
pub open spec fn unsigned_bytes(n: nat) -> Seq<u8> {
    if be_bytes(n)[0] < 128 {
        be_bytes(n)
    } else {
        seq![0u8] + be_bytes(n)
    }
}

/// `bytes` without the leading bytes that only repeat the sign of the next one.
pub open spec fn trim_sign(bytes: Seq<u8>) -> Seq<u8>
    decreases bytes.len(),
{
    if bytes.len() > 1 && ((bytes[0] == 0 && bytes[1] < 128) || (bytes[0] == 255 && bytes[1]
        >= 128)) {
        trim_sign(bytes.skip(1))
    } else {
        bytes
    }
}

/// `bytes` without leading zero bytes, the last byte kept in any case.
pub open spec fn trim_zeros(bytes: Seq<u8>) -> Seq<u8>
    decreases bytes.len(),
{
    if bytes.len() > 1 && bytes[0] == 0 {
        trim_zeros(bytes.skip(1))
    } else {
        bytes
    }
}

/// What the contents `bytes` of an INTEGER are read as: the number they denote, if it
/// fits in `i32`.
pub open spec fn signed_outcome(bytes: Seq<u8>, offset: usize) -> Result<i32, BerFault> {
    if bytes.len() == 0 {
        Err(BerFault::EmptyInteger { offset })
    } else if i32::MIN <= signed_value(bytes) <= i32::MAX {
        Ok(signed_value(bytes) as i32)
    } else {
        Err(BerFault::SignedTooLarge { bytes: trim_sign(bytes).len() as usize, offset })
    }
}

/// What the contents `bytes` of an INTEGER are read as where an unsigned number of at
/// most `width` bytes is expected.
pub open spec fn unsigned_outcome(bytes: Seq<u8>, width: nat, offset: usize) -> Result<
    u64,
    BerFault,
> {
    if bytes.len() == 0 {
        Err(BerFault::EmptyInteger { offset })
    } else if bytes[0] >= 128 {
        Err(BerFault::NegativeUnsigned { offset })
    } else if width > 0 && be_value(bytes) < pow256(width) {
        Ok(be_value(bytes) as u64)
    } else {
        Err(
            BerFault::UnsignedTooLarge {
                bits: (width * 8) as usize,
                bytes: trim_zeros(bytes).len() as usize,
                offset,
            },
        )
    }
}

/// [`unsigned_outcome`] for four bytes.
pub open spec fn unsigned32_outcome(bytes: Seq<u8>, offset: usize) -> Result<u32, BerFault> {
    match unsigned_outcome(bytes, 4, offset) {
        Ok(value) => Ok(value as u32),
        Err(fault) => Err(fault),
    }
}

/// [`unsigned_outcome`] for eight bytes.
pub open spec fn unsigned64_outcome(bytes: Seq<u8>, offset: usize) -> Result<u64, BerFault> {
    unsigned_outcome(bytes, 8, offset)
}

// ----- Lemmas ----------------------------------------------------------------

/// `be_bytes` is never empty, and `be_value` undoes it.
pub proof fn lemma_be_bytes(n: nat)
    ensures
        be_bytes(n).len() >= 1,
        be_value(be_bytes(n)) == n,
        n > 0 ==> be_bytes(n)[0] > 0,
    decreases n,
{
    reveal_with_fuel(be_value, 2);
    if n < 256 {
        assert(be_bytes(n).drop_last() =~= Seq::<u8>::empty());
    } else {
        lemma_be_bytes(n / 256);
        assert(be_bytes(n).drop_last() =~= be_bytes(n / 256));
    }
}

/// A number below `256^width` needs at most `width` bytes.
pub proof fn lemma_be_bytes_len(n: nat, width: nat)
    requires
        n < pow256(width),
        width >= 1,
    ensures
        be_bytes(n).len() <= width,
    decreases width,
{
    reveal_with_fuel(pow256, 2);
    if n >= 256 {
        lemma_be_bytes_len(n / 256, (width - 1) as nat);
    }
}

/// `be_bytes` undoes `be_value` on byte strings without leading zeros.
pub proof fn lemma_be_value_unique(s: Seq<u8>)
    requires
        s.len() >= 1,
        s.len() == 1 || s[0] != 0,
    ensures
        be_bytes(be_value(s)) == s,
        s[0] != 0 ==> be_value(s) >= 1,
    decreases s.len(),
{
    reveal_with_fuel(be_value, 2);
    if s.len() == 1 {
        assert(s.drop_last() =~= Seq::<u8>::empty());
        assert(be_bytes(be_value(s)) =~= s);
    } else {
        lemma_be_value_unique(s.drop_last());
        assert(be_bytes(be_value(s)) =~= s);
    }
}

/// `be_value` of `n` bytes lies below `256^n`.
pub proof fn lemma_be_value_bound(s: Seq<u8>)
    ensures
        be_value(s) < pow256(s.len()),
    decreases s.len(),
{
    if s.len() > 0 {
        lemma_be_value_bound(s.drop_last());
    }
}

/// `be_value` of `n` bytes with a leading non-zero byte is at least `256^(n-1)`.
pub proof fn lemma_be_value_lower(s: Seq<u8>)
    requires
        s.len() >= 1,
        s[0] != 0,
    ensures
        be_value(s) >= pow256((s.len() - 1) as nat),
    decreases s.len(),
{
    if s.len() > 1 {
        lemma_be_value_lower(s.drop_last());
    }
}

/// A byte string denotes no less than its first `n` bytes.
pub proof fn lemma_be_value_grows(s: Seq<u8>, n: nat)
    requires
        n <= s.len(),
    ensures
        be_value(s.take(n as int)) <= be_value(s),
    decreases s.len(),
{
    if n == s.len() {
        assert(s.take(n as int) =~= s);
    } else {
        lemma_be_value_grows(s.drop_last(), n);
        assert(s.drop_last().take(n as int) =~= s.take(n as int));
    }
}

/// `pow256` grows with its argument.
pub proof fn lemma_pow256_mono(a: nat, b: nat)
    requires
        a <= b,
    ensures
        1 <= pow256(a) <= pow256(b),
    decreases b,
{
    if a < b {
        lemma_pow256_mono(a, (b - 1) as nat);
    } else if b > 0 {
        lemma_pow256_mono((a - 1) as nat, (b - 1) as nat);
    }
}

/// A leading zero byte does not change the number.
pub proof fn lemma_be_value_skip_zero(s: Seq<u8>)
    requires
        s.len() >= 1,
        s[0] == 0,
    ensures
        be_value(s.skip(1)) == be_value(s),
    decreases s.len(),
{
    if s.len() == 1 {
        assert(s.drop_last() =~= Seq::<u8>::empty());
        assert(s.skip(1) =~= Seq::<u8>::empty());
    } else {
        lemma_be_value_skip_zero(s.drop_last());
        assert(s.skip(1).drop_last() =~= s.drop_last().skip(1));
    }
}

/// Trimming leading zeros keeps the number and leaves no leading zero behind.
pub proof fn lemma_trim_zeros(s: Seq<u8>)
    requires
        s.len() >= 1,
    ensures
        1 <= trim_zeros(s).len() <= s.len(),
        trim_zeros(s).len() == 1 || trim_zeros(s)[0] != 0,
        be_value(trim_zeros(s)) == be_value(s),
    decreases s.len(),
{
    if s.len() > 1 && s[0] == 0 {
        lemma_be_value_skip_zero(s);
        lemma_trim_zeros(s.skip(1));
    }
}

/// The number of bytes left after trimming decides whether a number is below `256^width`.
pub proof fn lemma_trimmed_width(s: Seq<u8>, width: nat)
    requires
        s.len() >= 1,
        width >= 1,
    ensures
        trim_zeros(s).len() <= width <==> be_value(s) < pow256(width),
{
    lemma_trim_zeros(s);
    let t = trim_zeros(s);
    if t.len() <= width {
        lemma_be_value_bound(t);
        lemma_pow256_mono(t.len(), width);
    } else {
        lemma_be_value_lower(t);
        lemma_pow256_mono(width, (t.len() - 1) as nat);
    }
}

/// A leading byte that repeats the sign of the next one does not change the number.
pub proof fn lemma_signed_skip(s: Seq<u8>)
    requires
        s.len() >= 2,
        (s[0] == 0 && s[1] < 128) || (s[0] == 255 && s[1] >= 128),
    ensures
        signed_value(s.skip(1)) == signed_value(s),
    decreases s.len(),
{
    reveal_with_fuel(signed_value, 2);
    if s.len() > 2 {
        lemma_signed_skip(s.drop_last());
        assert(s.skip(1).drop_last() =~= s.drop_last().skip(1));
    }
}

/// Trimming sign bytes keeps the number.
pub proof fn lemma_trim_sign(s: Seq<u8>)
    requires
        s.len() >= 1,
    ensures
        1 <= trim_sign(s).len() <= s.len(),
        signed_value(trim_sign(s)) == signed_value(s),
        trim_sign(trim_sign(s)) == trim_sign(s),
    decreases s.len(),
{
    if trim_sign(s) != s {
        lemma_signed_skip(s);
        lemma_trim_sign(s.skip(1));
    }
}

/// Half of `256^n`: what `n` bytes of two's complement reach.
pub open spec fn signed_reach(n: nat) -> nat {
    if n == 0 {
        0
    } else {
        128 * pow256((n - 1) as nat)
    }
}

/// `n` bytes of two's complement denote a number within `signed_reach(n)`.
pub proof fn lemma_signed_value_bound(s: Seq<u8>)
    requires
        s.len() >= 1,
    ensures
        -signed_reach(s.len()) <= signed_value(s) < signed_reach(s.len()),
    decreases s.len(),
{
    reveal_with_fuel(pow256, 2);
    if s.len() > 1 {
        lemma_signed_value_bound(s.drop_last());
    }
}

/// A trimmed byte string of two or more bytes denotes a number outside the reach of
/// one byte less.
pub proof fn lemma_signed_value_outside(s: Seq<u8>)
    requires
        s.len() >= 2,
        trim_sign(s) == s,
    ensures
        signed_value(s) >= signed_reach((s.len() - 1) as nat) || signed_value(s) < -signed_reach(
            (s.len() - 1) as nat,
        ),
    decreases s.len(),
{
    reveal_with_fuel(pow256, 2);
    reveal_with_fuel(signed_value, 2);
    assert(!((s[0] == 0 && s[1] < 128) || (s[0] == 255 && s[1] >= 128))) by {
        if (s[0] == 0 && s[1] < 128) || (s[0] == 255 && s[1] >= 128) {
            lemma_trim_sign(s.skip(1));
        }
    }
    if s.len() > 2 {
        lemma_signed_value_outside(s.drop_last());
    }
}

/// The number of bytes left after trimming decides whether a number is in the reach of
/// four bytes.
pub proof fn lemma_trimmed_i32(s: Seq<u8>)
    requires
        s.len() >= 1,
    ensures
        trim_sign(s).len() <= 4 <==> i32::MIN <= signed_value(s) <= i32::MAX,
{
    reveal_with_fuel(pow256, 5);
    lemma_trim_sign(s);
    let t = trim_sign(s);
    assert(signed_reach(4) == 0x8000_0000);
    if t.len() <= 4 {
        lemma_signed_value_bound(t);
        lemma_pow256_mono((t.len() - 1) as nat, 3);
    } else {
        lemma_signed_value_outside(t);
        lemma_pow256_mono(3, (t.len() - 2) as nat);
    }
}

/// `signed_value` undoes `signed_bytes`.
pub proof fn lemma_signed_bytes(v: int)
    ensures
        signed_bytes(v).len() >= 1,
        signed_value(signed_bytes(v)) == v,
        v >= 0 <==> signed_bytes(v)[0] < 128,
    decreases (if v < 0 { -v } else { v }),
{
    if -128 <= v < 128 {
    } else {
        lemma_signed_bytes(v / 256);
        assert(signed_bytes(v).drop_last() =~= signed_bytes(v / 256));
    }
}

// ----- Laws ------------------------------------------------------------------

/// An INTEGER written from an `i32` is read back as that `i32`.
pub proof fn law_signed_round_trip(v: i32, offset: usize)
    ensures
        signed_outcome(signed_bytes(v as int), offset) == Ok::<i32, BerFault>(v),
{
    lemma_signed_bytes(v as int);
}

/// The contents of an INTEGER are read as an `i32` exactly when the number that they
/// denote fits, however many redundant sign bytes they start with.
pub proof fn law_signed_padding(bytes: Seq<u8>, offset: usize)
    requires
        bytes.len() >= 1,
    ensures
        signed_outcome(bytes, offset) is Ok <==> trim_sign(bytes).len() <= 4,
        bytes[0] < 128 ==> signed_outcome(seq![0u8] + bytes, offset) == signed_outcome(
            bytes,
            offset,
        ),
        bytes[0] >= 128 ==> signed_outcome(seq![255u8] + bytes, offset) == signed_outcome(
            bytes,
            offset,
        ),
{
    lemma_trimmed_i32(bytes);
    let zero = seq![0u8] + bytes;
    let ones = seq![255u8] + bytes;
    assert(zero.skip(1) =~= bytes);
    assert(ones.skip(1) =~= bytes);
    if bytes[0] < 128 {
        lemma_signed_skip(zero);
    } else {
        lemma_signed_skip(ones);
    }
}

/// No shorter byte string denotes the same number as `signed_bytes(v)`.
pub proof fn law_signed_minimal(v: int, other: Seq<u8>)
    requires
        other.len() >= 1,
        signed_value(other) == v,
    ensures
        signed_bytes(v).len() <= other.len(),
    decreases other.len(),
{
    reveal_with_fuel(signed_value, 2);
    if !(-128 <= v < 128) {
        law_signed_minimal(v / 256, other.drop_last());
    }
}

/// An unsigned INTEGER written from a number below `256^width` is read back as that
/// number.
pub proof fn law_unsigned_round_trip(n: nat, width: nat, offset: usize)
    requires
        width > 0,
        n < pow256(width),
        n <= u64::MAX,
    ensures
        unsigned_outcome(unsigned_bytes(n), width, offset) == Ok::<u64, BerFault>(n as u64),
{
    lemma_be_bytes(n);
    let padded = seq![0u8] + be_bytes(n);
    assert(padded.skip(1) =~= be_bytes(n));
    lemma_be_value_skip_zero(padded);
}

/// What is written for a natural number is its shortest two's complement form: reading
/// it as a signed INTEGER gives the same number.
pub proof fn law_unsigned_is_signed(n: nat)
    ensures
        unsigned_bytes(n) == signed_bytes(n as int),
        signed_value(unsigned_bytes(n)) == n,
    decreases n,
{
    lemma_be_bytes(n);
    lemma_signed_bytes(n as int);
    if n < 128 {
        assert(unsigned_bytes(n) =~= signed_bytes(n as int));
    } else if n < 256 {
        reveal_with_fuel(signed_bytes, 2);
        assert(unsigned_bytes(n) =~= signed_bytes(n as int));
    } else {
        law_unsigned_is_signed(n / 256);
        lemma_be_bytes(n / 256);
        assert(be_bytes(n)[0] == be_bytes(n / 256)[0]);
        assert(unsigned_bytes(n) =~= unsigned_bytes(n / 256).push((n % 256) as u8));
    }
}

/// Each byte of a big-endian byte string weighs 256 times what the byte behind it weighs,
/// and the last weighs one.
pub proof fn law_be_value(bytes: Seq<u8>, i: int)
    requires
        0 <= i < bytes.len(),
    ensures
        be_value(Seq::empty()) == 0,
        be_value(bytes) == be_value(bytes.update(i, 0)) + bytes[i] * pow(
            256,
            (bytes.len() - 1 - i) as nat,
        ),
    decreases bytes.len(),
{
    reveal(pow);
    let last = bytes.last() as int;
    let without = bytes.update(i, 0);
    if i == bytes.len() - 1 {
        assert(without.drop_last() =~= bytes.drop_last());
    } else {
        let front = bytes.drop_last();
        law_be_value(front, i);
        assert(without.drop_last() =~= front.update(i, 0));
        assert(without.last() == bytes.last());
        let b = bytes[i] as int;
        let weight = pow(256, (front.len() - 1 - i) as nat);
        assert((b * weight) * 256 == b * (256 * weight)) by (nonlinear_arith);
    }
}

/// A byte string denotes the same number in two's complement as it does unsigned when its
/// first bit is clear, and `256^n` less when that bit is set, where `n` is its length.
pub proof fn law_signed_value(bytes: Seq<u8>)
    requires
        bytes.len() >= 1,
    ensures
        bytes[0] < 128 ==> signed_value(bytes) == be_value(bytes),
        bytes[0] >= 128 ==> signed_value(bytes) == be_value(bytes) - pow(256, bytes.len()),
    decreases bytes.len(),
{
    reveal_with_fuel(pow, 2);
    reveal_with_fuel(be_value, 2);
    if bytes.len() == 1 {
        assert(bytes.drop_last() =~= Seq::<u8>::empty());
        assert(pow(256, 1) == 256);
    } else {
        law_signed_value(bytes.drop_last());
    }
}

/// The contents of an INTEGER are read as a number exactly when they denote it in two's
/// complement and it lies in the range of the type that is read, and where an unsigned
/// number is read, only if their first bit is clear.
pub proof fn law_integer_ranges(bytes: Seq<u8>, offset: usize)
    ensures
        match signed_outcome(bytes, offset) {
            Ok(v) => bytes.len() > 0 && v == signed_value(bytes),
            Err(_) => bytes.len() == 0 || signed_value(bytes) < -0x8000_0000 || signed_value(bytes)
                > 0x7fff_ffff,
        },
        match unsigned32_outcome(bytes, offset) {
            Ok(n) => bytes.len() > 0 && bytes[0] < 128 && n == be_value(bytes),
            Err(_) => bytes.len() == 0 || bytes[0] >= 128 || be_value(bytes) > 0xffff_ffff,
        },
        match unsigned64_outcome(bytes, offset) {
            Ok(n) => bytes.len() > 0 && bytes[0] < 128 && n == be_value(bytes),
            Err(_) => bytes.len() == 0 || bytes[0] >= 128 || be_value(bytes)
                > 0xffff_ffff_ffff_ffff,
        },
{
    reveal_with_fuel(pow256, 9);
}

/// What is written for a natural number denotes it, both unsigned and in two's complement,
/// and never starts with a byte that could be left out.
pub proof fn law_unsigned_bytes(n: nat)
    ensures
        unsigned_bytes(n).len() >= 1,
        unsigned_bytes(n)[0] < 128,
        be_value(unsigned_bytes(n)) == n,
        unsigned_bytes(n).len() > 1 ==> unsigned_bytes(n)[0] > 0 || unsigned_bytes(n)[1] >= 128,
        be_value(be_bytes(n)) == n,
        be_bytes(n).len() > 1 ==> be_bytes(n)[0] > 0,
{
    lemma_be_bytes(n);
    let padded = seq![0u8] + be_bytes(n);
    assert(padded.skip(1) =~= be_bytes(n));
    lemma_be_value_skip_zero(padded);
}

// ----- Encoding --------------------------------------------------------------

/// The shortest big-endian byte string that denotes `value`.
pub fn encode_big_endian(value: u64) -> (out: Vec<u8>)
    ensures
        out@ == be_bytes(value as nat),
    decreases value,
{
    let mut out: Vec<u8> = if value < 256 {
        Vec::new()
    } else {
        encode_big_endian(value / 256)
    };
    out.push((value % 256) as u8);
    proof {
        assert(out@ =~= be_bytes(value as nat));
    }
    out
}

/// The minimal two's complement contents of an INTEGER.
pub fn encode_signed_i32(value: i32) -> (out: Vec<u8>)
    ensures
        out@ == signed_bytes(value as int),
    decreases (if value < 0 { -value } else { value as int }),
{
    // Shifting by 2^32 makes the operands non-negative and keeps the quotient's floor.
    let shifted: u64 = (value as i64 + 0x1_0000_0000) as u64;
    let low: u8 = (shifted % 256) as u8;
    let mut out: Vec<u8> = if -128 <= value && value < 128 {
        Vec::new()
    } else {
        encode_signed_i32(((shifted / 256) as i64 - 0x100_0000) as i32)
    };
    out.push(low);
    proof {
        assert(out@ =~= signed_bytes(value as int));
    }
    out
}

/// The minimal INTEGER contents for an unsigned 32-bit value.
pub fn encode_unsigned_u32(value: u32) -> (out: Vec<u8>)
    ensures
        out@ == unsigned_bytes(value as nat),
{
    encode_unsigned_u64(value as u64)
}

/// The minimal INTEGER contents for an unsigned 64-bit value.
pub fn encode_unsigned_u64(value: u64) -> (out: Vec<u8>)
    ensures
        out@ == unsigned_bytes(value as nat),
{
    let raw_bytes = encode_big_endian(value);
    proof {
        lemma_be_bytes(value as nat);
    }
    encode_unsigned_bytes(raw_bytes.as_slice())
}

/// The minimal INTEGER contents for the number that `raw_bytes` denote, most
/// significant byte first.
pub fn encode_unsigned_bytes(raw_bytes: &[u8]) -> (out: Vec<u8>)
    requires
        raw_bytes@.len() >= 1,
    ensures
        out@ == unsigned_bytes(be_value(raw_bytes@)),
{
    let significant = strip_zeros(raw_bytes);
    proof {
        lemma_trim_zeros(raw_bytes@);
        lemma_be_value_unique(significant@);
    }
    let mut out: Vec<u8> = Vec::new();
    if significant[0] >= 128 {
        // A sign byte keeps the number positive.
        out.push(0);
    }
    out.extend_from_slice(significant);
    proof {
        assert(out@ =~= unsigned_bytes(be_value(raw_bytes@)));
    }
    out
}

fn strip_zeros(bytes: &[u8]) -> (out: &[u8])
    requires
        bytes@.len() >= 1,
    ensures
        out@ == trim_zeros(bytes@),
{
    let mut start: usize = 0;
    proof {
        assert(bytes@.skip(0) =~= bytes@);
    }
    while bytes.len() - start > 1 && bytes[start] == 0
        invariant
            start < bytes@.len(),
            trim_zeros(bytes@.skip(start as int)) == trim_zeros(bytes@),
        decreases bytes@.len() - start,
    {
        proof {
            assert(bytes@.skip(start as int).skip(1) =~= bytes@.skip(start as int + 1));
        }
        start += 1;
    }
    proof {
        assert(bytes@.subrange(start as int, bytes@.len() as int) =~= bytes@.skip(start as int));
    }
    slice_subrange(bytes, start, bytes.len())
}

fn strip_sign(bytes: &[u8]) -> (out: &[u8])
    requires
        bytes@.len() >= 1,
    ensures
        out@ == trim_sign(bytes@),
{
    let mut start: usize = 0;
    proof {
        assert(bytes@.skip(0) =~= bytes@);
    }
    while bytes.len() - start > 1 && ((bytes[start] == 0 && bytes[start + 1] < 128) || (
    bytes[start] == 255 && bytes[start + 1] >= 128))
        invariant
            start < bytes@.len(),
            trim_sign(bytes@.skip(start as int)) == trim_sign(bytes@),
        decreases bytes@.len() - start,
    {
        proof {
            assert(bytes@.skip(start as int).skip(1) =~= bytes@.skip(start as int + 1));
        }
        start += 1;
    }
    proof {
        assert(bytes@.subrange(start as int, bytes@.len() as int) =~= bytes@.skip(start as int));
    }
    slice_subrange(bytes, start, bytes.len())
}

// ----- Decoding --------------------------------------------------------------

/// Reads the contents of an INTEGER as an `i32`.
pub fn decode_signed_i32(integer_bytes: &[u8], error_offset: usize) -> (result: Result<
    i32,
    BerError,
>)
    ensures
        error::agrees(result, signed_outcome(integer_bytes@, error_offset)),
{
    if integer_bytes.is_empty() {
        return Err(BerError::from_fault(BerFault::EmptyInteger { offset: error_offset }));
    }
    let significant = strip_sign(integer_bytes);
    proof {
        lemma_trim_sign(integer_bytes@);
        lemma_trimmed_i32(integer_bytes@);
    }
    if significant.len() > 4 {
        return Err(
            BerError::from_fault(
                BerFault::SignedTooLarge { bytes: significant.len(), offset: error_offset },
            ),
        );
    }
    let mut value: i64 = if significant[0] < 128 {
        significant[0] as i64
    } else {
        significant[0] as i64 - 256
    };
    let mut i: usize = 1;
    proof {
        assert(significant@.take(1).len() == 1);
    }
    while i < significant.len()
        invariant
            1 <= i <= significant@.len() <= 4,
            value == signed_value(significant@.take(i as int)),
        decreases significant@.len() - i,
    {
        proof {
            reveal_with_fuel(pow256, 4);
            lemma_signed_value_bound(significant@.take(i as int));
            lemma_pow256_mono((i - 1) as nat, 3);
            assert(significant@.take(i as int + 1).drop_last() =~= significant@.take(i as int));
        }
        value = value * 256 + significant[i] as i64;
        i += 1;
    }
    proof {
        assert(significant@.take(significant@.len() as int) =~= significant@);
    }
    Ok(value as i32)
}

/// Reads the contents of an INTEGER as an unsigned number of at most `max_width` bytes.
pub fn decode_unsigned(integer_bytes: &[u8], max_width: usize, error_offset: usize) -> (result:
    Result<u64, BerError>)
    requires
        max_width <= 8,
    ensures
        error::agrees(result, unsigned_outcome(integer_bytes@, max_width as nat, error_offset)),
{
    if integer_bytes.is_empty() {
        return Err(BerError::from_fault(BerFault::EmptyInteger { offset: error_offset }));
    }
    if integer_bytes[0] >= 128 {
        return Err(BerError::from_fault(BerFault::NegativeUnsigned { offset: error_offset }));
    }
    let significant = strip_zeros(integer_bytes);
    proof {
        lemma_trim_zeros(integer_bytes@);
        if max_width > 0 {
            lemma_trimmed_width(integer_bytes@, max_width as nat);
        }
    }
    if significant.len() > max_width {
        return Err(
            BerError::from_fault(
                BerFault::UnsignedTooLarge {
                    bits: max_width * 8,
                    bytes: significant.len(),
                    offset: error_offset,
                },
            ),
        );
    }
    let mut value: u64 = 0;
    let mut i: usize = 0;
    while i < significant.len()
        invariant
            i <= significant@.len() <= 8,
            value == be_value(significant@.take(i as int)),
        decreases significant@.len() - i,
    {
        proof {
            reveal_with_fuel(pow256, 8);
            lemma_be_value_bound(significant@.take(i as int));
            lemma_pow256_mono(i as nat, 7);
            assert(significant@.take(i as int + 1).drop_last() =~= significant@.take(i as int));
        }
        value = value * 256 + significant[i] as u64;
        i += 1;
    }
    proof {
        assert(significant@.take(significant@.len() as int) =~= significant@);
    }
    Ok(value)
}

/// Reads the contents of an INTEGER as a `u32`.
pub fn decode_unsigned_u32(integer_bytes: &[u8], error_offset: usize) -> (result: Result<
    u32,
    BerError,
>)
    ensures
        error::agrees(result, unsigned32_outcome(integer_bytes@, error_offset)),
{
    match decode_unsigned(integer_bytes, 4, error_offset) {
        Ok(value) => {
            proof {
                reveal_with_fuel(pow256, 5);
            }
            Ok(value as u32)
        },
        Err(error) => Err(error),
    }
}

/// Reads the contents of an INTEGER as a `u64`.
pub fn decode_unsigned_u64(integer_bytes: &[u8], error_offset: usize) -> (result: Result<
    u64,
    BerError,
>)
    ensures
        error::agrees(result, unsigned64_outcome(integer_bytes@, error_offset)),
{
    decode_unsigned(integer_bytes, 8, error_offset)
}

/// Contents that are no number of the type that is read are reported at the offset given:
/// as empty, as negative, or as too large, with the number of bytes that count.
pub proof fn law_integer_faults(bytes: Seq<u8>, offset: usize)
    ensures
        bytes.len() == 0 ==> {
            &&& signed_outcome(bytes, offset) == Err::<i32, BerFault>(
                BerFault::EmptyInteger { offset },
            )
            &&& unsigned32_outcome(bytes, offset) == Err::<u32, BerFault>(
                BerFault::EmptyInteger { offset },
            )
            &&& unsigned64_outcome(bytes, offset) == Err::<u64, BerFault>(
                BerFault::EmptyInteger { offset },
            )
        },
        bytes.len() > 0 && bytes[0] >= 128 ==> {
            &&& unsigned32_outcome(bytes, offset) == Err::<u32, BerFault>(
                BerFault::NegativeUnsigned { offset },
            )
            &&& unsigned64_outcome(bytes, offset) == Err::<u64, BerFault>(
                BerFault::NegativeUnsigned { offset },
            )
        },
        bytes.len() > 0 && (signed_value(bytes) > i32::MAX || signed_value(bytes) < i32::MIN) ==> (
        signed_outcome(bytes, offset) matches Err(
            BerFault::SignedTooLarge { bytes: count, offset: place },
        ) && place == offset && (bytes.len() <= usize::MAX ==> 4 < count <= bytes.len())),
        bytes.len() > 0 && bytes[0] < 128 && be_value(bytes) > 0xffff_ffff ==> (unsigned32_outcome(
            bytes,
            offset,
        ) matches Err(BerFault::UnsignedTooLarge { bits, bytes: count, offset: place }) && place
            == offset && bits == 32 && (bytes.len() <= usize::MAX ==> 4 < count <= bytes.len())),
        bytes.len() > 0 && bytes[0] < 128 && be_value(bytes) > 0xffff_ffff_ffff_ffff ==> (
        unsigned64_outcome(bytes, offset) matches Err(
            BerFault::UnsignedTooLarge { bits, bytes: count, offset: place },
        ) && place == offset && bits == 64 && (bytes.len() <= usize::MAX ==> 8 < count
            <= bytes.len())),
{
    reveal_with_fuel(pow256, 9);
    if bytes.len() > 0 {
        lemma_trim_sign(bytes);
        lemma_trimmed_i32(bytes);
        lemma_trim_zeros(bytes);
        lemma_trimmed_width(bytes, 4);
        lemma_trimmed_width(bytes, 8);
    }
}

} // verus!
