//! Tag-length-value triples: how they are written and how they are read.

use vstd::prelude::*;
use crate::codec::ber::error::{BerFault, BerType};
use crate::codec::ber::integer;
use crate::codec::ber::oid;
use crate::codec::ber::tag::{
    TAG_INTEGER, TAG_NULL, TAG_OCTET_STRING, TAG_OID, TAG_SEQUENCE,
};

verus! {

// ----- Writing -----------------------------------------------------------------

/// The length field for `n` bytes: short form below 128, else the shortest long form.
pub open spec fn length_bytes(n: nat) -> Seq<u8> {
    if n < 128 {
        seq![n as u8]
    } else {
        seq![(128 + integer::be_bytes(n).len()) as u8] + integer::be_bytes(n)
    }
}

/// The triple of `tag`, the length of `value` and `value`.
#[verifier::opaque]
pub open spec fn tlv_bytes(tag: u8, value: Seq<u8>) -> Seq<u8> {
    seq![tag] + length_bytes(value.len()) + value
}

/// An INTEGER triple for `v`.
pub open spec fn integer_tlv(v: int) -> Seq<u8> {
    tlv_bytes(TAG_INTEGER, integer::signed_bytes(v))
}

/// A triple under `tag` for the unsigned number `n`.
pub open spec fn unsigned_tlv(tag: u8, n: nat) -> Seq<u8> {
    tlv_bytes(tag, integer::unsigned_bytes(n))
}

/// An OCTET STRING triple.
pub open spec fn octets_tlv(bytes: Seq<u8>) -> Seq<u8> {
    tlv_bytes(TAG_OCTET_STRING, bytes)
}

/// An OBJECT IDENTIFIER triple.
pub open spec fn oid_tlv(arcs: Seq<u32>) -> Seq<u8> {
    tlv_bytes(TAG_OID, oid::oid_bytes(arcs))
}

/// A SEQUENCE triple.
pub open spec fn sequence_tlv(contents: Seq<u8>) -> Seq<u8> {
    tlv_bytes(TAG_SEQUENCE, contents)
}

/// A NULL triple.
pub open spec fn null_tlv() -> Seq<u8> {
    seq![TAG_NULL, 0u8]
}

// ----- Reading -----------------------------------------------------------------

/// The outcome of one read, and how many bytes it takes whether it succeeds or not.
pub struct Step<T> {
    /// What is read, or the fault.
    pub outcome: Result<T, BerFault>,
    /// The number of bytes taken.
    pub used: nat,
}

/// A place in a message: the bytes still to be read, and the absolute offset of the
/// first of them.
#[verifier::ext_equal]
pub struct Cursor {
    /// The bytes still to be read.
    pub rest: Seq<u8>,
    /// The absolute offset of the first of them.
    pub at: int,
}

impl Cursor {
    /// The place `n` bytes further on.
    pub open spec fn advance(self, n: nat) -> Cursor {
        Cursor { rest: self.rest.skip(n as int), at: self.at + n }
    }

    /// The next tag, without taking it.
    pub open spec fn peek(self) -> Result<u8, BerFault> {
        if self.rest.len() == 0 {
            Err(BerFault::MissingTag { offset: self.at as usize })
        } else {
            Ok(self.rest[0])
        }
    }

    /// The next tag.
    pub open spec fn tag(self) -> Step<u8> {
        match self.peek() {
            Ok(tag) => Step { outcome: Ok(tag), used: 1 },
            Err(fault) => Step { outcome: Err(fault), used: 0 },
        }
    }

    /// A length field.
    pub open spec fn length(self) -> Step<usize> {
        if self.rest.len() == 0 {
            Step { outcome: Err(BerFault::MissingLength { offset: self.at as usize }), used: 0 }
        } else if self.rest[0] < 128 {
            Step { outcome: Ok(self.rest[0] as usize), used: 1 }
        } else {
            let extra = (self.rest[0] - 128) as nat;
            let offset = (self.at + 1) as usize;
            if extra == 0 {
                Step { outcome: Err(BerFault::IndefiniteLength { offset }), used: 1 }
            } else if self.rest.len() < 1 + extra {
                Step {
                    outcome: Err(BerFault::TruncatedLength { need: extra as usize, offset }),
                    used: 1,
                }
            } else {
                let value = integer::be_value(self.rest.subrange(1, 1 + extra as int));
                if value > usize::MAX {
                    Step {
                        outcome: Err(
                            BerFault::LengthOverflow { offset: (self.at + 1 + extra) as usize },
                        ),
                        used: 1 + extra,
                    }
                } else {
                    Step { outcome: Ok(value as usize), used: 1 + extra }
                }
            }
        }
    }

    /// A triple: its tag and its value.
    #[verifier::opaque]
    pub open spec fn tlv(self) -> Step<(u8, Seq<u8>)> {
        match self.peek() {
            Err(fault) => Step { outcome: Err(fault), used: 0 },
            Ok(tag) => {
                let length = self.advance(1).length();
                let header = 1 + length.used;
                match length.outcome {
                    Err(fault) => Step { outcome: Err(fault), used: header },
                    Ok(n) => {
                        let remaining = self.rest.len() - header;
                        if n > remaining {
                            Step {
                                outcome: Err(
                                    BerFault::TruncatedValue {
                                        length: n,
                                        remaining: remaining as usize,
                                        tag,
                                        offset: (self.at + header) as usize,
                                    },
                                ),
                                used: header,
                            }
                        } else {
                            Step {
                                outcome: Ok(
                                    (tag, self.rest.subrange(header as int, header + n)),
                                ),
                                used: header + n as nat,
                            }
                        }
                    },
                }
            },
        }
    }

    /// The value of a triple of the primitive type `wanted` under the tag `expected`.
    pub open spec fn primitive(self, wanted: BerType, expected: u8) -> Step<Seq<u8>> {
        let triple = self.tlv();
        match triple.outcome {
            Err(fault) => Step { outcome: Err(fault), used: triple.used },
            Ok((tag, value)) => if tag != expected {
                Step {
                    outcome: Err(
                        BerFault::UnexpectedType {
                            wanted,
                            expected,
                            found: tag,
                            offset: self.at as usize,
                        },
                    ),
                    used: triple.used,
                }
            } else {
                Step { outcome: Ok(value), used: triple.used }
            },
        }
    }

    /// The place of the contents of a constructed triple under the tag `expected`.
    pub open spec fn constructed(self, expected: u8) -> Step<Cursor> {
        let triple = self.tlv();
        match triple.outcome {
            Err(fault) => Step { outcome: Err(fault), used: triple.used },
            Ok((tag, value)) => if tag != expected {
                Step {
                    outcome: Err(
                        BerFault::UnexpectedTag { expected, found: tag, offset: self.at as usize },
                    ),
                    used: triple.used,
                }
            } else {
                Step {
                    outcome: Ok(
                        Cursor { rest: value, at: self.at + triple.used - value.len() },
                    ),
                    used: triple.used,
                }
            },
        }
    }

    /// The place of the contents of a SEQUENCE.
    pub open spec fn sequence(self) -> Step<Cursor> {
        self.constructed(TAG_SEQUENCE)
    }

    /// An INTEGER that fits in `i32`.
    pub open spec fn integer(self) -> Step<i32> {
        let step = self.primitive(BerType::Integer, TAG_INTEGER);
        Step {
            outcome: match step.outcome {
                Ok(bytes) => integer::signed_outcome(bytes, self.at as usize),
                Err(fault) => Err(fault),
            },
            used: step.used,
        }
    }

    /// An unsigned number of at most 32 bits.
    pub open spec fn unsigned32(self, wanted: BerType, expected: u8) -> Step<u32> {
        let step = self.primitive(wanted, expected);
        Step {
            outcome: match step.outcome {
                Ok(bytes) => integer::unsigned32_outcome(bytes, self.at as usize),
                Err(fault) => Err(fault),
            },
            used: step.used,
        }
    }

    /// An unsigned number of at most 64 bits.
    pub open spec fn unsigned64(self, wanted: BerType, expected: u8) -> Step<u64> {
        let step = self.primitive(wanted, expected);
        Step {
            outcome: match step.outcome {
                Ok(bytes) => integer::unsigned64_outcome(bytes, self.at as usize),
                Err(fault) => Err(fault),
            },
            used: step.used,
        }
    }

    /// The contents of an OCTET STRING.
    pub open spec fn octets(self) -> Step<Seq<u8>> {
        self.primitive(BerType::OctetString, TAG_OCTET_STRING)
    }

    /// A NULL.
    pub open spec fn null(self) -> Step<()> {
        let step = self.primitive(BerType::Null, TAG_NULL);
        Step {
            outcome: match step.outcome {
                Ok(bytes) => if bytes.len() > 0 {
                    Err(
                        BerFault::NullLength {
                            length: bytes.len() as usize,
                            offset: self.at as usize,
                        },
                    )
                } else {
                    Ok(())
                },
                Err(fault) => Err(fault),
            },
            used: step.used,
        }
    }

    /// The arcs of an OBJECT IDENTIFIER.
    pub open spec fn oid(self) -> Step<Seq<u32>> {
        let step = self.primitive(BerType::Oid, TAG_OID);
        Step {
            outcome: match step.outcome {
                Ok(bytes) => oid::oid_outcome(bytes, self.at as usize),
                Err(fault) => Err(fault),
            },
            used: step.used,
        }
    }
}

// ----- Laws ------------------------------------------------------------------

/// A length field is read back as the length that it was written for.
pub proof fn law_length_round_trip(n: usize, tail: Seq<u8>, at: int)
    ensures
        (Cursor { rest: length_bytes(n as nat) + tail, at }).length() == (Step {
            outcome: Ok::<usize, BerFault>(n),
            used: length_bytes(n as nat).len(),
        }),
{
    let own = length_bytes(n as nat);
    if n >= 128 {
        let digits = integer::be_bytes(n as nat);
        integer::lemma_be_bytes(n as nat);
        lemma_usize_width(n);
        assert(own[0] == 128 + digits.len());
        assert((own + tail)[0] == own[0]);
        assert((own + tail).subrange(1, 1 + digits.len() as int) =~= digits);
    } else {
        assert((own + tail)[0] == n);
    }
}

/// A `usize` takes at most eight big-endian bytes.
pub proof fn lemma_usize_width(n: usize)
    ensures
        integer::be_bytes(n as nat).len() <= 8,
{
    reveal_with_fuel(integer::pow256, 9);
    integer::lemma_be_bytes_len(n as nat, 8);
}

/// A triple is read back as the tag and the value that it was written for, and reading
/// it takes exactly its bytes.
pub proof fn law_tlv_round_trip(tag: u8, value: Seq<u8>, tail: Seq<u8>, at: int)
    requires
        value.len() <= usize::MAX,
    ensures
        (Cursor { rest: tlv_bytes(tag, value) + tail, at }).tlv() == (Step {
            outcome: Ok::<(u8, Seq<u8>), BerFault>((tag, value)),
            used: tlv_bytes(tag, value).len(),
        }),
{
    reveal(tlv_bytes);
    reveal(Cursor::tlv);
    let place = Cursor { rest: tlv_bytes(tag, value) + tail, at };
    let field = length_bytes(value.len());
    law_length_round_trip(value.len() as usize, value + tail, at + 1);
    assert(place.rest.skip(1) =~= field + (value + tail));
    assert(place.rest[0] == tag);
    let header = 1 + field.len();
    assert(place.rest.subrange(header as int, (header + value.len()) as int) =~= value);
}

/// A triple written under a tag is read back by a read of that tag.
pub proof fn law_primitive_round_trip(
    wanted: BerType,
    tag: u8,
    value: Seq<u8>,
    tail: Seq<u8>,
    at: int,
)
    requires
        value.len() <= usize::MAX,
    ensures
        (Cursor { rest: tlv_bytes(tag, value) + tail, at }).primitive(wanted, tag) == (Step {
            outcome: Ok::<Seq<u8>, BerFault>(value),
            used: tlv_bytes(tag, value).len(),
        }),
        (Cursor { rest: tlv_bytes(tag, value) + tail, at }).constructed(tag) == (Step {
            outcome: Ok::<Cursor, BerFault>(
                Cursor { rest: value, at: at + tlv_bytes(tag, value).len() - value.len() },
            ),
            used: tlv_bytes(tag, value).len(),
        }),
{
    law_tlv_round_trip(tag, value, tail, at);
}

/// An INTEGER is read back as the number that it was written for.
pub proof fn law_integer_round_trip(v: i32, tail: Seq<u8>, at: int)
    ensures
        (Cursor { rest: integer_tlv(v as int) + tail, at }).integer() == (Step {
            outcome: Ok::<i32, BerFault>(v),
            used: integer_tlv(v as int).len(),
        }),
{
    let bytes = integer::signed_bytes(v as int);
    lemma_signed_width(v);
    integer::law_signed_round_trip(v, at as usize);
    law_primitive_round_trip(BerType::Integer, TAG_INTEGER, bytes, tail, at);
}

/// The contents of an INTEGER written from an `i32` take one to four bytes.
pub proof fn lemma_signed_width(v: i32)
    ensures
        1 <= integer::signed_bytes(v as int).len() <= 4,
{
    integer::lemma_signed_bytes(v as int);
    integer::lemma_trimmed_i32(integer::signed_bytes(v as int));
    reveal_with_fuel(integer::signed_bytes, 4);
}

/// The contents of an INTEGER written from a `u64` take one to nine bytes.
pub proof fn lemma_unsigned_width(n: u64)
    ensures
        1 <= integer::unsigned_bytes(n as nat).len() <= 9,
{
    reveal_with_fuel(integer::pow256, 9);
    integer::lemma_be_bytes(n as nat);
    integer::lemma_be_bytes_len(n as nat, 8);
}

/// An unsigned number of 32 bits is read back under the tag that it was written under.
pub proof fn law_unsigned32_round_trip(wanted: BerType, tag: u8, n: u32, tail: Seq<u8>, at: int)
    ensures
        (Cursor { rest: unsigned_tlv(tag, n as nat) + tail, at }).unsigned32(wanted, tag) == (Step {
            outcome: Ok::<u32, BerFault>(n),
            used: unsigned_tlv(tag, n as nat).len(),
        }),
{
    reveal_with_fuel(integer::pow256, 5);
    lemma_unsigned_width(n as u64);
    integer::law_unsigned_round_trip(n as nat, 4, at as usize);
    law_primitive_round_trip(wanted, tag, integer::unsigned_bytes(n as nat), tail, at);
}

/// An unsigned number of 64 bits is read back under the tag that it was written under.
pub proof fn law_unsigned64_round_trip(wanted: BerType, tag: u8, n: u64, tail: Seq<u8>, at: int)
    ensures
        (Cursor { rest: unsigned_tlv(tag, n as nat) + tail, at }).unsigned64(wanted, tag) == (Step {
            outcome: Ok::<u64, BerFault>(n),
            used: unsigned_tlv(tag, n as nat).len(),
        }),
{
    reveal_with_fuel(integer::pow256, 9);
    lemma_unsigned_width(n);
    integer::law_unsigned_round_trip(n as nat, 8, at as usize);
    law_primitive_round_trip(wanted, tag, integer::unsigned_bytes(n as nat), tail, at);
}

/// An OCTET STRING is read back as the bytes that it was written for.
pub proof fn law_octets_round_trip(bytes: Seq<u8>, tail: Seq<u8>, at: int)
    requires
        bytes.len() <= usize::MAX,
    ensures
        (Cursor { rest: octets_tlv(bytes) + tail, at }).octets() == (Step {
            outcome: Ok::<Seq<u8>, BerFault>(bytes),
            used: octets_tlv(bytes).len(),
        }),
{
    law_primitive_round_trip(BerType::OctetString, TAG_OCTET_STRING, bytes, tail, at);
}

/// A NULL is read back.
pub proof fn law_null_round_trip(tail: Seq<u8>, at: int)
    ensures
        (Cursor { rest: null_tlv() + tail, at }).null() == (Step {
            outcome: Ok::<(), BerFault>(()),
            used: 2,
        }),
{
    lemma_empty_tlv(TAG_NULL);
    law_primitive_round_trip(BerType::Null, TAG_NULL, Seq::empty(), tail, at);
}

/// An OBJECT IDENTIFIER of at most [`oid::MAX_ARCS`] arcs is read back as the arcs that
/// it was written for.
pub proof fn law_oid_tlv_round_trip(arcs: Seq<u32>, tail: Seq<u8>, at: int)
    requires
        crate::codec::oid::valid_arcs(arcs),
        arcs.len() <= oid::MAX_ARCS,
    ensures
        (Cursor { rest: oid_tlv(arcs) + tail, at }).oid() == (Step {
            outcome: Ok::<Seq<u32>, BerFault>(arcs),
            used: oid_tlv(arcs).len(),
        }),
{
    oid::lemma_oid_bytes_len(arcs);
    oid::law_oid_round_trip(arcs, at as usize);
    law_primitive_round_trip(BerType::Oid, TAG_OID, oid::oid_bytes(arcs), tail, at);
}

/// Reading a triple never takes more bytes than there are, nor none when it succeeds.
pub proof fn law_tlv_progress(place: Cursor)
    ensures
        place.tlv().used <= place.rest.len(),
        place.tlv().outcome is Ok ==> place.tlv().used >= 2,
        place.tlv().outcome matches Ok((_, value)) ==> value == place.rest.subrange(
            place.tlv().used - value.len(),
            place.tlv().used as int,
        ) && value.len() + 2 <= place.tlv().used,
        place.tlv().outcome matches Ok((tag, _)) ==> place.peek() == Ok::<u8, BerFault>(tag),
{
    reveal(Cursor::tlv);
}

/// A length field of up to 127 bytes is one byte that holds the length. A longer one starts
/// with 128 more than the number of bytes that follow, which denote the length and do not
/// start with zero.
pub proof fn law_length_form(n: usize)
    ensures
        n < 128 ==> length_bytes(n as nat) == seq![n as u8],
        n >= 128 ==> ({
            let field = length_bytes(n as nat);
            &&& field.len() >= 2
            &&& field[0] == 128 + (field.len() - 1)
            &&& field[1] != 0
            &&& integer::be_value(field.skip(1)) == n
        }),
{
    if n >= 128 {
        integer::lemma_be_bytes(n as nat);
        lemma_usize_width(n);
        assert(length_bytes(n as nat).skip(1) =~= integer::be_bytes(n as nat));
    }
}

/// A long length field is read as the number that its bytes denote, however many leading
/// zeros they have, unless it is beyond the range of `usize`. The byte 128 alone, which
/// would leave the length open, is refused.
pub proof fn law_long_length(digits: Seq<u8>, tail: Seq<u8>, at: int)
    requires
        digits.len() <= 127,
    ensures
        ({
            let place = Cursor { rest: seq![(128 + digits.len()) as u8] + digits + tail, at };
            &&& digits.len() == 0 ==> place.length().outcome is Err
            &&& digits.len() > 0 && integer::be_value(digits) <= usize::MAX
                ==> place.length().outcome == Ok::<usize, BerFault>(
                integer::be_value(digits) as usize,
            ) && place.length().used == 1 + digits.len()
            &&& integer::be_value(digits) > usize::MAX ==> place.length().outcome is Err
        }),
{
    let place = Cursor { rest: seq![(128 + digits.len()) as u8] + digits + tail, at };
    assert(place.rest[0] == 128 + digits.len());
    assert(place.rest.subrange(1, 1 + digits.len() as int) =~= digits);
}

/// A triple is its tag, the length field of its value and its value, one after the other.
pub proof fn law_tlv_layout(tag: u8, value: Seq<u8>)
    ensures
        ({
            let whole = tlv_bytes(tag, value);
            let start = whole.len() - value.len();
            &&& start >= 2
            &&& whole[0] == tag
            &&& whole.subrange(1, start) == length_bytes(value.len())
            &&& whole.skip(start) == value
        }),
{
    reveal(tlv_bytes);
    integer::lemma_be_bytes(value.len());
    let whole = tlv_bytes(tag, value);
    let start = whole.len() - value.len();
    assert(whole.subrange(1, start) =~= length_bytes(value.len()));
    assert(whole.skip(start) =~= value);
}

/// A tag, a length field that is read as the length of a value, and the value are read as
/// that tag and that value, in whatever form the length is written.
pub proof fn law_tlv_read(tag: u8, field: Seq<u8>, value: Seq<u8>, tail: Seq<u8>, at: int)
    requires
        (Cursor { rest: field + value + tail, at: at + 1 }).length().outcome == Ok::<
            usize,
            BerFault,
        >(value.len() as usize),
        (Cursor { rest: field + value + tail, at: at + 1 }).length().used == field.len(),
        value.len() <= usize::MAX,
    ensures
        (Cursor { rest: seq![tag] + field + value + tail, at }).tlv() == (Step {
            outcome: Ok::<(u8, Seq<u8>), BerFault>((tag, value)),
            used: 1 + field.len() + value.len(),
        }),
{
    reveal(Cursor::tlv);
    let place = Cursor { rest: seq![tag] + field + value + tail, at };
    assert(place.rest.skip(1) =~= field + value + tail);
    let header = 1 + field.len() as int;
    assert(place.rest.subrange(header, header + value.len()) =~= value);
}

/// A value that is announced as longer than what is left is refused, with its tag, the
/// length that is announced, what is left, and the place where the value should start.
pub proof fn law_truncated_value(place: Cursor)
    requires
        place.rest.len() > 0,
        place.advance(1).length().outcome matches Ok(n) && n > place.rest.len() - 1
            - place.advance(1).length().used,
    ensures
        ({
            let field = place.advance(1).length();
            place.tlv().outcome == Err::<(u8, Seq<u8>), BerFault>(
                BerFault::TruncatedValue {
                    length: field.outcome->Ok_0,
                    remaining: (place.rest.len() - 1 - field.used) as usize,
                    tag: place.rest[0],
                    offset: (place.at + 1 + field.used) as usize,
                },
            )
        }),
{
    reveal(Cursor::tlv);
}

/// Where nothing is left, a tag and a length are missed at that very place. A long length
/// field with fewer bytes than it announces is refused with their number.
pub proof fn law_missing_bytes(place: Cursor)
    ensures
        place.rest.len() == 0 ==> {
            let offset = place.at as usize;
            &&& place.peek() == Err::<u8, BerFault>(BerFault::MissingTag { offset })
            &&& place.tlv().outcome == Err::<(u8, Seq<u8>), BerFault>(
                BerFault::MissingTag { offset },
            )
            &&& place.tlv().used == 0
            &&& place.length().outcome == Err::<usize, BerFault>(BerFault::MissingLength { offset })
        },
        place.rest.len() > 0 ==> place.peek() == Ok::<u8, BerFault>(place.rest[0]),
        place.rest.len() > 0 && place.rest[0] == 128 ==> place.length().outcome == Err::<
            usize,
            BerFault,
        >(BerFault::IndefiniteLength { offset: (place.at + 1) as usize }),
        place.rest.len() > 0 && place.rest[0] > 128 && place.rest.len() - 1 < place.rest[0] - 128
            ==> place.length().outcome == Err::<usize, BerFault>(
            BerFault::TruncatedLength {
                need: (place.rest[0] - 128) as usize,
                offset: (place.at + 1) as usize,
            },
        ),
{
    reveal(Cursor::tlv);
}

/// A read of a type succeeds only on a triple of its tag, gives what the contents of that
/// triple stand for, and takes the triple whether it succeeds or not. A triple of another
/// tag is reported with both tags and with the place where it starts.
pub proof fn law_typed_reads(place: Cursor)
    requires
        place.tlv().outcome is Ok,
    ensures
        ({
            let tag = place.tlv().outcome->Ok_0.0;
            let value = place.tlv().outcome->Ok_0.1;
            let used = place.tlv().used;
            &&& place.integer().used == used && place.octets().used == used
            &&& place.oid().used == used && place.null().used == used
            &&& place.sequence().used == used
            &&& place.octets().outcome is Ok <==> tag == 0x04
            &&& tag == 0x04 ==> place.octets().outcome->Ok_0 == value
            &&& place.sequence().outcome is Ok <==> tag == 0x30
            &&& tag == 0x30 ==> place.sequence().outcome->Ok_0.rest == value
                && place.sequence().outcome->Ok_0.at == place.at + used - value.len()
            &&& place.null().outcome is Ok <==> tag == 0x05 && value.len() == 0
            &&& place.integer().outcome matches Ok(v) ==> tag == 0x02 && v
                == integer::signed_value(value)
            &&& tag == 0x02 && value.len() > 0 && -0x8000_0000 <= integer::signed_value(value)
                <= 0x7fff_ffff ==> place.integer().outcome is Ok
            &&& place.oid().outcome matches Ok(arcs) ==> tag == 0x06 && value == oid::oid_bytes(
                arcs,
            )
            &&& tag == 0x02 ==> place.integer().outcome == integer::signed_outcome(
                value,
                place.at as usize,
            )
            &&& tag == 0x06 ==> place.oid().outcome == oid::oid_outcome(value, place.at as usize)
            &&& tag == 0x05 && value.len() > 0 ==> place.null().outcome == Err::<(), BerFault>(
                BerFault::NullLength { length: value.len() as usize, offset: place.at as usize },
            )
            &&& tag != 0x02 ==> place.integer().outcome == Err::<i32, BerFault>(
                BerFault::UnexpectedType {
                    wanted: BerType::Integer,
                    expected: 0x02,
                    found: tag,
                    offset: place.at as usize,
                },
            )
            &&& tag != 0x04 ==> place.octets().outcome == Err::<Seq<u8>, BerFault>(
                BerFault::UnexpectedType {
                    wanted: BerType::OctetString,
                    expected: 0x04,
                    found: tag,
                    offset: place.at as usize,
                },
            )
            &&& tag != 0x06 ==> place.oid().outcome == Err::<Seq<u32>, BerFault>(
                BerFault::UnexpectedType {
                    wanted: BerType::Oid,
                    expected: 0x06,
                    found: tag,
                    offset: place.at as usize,
                },
            )
            &&& tag != 0x30 ==> place.sequence().outcome == Err::<Cursor, BerFault>(
                BerFault::UnexpectedTag { expected: 0x30, found: tag, offset: place.at as usize },
            )
        }),
{
    let value = place.tlv().outcome->Ok_0.1;
    oid::law_oid_canonical(value, place.at as usize);
}

/// The contents of a triple are shorter than the triple, which starts with the tag.
pub proof fn lemma_tlv_len(tag: u8, value: Seq<u8>)
    ensures
        value.len() + 2 <= tlv_bytes(tag, value).len(),
        tlv_bytes(tag, value)[0] == tag,
{
    reveal(tlv_bytes);
    integer::lemma_be_bytes(value.len());
}

/// A triple without contents.
pub proof fn lemma_empty_tlv(tag: u8)
    ensures
        tlv_bytes(tag, Seq::empty()) == seq![tag, 0u8],
{
    reveal(tlv_bytes);
    assert(tlv_bytes(tag, Seq::empty()) =~= seq![tag, 0u8]);
}

} // verus!
