//! Reading BER.

use vstd::prelude::*;
use vstd::slice::slice_subrange;
use crate::codec::ber::error;
use crate::codec::ber::error::{BerError, BerFault, BerType};
use crate::codec::ber::integer;
use crate::codec::ber::integer::{decode_signed_i32, decode_unsigned_u32, decode_unsigned_u64};
use crate::codec::ber::oid;
use crate::codec::ber::oid::decode_oid;
use crate::codec::ber::tag::{
    TAG_INTEGER, TAG_NULL, TAG_OCTET_STRING, TAG_OID, TAG_SEQUENCE,
};
use crate::codec::ber::tlv;
use crate::codec::ber::tlv::Cursor;
use crate::codec::oid::Oid;

verus! {

/// A cursor over BER-encoded bytes. Its view is the place that it has reached.
#[derive(Debug)]
pub struct BerReader<'a> {
    input: &'a [u8],
    position: usize,
    base_offset: usize,
}

impl<'a> View for BerReader<'a> {
    type V = Cursor;

    closed spec fn view(&self) -> Cursor {
        Cursor {
            rest: self.input@.skip(self.position as int),
            at: self.base_offset + self.position,
        }
    }
}

/// Whether `result` is the value that `outcome` prescribes, or the error that reports
/// its fault.
pub open spec fn bytes_agree(
    result: Result<&[u8], BerError>,
    outcome: Result<Seq<u8>, BerFault>,
) -> bool {
    match (result, outcome) {
        (Ok(value), Ok(bytes)) => value@ == bytes,
        (Err(error), Err(fault)) => error.reports(fault),
        _ => false,
    }
}

/// Whether `result` reads on at the place that `outcome` prescribes, or is the error
/// that reports its fault.
pub open spec fn reader_agrees(
    result: Result<BerReader<'_>, BerError>,
    outcome: Result<Cursor, BerFault>,
) -> bool {
    match (result, outcome) {
        (Ok(reader), Ok(place)) => reader@ == place,
        (Err(error), Err(fault)) => error.reports(fault),
        _ => false,
    }
}

impl<'a> BerReader<'a> {
    #[verifier::type_invariant]
    spec fn in_bounds(self) -> bool {
        &&& self.position <= self.input@.len()
        &&& self.base_offset + self.input@.len() <= usize::MAX
    }

    /// A reader at the start of a message.
    pub fn new(input: &'a [u8]) -> (reader: Self)
        ensures
            reader@ == (Cursor { rest: input@, at: 0 }),
    {
        proof {
            assert(input.len() <= usize::MAX);
        }
        BerReader::new_with_offset(input, 0)
    }

    /// A reader over bytes that start at `base_offset` in the enclosing message.
    pub fn new_with_offset(input: &'a [u8], base_offset: usize) -> (reader: Self)
        requires
            base_offset + input@.len() <= usize::MAX,
        ensures
            reader@ == (Cursor { rest: input@, at: base_offset as int }),
    {
        let reader = BerReader { input, position: 0, base_offset };
        proof {
            assert(reader@.rest =~= input@);
        }
        reader
    }

    /// The next tag, left in place.
    pub fn peek_tag(&self) -> (result: Result<u8, BerError>)
        ensures
            error::agrees(result, self@.peek()),
    {
        proof {
            use_type_invariant(self);
        }
        if self.position < self.input.len() {
            Ok(self.input[self.position])
        } else {
            Err(BerError::from_fault(BerFault::MissingTag { offset: self.offset() }))
        }
    }

    /// Reads a tag.
    pub fn read_tag(&mut self) -> (result: Result<u8, BerError>)
        ensures
            error::agrees(result, old(self)@.tag().outcome),
            final(self)@ == old(self)@.advance(old(self)@.tag().used),
    {
        proof {
            use_type_invariant(&*self);
            assert(self@.advance(0) =~= self@);
        }
        match self.peek_tag() {
            Ok(tag) => {
                self.position = self.position + 1;
                proof {
                    assert(self@ =~= old(self)@.advance(1));
                }
                Ok(tag)
            },
            Err(error) => Err(error),
        }
    }

    /// Reads a length field.
    pub fn read_length(&mut self) -> (result: Result<usize, BerError>)
        ensures
            error::agrees(result, old(self)@.length().outcome),
            final(self)@ == old(self)@.advance(old(self)@.length().used),
    {
        proof {
            use_type_invariant(&*self);
            assert(self@.advance(0) =~= self@);
        }
        if self.position >= self.input.len() {
            return Err(BerError::from_fault(BerFault::MissingLength { offset: self.offset() }));
        }
        let first_byte: u8 = self.input[self.position];
        self.position = self.position + 1;
        proof {
            assert(self@ =~= old(self)@.advance(1));
        }
        if first_byte < 128 {
            return Ok(first_byte as usize);
        }
        let extra: usize = (first_byte - 128) as usize;
        if extra == 0 {
            return Err(
                BerError::from_fault(BerFault::IndefiniteLength { offset: self.offset() }),
            );
        }
        if self.input.len() - self.position < extra {
            return Err(
                BerError::from_fault(
                    BerFault::TruncatedLength { need: extra, offset: self.offset() },
                ),
            );
        }
        let length_bytes = slice_subrange(self.input, self.position, self.position + extra);
        proof {
            assert(length_bytes@ =~= old(self)@.rest.subrange(1, 1 + extra as int));
        }
        self.position = self.position + extra;
        proof {
            assert(self@ =~= old(self)@.advance((1 + extra) as nat));
        }
        match big_endian_usize(length_bytes) {
            Some(length) => Ok(length),
            None => Err(BerError::from_fault(BerFault::LengthOverflow { offset: self.offset() })),
        }
    }

    /// Reads a triple: its tag and its value.
    pub fn read_tlv(&mut self) -> (result: Result<(u8, &'a [u8]), BerError>)
        ensures
            match (result, old(self)@.tlv().outcome) {
                (Ok((tag, value)), Ok((wanted_tag, wanted_value))) => tag == wanted_tag && value@
                    == wanted_value,
                (Err(error), Err(fault)) => error.reports(fault),
                _ => false,
            },
            final(self)@ == old(self)@.advance(old(self)@.tlv().used),
            final(self)@.at <= usize::MAX,
    {
        proof {
            use_type_invariant(&*self);
            reveal(Cursor::tlv);
        }
        let tag: u8 = match self.read_tag() {
            Ok(tag) => tag,
            Err(error) => {
                return Err(error);
            },
        };
        let ghost after_tag = self@;
        let length: usize = match self.read_length() {
            Ok(length) => length,
            Err(error) => {
                proof {
                    use_type_invariant(&*self);
                    assert(self@ =~= old(self)@.advance(old(self)@.tlv().used));
                }
                return Err(error);
            },
        };
        let ghost header = 1 + after_tag.length().used;
        proof {
            use_type_invariant(&*self);
            assert(self@ =~= old(self)@.advance(header));
        }
        let remaining: usize = self.input.len() - self.position;
        let ghost at_value = self@;
        proof {
            tlv::law_tlv_progress(old(self)@);
            assert(at_value.rest.len() == remaining);
            assert(remaining == old(self)@.rest.len() - header);
        }
        if length > remaining {
            return Err(
                BerError::from_fault(
                    BerFault::TruncatedValue { length, remaining, tag, offset: self.offset() },
                ),
            );
        }
        let value = slice_subrange(self.input, self.position, self.position + length);
        proof {
            assert(value@ =~= at_value.rest.take(length as int));
            assert(value@ =~= old(self)@.rest.subrange(header as int, header + length));
        }
        self.position = self.position + length;
        proof {
            assert(self@.rest =~= at_value.rest.skip(length as int));
            assert(self@ =~= old(self)@.advance(header + length as nat));
        }
        Ok((tag, value))
    }

    fn read_expected_tlv(&mut self, expected_tag: u8, wanted: BerType) -> (result: Result<
        &'a [u8],
        BerError,
    >)
        ensures
            bytes_agree(result, old(self)@.primitive(wanted, expected_tag).outcome),
            final(self)@ == old(self)@.advance(old(self)@.primitive(wanted, expected_tag).used),
            0 <= old(self)@.at <= usize::MAX,
            final(self)@.at <= usize::MAX,
    {
        let tag_start_offset: usize = self.offset();
        match self.read_tlv() {
            Ok((tag, value)) => if tag != expected_tag {
                Err(
                    BerError::from_fault(
                        BerFault::UnexpectedType {
                            wanted,
                            expected: expected_tag,
                            found: tag,
                            offset: tag_start_offset,
                        },
                    ),
                )
            } else {
                Ok(value)
            },
            Err(error) => Err(error),
        }
    }

    /// Reads a SEQUENCE and returns a reader over its contents.
    pub fn read_sequence(&mut self) -> (result: Result<BerReader<'a>, BerError>)
        ensures
            reader_agrees(result, old(self)@.sequence().outcome),
            final(self)@ == old(self)@.advance(old(self)@.sequence().used),
    {
        self.read_constructed(TAG_SEQUENCE)
    }

    /// Reads a constructed triple under `expected_tag` and returns a reader over its
    /// contents.
    pub fn read_constructed(&mut self, expected_tag: u8) -> (result: Result<
        BerReader<'a>,
        BerError,
    >)
        ensures
            reader_agrees(result, old(self)@.constructed(expected_tag).outcome),
            final(self)@ == old(self)@.advance(old(self)@.constructed(expected_tag).used),
    {
        let tag_start_offset: usize = self.offset();
        match self.read_tlv() {
            Ok((tag, contents)) => {
                if tag != expected_tag {
                    return Err(
                        BerError::from_fault(
                            BerFault::UnexpectedTag {
                                expected: expected_tag,
                                found: tag,
                                offset: tag_start_offset,
                            },
                        ),
                    );
                }
                proof {
                    tlv::law_tlv_progress(old(self)@);
                }
                let contents_offset: usize = self.offset() - contents.len();
                Ok(BerReader::new_with_offset(contents, contents_offset))
            },
            Err(error) => Err(error),
        }
    }

    /// Reads an INTEGER that fits in `i32`.
    pub fn read_integer(&mut self) -> (result: Result<i32, BerError>)
        ensures
            error::agrees(result, old(self)@.integer().outcome),
            final(self)@ == old(self)@.advance(old(self)@.integer().used),
    {
        let tag_start_offset: usize = self.offset();
        match self.read_expected_tlv(TAG_INTEGER, BerType::Integer) {
            Ok(bytes) => decode_signed_i32(bytes, tag_start_offset),
            Err(error) => Err(error),
        }
    }

    /// Reads an INTEGER that fits in `u32`.
    pub fn read_unsigned32(&mut self) -> (result: Result<u32, BerError>)
        ensures
            error::agrees(
                result,
                old(self)@.unsigned32(BerType::Integer, TAG_INTEGER).outcome,
            ),
            final(self)@ == old(self)@.advance(
                old(self)@.unsigned32(BerType::Integer, TAG_INTEGER).used,
            ),
    {
        let tag_start_offset: usize = self.offset();
        match self.read_expected_tlv(TAG_INTEGER, BerType::Integer) {
            Ok(bytes) => decode_unsigned_u32(bytes, tag_start_offset),
            Err(error) => Err(error),
        }
    }

    /// Reads an INTEGER that fits in `u64`.
    pub fn read_unsigned64(&mut self) -> (result: Result<u64, BerError>)
        ensures
            error::agrees(
                result,
                old(self)@.unsigned64(BerType::Integer, TAG_INTEGER).outcome,
            ),
            final(self)@ == old(self)@.advance(
                old(self)@.unsigned64(BerType::Integer, TAG_INTEGER).used,
            ),
    {
        let tag_start_offset: usize = self.offset();
        match self.read_expected_tlv(TAG_INTEGER, BerType::Integer) {
            Ok(bytes) => decode_unsigned_u64(bytes, tag_start_offset),
            Err(error) => Err(error),
        }
    }

    /// Reads an unsigned 32-bit value under `expected_tag`.
    pub fn read_tagged_unsigned32(&mut self, expected_tag: u8) -> (result: Result<u32, BerError>)
        ensures
            error::agrees(
                result,
                old(self)@.unsigned32(BerType::TaggedUnsigned32, expected_tag).outcome,
            ),
            final(self)@ == old(self)@.advance(
                old(self)@.unsigned32(BerType::TaggedUnsigned32, expected_tag).used,
            ),
    {
        let tag_start_offset: usize = self.offset();
        match self.read_expected_tlv(expected_tag, BerType::TaggedUnsigned32) {
            Ok(bytes) => decode_unsigned_u32(bytes, tag_start_offset),
            Err(error) => Err(error),
        }
    }

    /// Reads an unsigned 64-bit value under `expected_tag`.
    pub fn read_tagged_unsigned64(&mut self, expected_tag: u8) -> (result: Result<u64, BerError>)
        ensures
            error::agrees(
                result,
                old(self)@.unsigned64(BerType::TaggedUnsigned64, expected_tag).outcome,
            ),
            final(self)@ == old(self)@.advance(
                old(self)@.unsigned64(BerType::TaggedUnsigned64, expected_tag).used,
            ),
    {
        let tag_start_offset: usize = self.offset();
        match self.read_expected_tlv(expected_tag, BerType::TaggedUnsigned64) {
            Ok(bytes) => decode_unsigned_u64(bytes, tag_start_offset),
            Err(error) => Err(error),
        }
    }

    /// Reads the contents of an OCTET STRING.
    pub fn read_octet_string(&mut self) -> (result: Result<&'a [u8], BerError>)
        ensures
            bytes_agree(result, old(self)@.octets().outcome),
            final(self)@ == old(self)@.advance(old(self)@.octets().used),
            result matches Ok(bytes) ==> bytes@.len() <= final(self)@.at <= usize::MAX,
    {
        proof {
            tlv::law_tlv_progress(self@);
        }
        self.read_expected_tlv(TAG_OCTET_STRING, BerType::OctetString)
    }

    /// Reads a NULL.
    pub fn read_null(&mut self) -> (result: Result<(), BerError>)
        ensures
            error::agrees(result, old(self)@.null().outcome),
            final(self)@ == old(self)@.advance(old(self)@.null().used),
    {
        let tag_start_offset: usize = self.offset();
        match self.read_expected_tlv(TAG_NULL, BerType::Null) {
            Ok(bytes) => if !bytes.is_empty() {
                Err(
                    BerError::from_fault(
                        BerFault::NullLength { length: bytes.len(), offset: tag_start_offset },
                    ),
                )
            } else {
                Ok(())
            },
            Err(error) => Err(error),
        }
    }

    /// Reads an OBJECT IDENTIFIER.
    pub fn read_oid(&mut self) -> (result: Result<Oid, BerError>)
        ensures
            oid::oid_agrees(result, old(self)@.oid().outcome),
            final(self)@ == old(self)@.advance(old(self)@.oid().used),
    {
        let tag_start_offset: usize = self.offset();
        match self.read_expected_tlv(TAG_OID, BerType::Oid) {
            Ok(bytes) => decode_oid(bytes, tag_start_offset),
            Err(error) => Err(error),
        }
    }

    /// The bytes not yet read.
    pub fn remaining(&self) -> (bytes: &'a [u8])
        ensures
            bytes@ == self@.rest,
    {
        proof {
            use_type_invariant(self);
            assert(self.input@.subrange(self.position as int, self.input@.len() as int)
                =~= self@.rest);
        }
        slice_subrange(self.input, self.position, self.input.len())
    }

    /// Whether every byte has been read.
    pub fn is_empty(&self) -> (empty: bool)
        ensures
            empty == (self@.rest.len() == 0),
    {
        proof {
            use_type_invariant(self);
        }
        self.position >= self.input.len()
    }

    /// The absolute offset of the next byte.
    pub fn offset(&self) -> (offset: usize)
        ensures
            offset == self@.at,
    {
        proof {
            use_type_invariant(self);
        }
        self.base_offset + self.position
    }
}

fn big_endian_usize(bytes: &[u8]) -> (value: Option<usize>)
    ensures
        value == (if integer::be_value(bytes@) <= usize::MAX {
            Some(integer::be_value(bytes@) as usize)
        } else {
            None
        }),
{
    let mut value: usize = 0;
    let mut i: usize = 0;
    while i < bytes.len()
        invariant
            i <= bytes@.len(),
            value == integer::be_value(bytes@.take(i as int)),
        decreases bytes@.len() - i,
    {
        proof {
            assert(bytes@.take(i as int + 1).drop_last() =~= bytes@.take(i as int));
            integer::lemma_be_value_grows(bytes@, (i + 1) as nat);
        }
        let next: Option<usize> = match value.checked_mul(256) {
            Some(shifted) => shifted.checked_add(bytes[i] as usize),
            None => None,
        };
        match next {
            Some(sum) => {
                value = sum;
            },
            None => {
                return None;
            },
        }
        i += 1;
    }
    proof {
        assert(bytes@.take(bytes@.len() as int) =~= bytes@);
    }
    Some(value)
}

} // verus!
