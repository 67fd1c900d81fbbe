//! Writing BER.

use vstd::prelude::*;
use crate::codec::ber::integer::{
    encode_big_endian, encode_signed_i32, encode_unsigned_u32, encode_unsigned_u64,
};
use crate::codec::ber::oid::encode_oid;
use crate::codec::ber::tag::{
    TAG_INTEGER, TAG_NULL, TAG_OCTET_STRING, TAG_OID, TAG_SEQUENCE,
};
use crate::codec::ber::tlv;
use crate::codec::oid::Oid;

verus! {

/// Appends the length field for `length` bytes.
pub fn encode_length(dest: &mut Vec<u8>, length: usize)
    ensures
        final(dest)@ == old(dest)@ + tlv::length_bytes(length as nat),
{
    if length < 128 {
        dest.push(length as u8);
    } else {
        let digits = encode_big_endian(length as u64);
        proof {
            tlv::lemma_usize_width(length);
        }
        dest.push(128 + digits.len() as u8);
        dest.extend_from_slice(digits.as_slice());
    }
    proof {
        assert(dest@ =~= old(dest)@ + tlv::length_bytes(length as nat));
    }
}

/// A growing buffer of BER-encoded data. Its view is the bytes written so far.
#[derive(Debug)]
pub struct BerWriter {
    buffer: Vec<u8>,
}

impl View for BerWriter {
    type V = Seq<u8>;

    closed spec fn view(&self) -> Seq<u8> {
        self.buffer@
    }
}

impl BerWriter {
    /// An empty writer.
    pub fn new() -> (writer: Self)
        ensures
            writer@ == Seq::<u8>::empty(),
    {
        BerWriter { buffer: Vec::new() }
    }

    /// An empty writer with room for `cap` bytes.
    pub fn with_capacity(cap: usize) -> (writer: Self)
        ensures
            writer@ == Seq::<u8>::empty(),
    {
        BerWriter { buffer: Vec::with_capacity(cap) }
    }

    /// Appends bytes that are already encoded.
    pub fn write_raw(&mut self, bytes: &[u8])
        ensures
            final(self)@ == old(self)@ + bytes@,
    {
        self.buffer.extend_from_slice(bytes);
        proof {
            assert(self@ =~= old(self)@ + bytes@);
        }
    }

    /// Appends a triple.
    pub fn write_tlv(&mut self, tag: u8, value: &[u8])
        ensures
            final(self)@ == old(self)@ + tlv::tlv_bytes(tag, value@),
    {
        self.buffer.push(tag);
        encode_length(&mut self.buffer, value.len());
        self.buffer.extend_from_slice(value);
        proof {
            reveal(tlv::tlv_bytes);
            assert(self@ =~= old(self)@ + tlv::tlv_bytes(tag, value@));
        }
    }

    /// Appends a SEQUENCE around `contents`.
    pub fn write_sequence(&mut self, contents: &[u8])
        ensures
            final(self)@ == old(self)@ + tlv::sequence_tlv(contents@),
    {
        self.write_tlv(TAG_SEQUENCE, contents);
    }

    /// Appends a constructed triple around `contents`.
    pub fn write_constructed(&mut self, tag: u8, contents: &[u8])
        ensures
            final(self)@ == old(self)@ + tlv::tlv_bytes(tag, contents@),
    {
        self.write_tlv(tag, contents);
    }

    /// Appends an INTEGER.
    pub fn write_integer(&mut self, value: i32)
        ensures
            final(self)@ == old(self)@ + tlv::integer_tlv(value as int),
    {
        let encoded_value = encode_signed_i32(value);
        self.write_tlv(TAG_INTEGER, encoded_value.as_slice());
    }

    /// Appends an INTEGER for an unsigned 32-bit value.
    pub fn write_unsigned32(&mut self, value: u32)
        ensures
            final(self)@ == old(self)@ + tlv::unsigned_tlv(TAG_INTEGER, value as nat),
    {
        self.write_tagged_unsigned32(TAG_INTEGER, value);
    }

    /// Appends an INTEGER for an unsigned 64-bit value.
    pub fn write_unsigned64(&mut self, value: u64)
        ensures
            final(self)@ == old(self)@ + tlv::unsigned_tlv(TAG_INTEGER, value as nat),
    {
        self.write_tagged_unsigned64(TAG_INTEGER, value);
    }

    /// Appends an unsigned 32-bit value under `tag`.
    pub fn write_tagged_unsigned32(&mut self, tag: u8, value: u32)
        ensures
            final(self)@ == old(self)@ + tlv::unsigned_tlv(tag, value as nat),
    {
        let encoded_value = encode_unsigned_u32(value);
        self.write_tlv(tag, encoded_value.as_slice());
    }

    /// Appends an unsigned 64-bit value under `tag`.
    pub fn write_tagged_unsigned64(&mut self, tag: u8, value: u64)
        ensures
            final(self)@ == old(self)@ + tlv::unsigned_tlv(tag, value as nat),
    {
        let encoded_value = encode_unsigned_u64(value);
        self.write_tlv(tag, encoded_value.as_slice());
    }

    /// Appends an OCTET STRING.
    pub fn write_octet_string(&mut self, bytes: &[u8])
        ensures
            final(self)@ == old(self)@ + tlv::octets_tlv(bytes@),
    {
        self.write_tlv(TAG_OCTET_STRING, bytes);
    }

    /// Appends a NULL.
    pub fn write_null(&mut self)
        ensures
            final(self)@ == old(self)@ + tlv::null_tlv(),
    {
        self.buffer.push(TAG_NULL);
        self.buffer.push(0x00);
        proof {
            assert(self@ =~= old(self)@ + tlv::null_tlv());
        }
    }

    /// Appends an OBJECT IDENTIFIER.
    pub fn write_oid(&mut self, oid: &Oid)
        ensures
            final(self)@ == old(self)@ + tlv::oid_tlv(oid@),
    {
        let encoded_oid = encode_oid(oid);
        self.write_tlv(TAG_OID, encoded_oid.as_slice());
    }

    /// The bytes written so far.
    pub fn as_bytes(&self) -> (bytes: &[u8])
        ensures
            bytes@ == self@,
    {
        self.buffer.as_slice()
    }

    /// The number of bytes written so far.
    pub fn len(&self) -> (n: usize)
        ensures
            n == self@.len(),
    {
        self.buffer.len()
    }

    /// The bytes written, without the writer.
    pub fn into_vec(self) -> (bytes: Vec<u8>)
        ensures
            bytes@ == self@,
    {
        self.buffer
    }
}

impl Default for BerWriter {
    fn default() -> (writer: Self)
        ensures
            writer@ == Seq::<u8>::empty(),
    {
        BerWriter::new()
    }
}

} // verus!
