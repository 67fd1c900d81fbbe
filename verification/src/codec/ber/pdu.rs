//! PDUs on the wire.

use vstd::prelude::*;
use vstd::slice::slice_to_vec;
use crate::codec::ber::error;
use crate::codec::ber::error::{BerError, BerFault, BerType};
use crate::codec::ber::reader::BerReader;
use crate::codec::ber::tag::{
    TAG_GET_BULK_REQUEST, TAG_GET_NEXT_REQUEST, TAG_GET_REQUEST, TAG_INFORM_REQUEST, TAG_REPORT,
    TAG_RESPONSE, TAG_SEQUENCE, TAG_SET_REQUEST, TAG_TRAP,
};
use crate::codec::ber::tlv;
use crate::codec::ber::tlv::{Cursor, Step};
use crate::codec::ber::writer::BerWriter;

verus! {

// ----- Decoded forms ---------------------------------------------------------------

/// A PDU as it stands on the wire, its `VarBindList` not yet decoded.
#[derive(Debug)]
pub enum DecodedPdu {
    /// Every PDU but GETBULK.
    Standard {
        tag: u8,
        request_id: i32,
        error_status: i32,
        error_index: i32,
        raw_varbind_list: Vec<u8>,
    },
    /// A GETBULK.
    Bulk {
        request_id: i32,
        non_repeaters: i32,
        max_repetitions: i32,
        raw_varbind_list: Vec<u8>,
    },
}

/// A [`DecodedPdu`] as a mathematical value.
pub enum DecodedPduView {
    /// Every PDU but GETBULK.
    Standard {
        tag: u8,
        request_id: i32,
        error_status: i32,
        error_index: i32,
        raw_varbind_list: Seq<u8>,
    },
    /// A GETBULK.
    Bulk {
        request_id: i32,
        non_repeaters: i32,
        max_repetitions: i32,
        raw_varbind_list: Seq<u8>,
    },
}

impl View for DecodedPdu {
    type V = DecodedPduView;

    open spec fn view(&self) -> DecodedPduView {
        match self {
            DecodedPdu::Standard {
                tag,
                request_id,
                error_status,
                error_index,
                raw_varbind_list,
            } => DecodedPduView::Standard {
                tag: *tag,
                request_id: *request_id,
                error_status: *error_status,
                error_index: *error_index,
                raw_varbind_list: raw_varbind_list@,
            },
            DecodedPdu::Bulk {
                request_id,
                non_repeaters,
                max_repetitions,
                raw_varbind_list,
            } => DecodedPduView::Bulk {
                request_id: *request_id,
                non_repeaters: *non_repeaters,
                max_repetitions: *max_repetitions,
                raw_varbind_list: raw_varbind_list@,
            },
        }
    }
}

// ----- What the bytes stand for ------------------------------------------------------

/// Whether `tag` is that of a PDU other than GETBULK.
pub open spec fn is_standard_tag(tag: u8) -> bool {
    ||| tag == TAG_GET_REQUEST
    ||| tag == TAG_GET_NEXT_REQUEST
    ||| tag == TAG_RESPONSE
    ||| tag == TAG_SET_REQUEST
    ||| tag == TAG_INFORM_REQUEST
    ||| tag == TAG_TRAP
    ||| tag == TAG_REPORT
}

/// The bytes from `place` on, which must be one SEQUENCE.
pub open spec fn raw_list_outcome(place: Cursor) -> Result<Seq<u8>, BerFault> {
    if place.rest.len() == 0 {
        Err(BerFault::MissingVarbindList)
    } else {
        let step = place.sequence();
        match step.outcome {
            Err(fault) => Err(fault),
            Ok(_) => if step.used < place.rest.len() {
                Err(BerFault::BytesAfterPduVarbinds)
            } else {
                Ok(place.rest)
            },
        }
    }
}

/// What follows the request identifier: two INTEGERs and the `VarBindList`.
pub open spec fn fields_outcome(place: Cursor) -> Result<(i32, i32, Seq<u8>), BerFault> {
    let second = place.integer();
    match second.outcome {
        Err(fault) => Err(fault),
        Ok(b) => {
            let third = place.advance(second.used).integer();
            match third.outcome {
                Err(fault) => Err(fault),
                Ok(c) => match raw_list_outcome(
                    place.advance(second.used).advance(third.used),
                ) {
                    Err(fault) => Err(fault),
                    Ok(list) => Ok((b, c, list)),
                },
            }
        },
    }
}

/// The PDU that `bytes` hold, which must be all of them.
pub open spec fn pdu_outcome(bytes: Seq<u8>) -> Result<DecodedPduView, BerFault> {
    let place = Cursor { rest: bytes, at: 0 };
    match place.peek() {
        Err(fault) => Err(fault),
        Ok(tag) => {
            let step = place.constructed(tag);
            match step.outcome {
                Err(fault) => Err(fault),
                Ok(inner) => if step.used < bytes.len() {
                    Err(BerFault::BytesAfterPdu)
                } else {
                    let first = inner.integer();
                    match first.outcome {
                        Err(fault) => Err(fault),
                        Ok(request_id) => if tag == TAG_GET_BULK_REQUEST {
                            match fields_outcome(inner.advance(first.used)) {
                                Err(fault) => Err(fault),
                                Ok((non_repeaters, max_repetitions, raw_varbind_list)) => Ok(
                                    DecodedPduView::Bulk {
                                        request_id,
                                        non_repeaters,
                                        max_repetitions,
                                        raw_varbind_list,
                                    },
                                ),
                            }
                        } else if is_standard_tag(tag) {
                            match fields_outcome(inner.advance(first.used)) {
                                Err(fault) => Err(fault),
                                Ok((error_status, error_index, raw_varbind_list)) => Ok(
                                    DecodedPduView::Standard {
                                        tag,
                                        request_id,
                                        error_status,
                                        error_index,
                                        raw_varbind_list,
                                    },
                                ),
                            }
                        } else {
                            Err(BerFault::UnknownPdu { tag })
                        },
                    }
                },
            }
        },
    }
}

/// A PDU: three INTEGERs and an encoded `VarBindList` under `tag`.
pub open spec fn pdu_tlv(tag: u8, first: i32, second: i32, third: i32, list: Seq<u8>) -> Seq<u8> {
    tlv::tlv_bytes(
        tag,
        tlv::integer_tlv(first as int) + tlv::integer_tlv(second as int) + tlv::integer_tlv(
            third as int,
        ) + list,
    )
}

// ----- Decoding ----------------------------------------------------------------------

/// Reads a PDU, which must be all of the bytes.
pub fn decode_pdu(raw_pdu_bytes: &[u8]) -> (result: Result<DecodedPdu, BerError>)
    ensures
        match (result, pdu_outcome(raw_pdu_bytes@)) {
            (Ok(pdu), Ok(wanted)) => pdu@ == wanted,
            (Err(error), Err(fault)) => error.reports(fault),
            _ => false,
        },
{
    let mut outer_reader = BerReader::new(raw_pdu_bytes);
    let ghost start = outer_reader@;
    let pdu_tag: u8 = match outer_reader.peek_tag() {
        Ok(tag) => tag,
        Err(error) => {
            return Err(error);
        },
    };
    let mut pdu_reader = match outer_reader.read_constructed(pdu_tag) {
        Ok(reader) => reader,
        Err(error) => {
            return Err(error);
        },
    };
    proof {
        tlv::law_tlv_progress(start);
    }
    if !outer_reader.is_empty() {
        return Err(BerError::from_fault(BerFault::BytesAfterPdu));
    }
    let request_id: i32 = match pdu_reader.read_integer() {
        Ok(value) => value,
        Err(error) => {
            return Err(error);
        },
    };
    if pdu_tag == TAG_GET_BULK_REQUEST {
        match read_fields(&mut pdu_reader) {
            Ok((non_repeaters, max_repetitions, raw_varbind_list)) => Ok(
                DecodedPdu::Bulk { request_id, non_repeaters, max_repetitions, raw_varbind_list },
            ),
            Err(error) => Err(error),
        }
    } else if is_valid_standard_tag(pdu_tag) {
        match read_fields(&mut pdu_reader) {
            Ok((error_status, error_index, raw_varbind_list)) => Ok(
                DecodedPdu::Standard {
                    tag: pdu_tag,
                    request_id,
                    error_status,
                    error_index,
                    raw_varbind_list,
                },
            ),
            Err(error) => Err(error),
        }
    } else {
        Err(BerError::from_fault(BerFault::UnknownPdu { tag: pdu_tag }))
    }
}

fn read_fields(pdu_reader: &mut BerReader<'_>) -> (result: Result<(i32, i32, Vec<u8>), BerError>)
    ensures
        match (result, fields_outcome(old(pdu_reader)@)) {
            (Ok((b, c, list)), Ok((second, third, bytes))) => b == second && c == third && list@
                == bytes,
            (Err(error), Err(fault)) => error.reports(fault),
            _ => false,
        },
{
    let second: i32 = match pdu_reader.read_integer() {
        Ok(value) => value,
        Err(error) => {
            return Err(error);
        },
    };
    let third: i32 = match pdu_reader.read_integer() {
        Ok(value) => value,
        Err(error) => {
            return Err(error);
        },
    };
    match read_validated_varbind_list(pdu_reader) {
        Ok(list) => Ok((second, third, list)),
        Err(error) => Err(error),
    }
}

/// Captures the bytes not yet read, which must be one SEQUENCE.
pub fn read_validated_varbind_list(pdu_reader: &mut BerReader<'_>) -> (result: Result<
    Vec<u8>,
    BerError,
>)
    ensures
        match (result, raw_list_outcome(old(pdu_reader)@)) {
            (Ok(list), Ok(bytes)) => list@ == bytes,
            (Err(error), Err(fault)) => error.reports(fault),
            _ => false,
        },
        final(pdu_reader)@ == (if old(pdu_reader)@.rest.len() == 0 {
            old(pdu_reader)@
        } else {
            old(pdu_reader)@.advance(old(pdu_reader)@.sequence().used)
        }),
{
    if pdu_reader.is_empty() {
        return Err(BerError::from_fault(BerFault::MissingVarbindList));
    }
    let ghost place = pdu_reader@;
    let raw_varbind_list = slice_to_vec(pdu_reader.remaining());
    match pdu_reader.read_sequence() {
        Ok(_) => {},
        Err(error) => {
            return Err(error);
        },
    }
    proof {
        tlv::law_tlv_progress(place);
    }
    if !pdu_reader.is_empty() {
        return Err(BerError::from_fault(BerFault::BytesAfterPduVarbinds));
    }
    Ok(raw_varbind_list)
}

fn is_valid_standard_tag(tag: u8) -> (valid: bool)
    ensures
        valid == is_standard_tag(tag),
{
    tag == TAG_GET_REQUEST || tag == TAG_GET_NEXT_REQUEST || tag == TAG_RESPONSE || tag
        == TAG_SET_REQUEST || tag == TAG_INFORM_REQUEST || tag == TAG_TRAP || tag == TAG_REPORT
}

// ----- Encoding ----------------------------------------------------------------------

/// Writes a PDU other than GETBULK.
pub fn encode_pdu(
    tag: u8,
    request_id: i32,
    error_status: i32,
    error_index: i32,
    raw_varbind_list: &[u8],
) -> (result: Result<Vec<u8>, BerError>)
    ensures
        match result {
            Ok(out) => is_standard_tag(tag) && out@ == pdu_tlv(
                tag,
                request_id,
                error_status,
                error_index,
                raw_varbind_list@,
            ),
            Err(error) => !is_standard_tag(tag) && error.reports(BerFault::InvalidPduTag { tag }),
        },
{
    if !is_valid_standard_tag(tag) {
        return Err(BerError::from_fault(BerFault::InvalidPduTag { tag }));
    }
    Ok(write_pdu(tag, request_id, error_status, error_index, raw_varbind_list))
}

/// Writes a GETBULK PDU.
pub fn encode_bulk_pdu(
    request_id: i32,
    non_repeaters: i32,
    max_repetitions: i32,
    raw_varbind_list: &[u8],
) -> (out: Vec<u8>)
    ensures
        out@ == pdu_tlv(
            TAG_GET_BULK_REQUEST,
            request_id,
            non_repeaters,
            max_repetitions,
            raw_varbind_list@,
        ),
{
    write_pdu(TAG_GET_BULK_REQUEST, request_id, non_repeaters, max_repetitions, raw_varbind_list)
}

fn write_pdu(tag: u8, first: i32, second: i32, third: i32, raw_varbind_list: &[u8]) -> (out: Vec<
    u8,
>)
    ensures
        out@ == pdu_tlv(tag, first, second, third, raw_varbind_list@),
{
    let mut inner = BerWriter::new();
    inner.write_integer(first);
    inner.write_integer(second);
    inner.write_integer(third);
    inner.write_raw(raw_varbind_list);
    proof {
        assert(inner@ =~= tlv::integer_tlv(first as int) + tlv::integer_tlv(second as int)
            + tlv::integer_tlv(third as int) + raw_varbind_list@);
    }
    let mut outer = BerWriter::new();
    outer.write_constructed(tag, inner.as_bytes());
    proof {
        assert(outer@ =~= pdu_tlv(tag, first, second, third, raw_varbind_list@));
    }
    outer.into_vec()
}

// ----- Laws --------------------------------------------------------------------------

proof fn lemma_fields(second: i32, third: i32, contents: Seq<u8>, at: int)
    requires
        tlv::sequence_tlv(contents).len() <= usize::MAX,
    ensures
        fields_outcome(
            Cursor {
                rest: tlv::integer_tlv(second as int) + (tlv::integer_tlv(third as int)
                    + tlv::sequence_tlv(contents)),
                at,
            },
        ) == Ok::<(i32, i32, Seq<u8>), BerFault>((second, third, tlv::sequence_tlv(contents))),
{
    let b = tlv::integer_tlv(second as int);
    let c = tlv::integer_tlv(third as int);
    let list = tlv::sequence_tlv(contents);
    let place = Cursor { rest: b + (c + list), at };
    tlv::law_integer_round_trip(second, c + list, at);
    let place2 = Cursor { rest: c + list, at: at + b.len() };
    assert(place.advance(b.len()) =~= place2);
    tlv::law_integer_round_trip(third, list, place2.at);
    let place3 = Cursor { rest: list, at: place2.at + c.len() };
    assert(place2.advance(c.len()) =~= place3);
    tlv::lemma_tlv_len(TAG_SEQUENCE, contents);
    assert(list + Seq::<u8>::empty() =~= list);
    tlv::law_primitive_round_trip(BerType::Oid, TAG_SEQUENCE, contents, Seq::empty(), place3.at);
}

/// A PDU is read back as the fields that it was written for.
pub proof fn law_pdu_round_trip(tag: u8, first: i32, second: i32, third: i32, contents: Seq<u8>)
    requires
        is_standard_tag(tag) || tag == TAG_GET_BULK_REQUEST,
        pdu_tlv(tag, first, second, third, tlv::sequence_tlv(contents)).len() <= usize::MAX,
    ensures
        pdu_outcome(pdu_tlv(tag, first, second, third, tlv::sequence_tlv(contents))) == Ok::<
            DecodedPduView,
            BerFault,
        >(
            if tag == TAG_GET_BULK_REQUEST {
                DecodedPduView::Bulk {
                    request_id: first,
                    non_repeaters: second,
                    max_repetitions: third,
                    raw_varbind_list: tlv::sequence_tlv(contents),
                }
            } else {
                DecodedPduView::Standard {
                    tag,
                    request_id: first,
                    error_status: second,
                    error_index: third,
                    raw_varbind_list: tlv::sequence_tlv(contents),
                }
            },
        ),
{
    let a = tlv::integer_tlv(first as int);
    let b = tlv::integer_tlv(second as int);
    let c = tlv::integer_tlv(third as int);
    let list = tlv::sequence_tlv(contents);
    let fields = a + b + c + list;
    let whole = pdu_tlv(tag, first, second, third, list);
    tlv::lemma_tlv_len(tag, fields);
    assert(whole + Seq::<u8>::empty() =~= whole);
    tlv::law_primitive_round_trip(BerType::Oid, tag, fields, Seq::empty(), 0);
    let at = (whole.len() - fields.len()) as int;
    let inner = Cursor { rest: fields, at };
    assert(fields =~= a + (b + (c + list)));
    tlv::law_integer_round_trip(first, b + (c + list), at);
    assert(inner.advance(a.len()) =~= (Cursor { rest: b + (c + list), at: at + a.len() }));
    lemma_fields(second, third, contents, at + a.len());
}

/// A PDU is one triple under its tag of three INTEGERs and the `VarBindList`, in this order
/// and nothing else.
pub proof fn law_pdu_layout(tag: u8, first: i32, second: i32, third: i32, list: Seq<u8>)
    requires
        pdu_tlv(tag, first, second, third, list).len() <= usize::MAX,
    ensures
        ({
            let whole = pdu_tlv(tag, first, second, third, list);
            &&& (Cursor { rest: whole, at: 0 }).constructed(tag) matches Step {
                outcome: Ok(inner),
                used,
            }
            &&& used == whole.len()
            &&& ({
                let a = inner.integer();
                let after_a = inner.advance(a.used);
                let b = after_a.integer();
                let after_b = after_a.advance(b.used);
                let c = after_b.integer();
                &&& a.outcome == Ok::<i32, BerFault>(first)
                &&& b.outcome == Ok::<i32, BerFault>(second)
                &&& c.outcome == Ok::<i32, BerFault>(third)
                &&& after_b.advance(c.used).rest == list
            })
        }),
{
    let a = tlv::integer_tlv(first as int);
    let b = tlv::integer_tlv(second as int);
    let c = tlv::integer_tlv(third as int);
    let fields = a + b + c + list;
    let whole = pdu_tlv(tag, first, second, third, list);
    tlv::lemma_tlv_len(tag, fields);
    assert(whole + Seq::<u8>::empty() =~= whole);
    tlv::law_primitive_round_trip(BerType::Oid, tag, fields, Seq::empty(), 0);
    let at = (whole.len() - fields.len()) as int;
    let inner = Cursor { rest: fields, at };
    assert(fields =~= a + (b + (c + list)));
    tlv::law_integer_round_trip(first, b + (c + list), at);
    let after_a = Cursor { rest: b + (c + list), at: at + a.len() };
    assert(inner.advance(a.len()) =~= after_a);
    tlv::law_integer_round_trip(second, c + list, after_a.at);
    let after_b = Cursor { rest: c + list, at: after_a.at + b.len() };
    assert(after_a.advance(b.len()) =~= after_b);
    tlv::law_integer_round_trip(third, list, after_b.at);
    assert(after_b.advance(c.len()).rest =~= list);
}

/// Whatever decodes as a PDU is one triple whose contents are three INTEGERs, in the order
/// of the fields that are reported, and a SEQUENCE that is reported with its tag and length.
/// Only the eight PDU types are accepted, and only GETBULK has repetition counts.
pub proof fn law_pdu_fields(bytes: Seq<u8>)
    ensures
        pdu_outcome(bytes) matches Ok(pdu) ==> (Cursor { rest: bytes, at: 0 }).constructed(
            bytes[0],
        ) matches Step { outcome: Ok(inner), used } && used >= bytes.len() && ({
            let a = inner.integer();
            let after_a = inner.advance(a.used);
            let b = after_a.integer();
            let after_b = after_a.advance(b.used);
            let c = after_b.integer();
            let last = after_b.advance(c.used);
            &&& last.sequence().outcome is Ok && last.sequence().used >= last.rest.len()
            &&& match pdu {
                DecodedPduView::Standard {
                    tag,
                    request_id,
                    error_status,
                    error_index,
                    raw_varbind_list,
                } => {
                    &&& tag == bytes[0]
                    &&& 0xa0 <= tag <= 0xa8 && tag != 0xa4 && tag != 0xa5
                    &&& a.outcome == Ok::<i32, BerFault>(request_id)
                    &&& b.outcome == Ok::<i32, BerFault>(error_status)
                    &&& c.outcome == Ok::<i32, BerFault>(error_index)
                    &&& raw_varbind_list == last.rest
                },
                DecodedPduView::Bulk {
                    request_id,
                    non_repeaters,
                    max_repetitions,
                    raw_varbind_list,
                } => {
                    &&& bytes[0] == 0xa5
                    &&& a.outcome == Ok::<i32, BerFault>(request_id)
                    &&& b.outcome == Ok::<i32, BerFault>(non_repeaters)
                    &&& c.outcome == Ok::<i32, BerFault>(max_repetitions)
                    &&& raw_varbind_list == last.rest
                },
            }
        }),
{
}

/// Bytes behind a PDU are refused, however few.
pub proof fn law_bytes_after_pdu(tag: u8, contents: Seq<u8>, more: Seq<u8>)
    requires
        contents.len() <= usize::MAX,
        more.len() > 0,
    ensures
        pdu_outcome(tlv::tlv_bytes(tag, contents) + more) == Err::<DecodedPduView, BerFault>(
            BerFault::BytesAfterPdu,
        ),
{
    tlv::lemma_tlv_len(tag, contents);
    tlv::law_primitive_round_trip(BerType::Oid, tag, contents, more, 0);
}

/// The mathematical value of a decoded PDU holds each field under its own name.
pub proof fn law_pdu_view(pdu: DecodedPdu)
    ensures
        match pdu {
            DecodedPdu::Standard {
                tag,
                request_id,
                error_status,
                error_index,
                raw_varbind_list,
            } => pdu@ matches DecodedPduView::Standard {
                tag: t,
                request_id: r,
                error_status: s,
                error_index: i,
                raw_varbind_list: l,
            } && t == tag && r == request_id && s == error_status && i == error_index && l
                == raw_varbind_list@,
            DecodedPdu::Bulk { request_id, non_repeaters, max_repetitions, raw_varbind_list } => pdu@
                matches DecodedPduView::Bulk {
                request_id: r,
                non_repeaters: n,
                max_repetitions: m,
                raw_varbind_list: l,
            } && r == request_id && n == non_repeaters && m == max_repetitions && l
                == raw_varbind_list@,
        },
{
}

/// The PDU types other than GETBULK are those of the tags 0xA0 to 0xA3 and 0xA6 to 0xA8.
pub proof fn law_standard_tags(tag: u8)
    ensures
        is_standard_tag(tag) <==> 0xa0 <= tag <= 0xa3 || 0xa6 <= tag <= 0xa8,
{
}

} // verus!
