//! Decoding of inbound PDUs and `SNMPv3` messages.

use vstd::prelude::*;
use vstd::slice::slice_to_vec;
use crate::codec::ber::error::{BerError, BerFault, BerType};
use crate::codec::ber::pdu as ber_pdu;
use crate::codec::ber::pdu::{DecodedPdu, DecodedPduView};
use crate::codec::ber::snmp as ber_snmp;
use crate::codec::ber::snmp::{
    decode_v3_envelope, EnvelopeView, HeaderView, ScopedData, ScopedView, UsmView,
};
use crate::codec::ber::tag::{
    TAG_GET_BULK_REQUEST, TAG_GET_NEXT_REQUEST, TAG_GET_REQUEST, TAG_INFORM_REQUEST, TAG_REPORT,
    TAG_RESPONSE, TAG_SEQUENCE, TAG_SET_REQUEST, TAG_TRAP,
};
use crate::codec::ber::tlv;
use crate::codec::ber::varbind;
use crate::codec::ber::varbind::{
    decode_varbind_list, decode_varbind_value_to_value, DecodedVarbind, DecodedVarbindView,
};
use crate::codec::pdu::types;
use crate::codec::pdu::types::{
    DecodeError, DecodeErrorKind, DecodeFault, DecodedScopedPdu, GetBulkRequest, GetNextRequest,
    GetRequest, InboundPdu, InboundView, MessageId, RequestId, SecurityModel, SetRequest,
    UsmSecurityFields, UsmSecurityView, V3InboundMessage, V3InboundView, V3ScopedData,
    V3ScopedView, Varbind, VarbindView,
};
use crate::text;
use crate::text::push_hex_byte;
use crate::usm::{AuthenticationParams, PrivacySalt};

verus! {

// ----- What the bytes stand for ------------------------------------------------------

/// A BER fault reported behind `prefix`.
pub open spec fn ber_fault(prefix: Seq<char>, fault: BerFault) -> DecodeFault {
    DecodeFault { kind: DecodeErrorKind::Ber, message: prefix + fault.text() }
}

/// `done` followed by the values of `rest`, or the first of them that is refused.
pub open spec fn converted_varbinds(done: Seq<VarbindView>, rest: Seq<DecodedVarbindView>) -> Result<
    Seq<VarbindView>,
    DecodeFault,
>
    decreases rest.len(),
{
    if rest.len() == 0 {
        Ok(done)
    } else {
        match varbind::converted_outcome(rest[0].value) {
            Err(fault) => Err(ber_fault("VarBind value decode failed: "@, fault)),
            Ok(value) => converted_varbinds(
                done.push(VarbindView { oid: rest[0].name, value }),
                rest.skip(1),
            ),
        }
    }
}

/// The varbinds of an encoded `VarBindList`.
pub open spec fn varbinds_outcome(raw_list: Seq<u8>) -> Result<Seq<VarbindView>, DecodeFault> {
    match varbind::varbind_list_outcome(raw_list) {
        Err(fault) => Err(ber_fault("VarBind decode failed: "@, fault)),
        Ok(decoded) => converted_varbinds(Seq::empty(), decoded),
    }
}

/// A repetition count from the wire; negative ones count as zero (RFC 3416 §4.2.3).
pub open spec fn clamped(n: i32) -> u32 {
    if n < 0 {
        0
    } else {
        n as u32
    }
}

/// The inbound PDU that a decoded one stands for; only requests are inbound.
pub open spec fn inbound_outcome(decoded: DecodedPduView) -> Result<InboundView, DecodeFault> {
    match decoded {
        DecodedPduView::Standard { tag, request_id, raw_varbind_list, .. } => if tag
            == TAG_GET_REQUEST || tag == TAG_GET_NEXT_REQUEST || tag == TAG_SET_REQUEST {
            match varbinds_outcome(raw_varbind_list) {
                Err(fault) => Err(fault),
                Ok(varbinds) => Ok(
                    if tag == TAG_GET_REQUEST {
                        InboundView::GetRequest { request_id, varbinds }
                    } else if tag == TAG_GET_NEXT_REQUEST {
                        InboundView::GetNextRequest { request_id, varbinds }
                    } else {
                        InboundView::SetRequest { request_id, varbinds }
                    },
                ),
            }
        } else {
            Err(
                DecodeFault {
                    kind: DecodeErrorKind::UnsupportedPduType,
                    message: "unexpected outbound PDU type: tag 0x"@ + text::hex_byte(tag),
                },
            )
        },
        DecodedPduView::Bulk { request_id, non_repeaters, max_repetitions, raw_varbind_list } =>
            match varbinds_outcome(raw_varbind_list) {
            Err(fault) => Err(fault),
            Ok(varbinds) => Ok(
                InboundView::GetBulkRequest {
                    request_id,
                    non_repeaters: clamped(non_repeaters),
                    max_repetitions: clamped(max_repetitions),
                    varbinds,
                },
            ),
        },
    }
}

/// The inbound PDU that `bytes` hold, with `prefix` in front of BER faults in the PDU
/// itself.
pub open spec fn inbound_pdu_outcome(bytes: Seq<u8>, prefix: Seq<char>) -> Result<
    InboundView,
    DecodeFault,
> {
    match ber_pdu::pdu_outcome(bytes) {
        Err(fault) => Err(ber_fault(prefix, fault)),
        Ok(decoded) => inbound_outcome(decoded),
    }
}

/// An engine counter from the wire; negative ones are taken as out of every time window.
pub open spec fn engine_counter(n: i32) -> u32 {
    if n < 0 {
        u32::MAX
    } else {
        n as u32
    }
}

/// The USM security parameters handed to dispatch.
pub open spec fn usm_security_view(header: HeaderView, usm: UsmView) -> UsmSecurityView {
    UsmSecurityView {
        auth_engine_id: usm.engine_id,
        auth_engine_boots: engine_counter(usm.engine_boots),
        auth_engine_time: engine_counter(usm.engine_time),
        security_flags: header.security_flags,
        auth_params: if usm.auth_params.len() == 0 {
            None
        } else {
            Some(usm.auth_params)
        },
        priv_params: if usm.priv_params.len() == 8 {
            Some(usm.priv_params)
        } else {
            None
        },
    }
}

/// The engine ID, the context name and the payload of a scoped PDU; what an encrypted one
/// hides is replaced by the authoritative engine ID and an empty name.
pub open spec fn scoped_outcome(envelope: EnvelopeView) -> Result<
    (Seq<u8>, Seq<u8>, V3ScopedView),
    DecodeFault,
> {
    match envelope.scoped_data {
        ScopedView::Plaintext { context_engine_id, context_name, raw_pdu } =>
            match inbound_pdu_outcome(raw_pdu, "BER decode failed: "@) {
            Err(fault) => Err(fault),
            Ok(pdu) => Ok((context_engine_id, context_name, V3ScopedView::Plaintext(pdu))),
        },
        ScopedView::Encrypted(ciphertext) => Ok(
            (envelope.usm.engine_id, Seq::empty(), V3ScopedView::Encrypted(ciphertext)),
        ),
    }
}

/// The inbound `SNMPv3` message that `bytes` start with.
pub open spec fn v3_message_outcome(bytes: Seq<u8>) -> Result<V3InboundView, DecodeFault> {
    match ber_snmp::envelope_outcome(bytes) {
        Err(fault) => if fault is WrongVersion {
            Err(DecodeFault { kind: DecodeErrorKind::WrongVersion, message: fault.text() })
        } else {
            Err(ber_fault("BER decode failed: "@, fault))
        },
        Ok(envelope) => match scoped_outcome(envelope) {
            Err(fault) => Err(fault),
            Ok((engine_id, context_name, scoped_data)) => Ok(
                V3InboundView {
                    msg_id: envelope.header.msg_id,
                    max_size: envelope.header.max_size,
                    security_model: envelope.header.security_model,
                    engine_id,
                    context_name,
                    user_name: envelope.usm.user_name,
                    scoped_data,
                    usm: usm_security_view(envelope.header, envelope.usm),
                    raw_message: bytes,
                    auth_params_offset: envelope.auth_params_offset,
                },
            ),
        },
    }
}

/// The scoped PDU that `bytes` start with.
pub open spec fn scoped_pdu_outcome(bytes: Seq<u8>) -> Result<
    (Seq<u8>, Seq<u8>, InboundView),
    DecodeFault,
> {
    match ber_snmp::scoped_pdu_outcome(bytes) {
        Err(fault) => Err(ber_fault("ScopedPDU decode failed: "@, fault)),
        Ok((engine_id, name, raw_pdu)) => match inbound_pdu_outcome(
            raw_pdu,
            "PDU decode failed: "@,
        ) {
            Err(fault) => Err(fault),
            Ok(pdu) => Ok((engine_id, name, pdu)),
        },
    }
}

// ----- Decoding ----------------------------------------------------------------------

fn ber_error(prefix: &str, error: BerError) -> (out: DecodeError)
    ensures
        out@ == (DecodeFault { kind: DecodeErrorKind::Ber, message: prefix@ + error@ }),
{
    let mut message = prefix.to_owned();
    message.append(error.message());
    DecodeError::new(DecodeErrorKind::Ber, message.as_str())
}

fn decode_varbind_list_to_varbinds(raw_varbind_list: &[u8]) -> (result: Result<
    Vec<Varbind>,
    DecodeError,
>)
    ensures
        match (result, varbinds_outcome(raw_varbind_list@)) {
            (Ok(varbinds), Ok(wanted)) => types::varbind_views(varbinds@) == wanted,
            (Err(error), Err(fault)) => error@ == fault,
            _ => false,
        },
{
    let decoded = match decode_varbind_list(raw_varbind_list) {
        Ok(decoded) => decoded,
        Err(error) => {
            return Err(ber_error("VarBind decode failed: ", error));
        },
    };
    let ghost all = varbind::decoded_views(decoded@);
    let mut varbinds: Vec<Varbind> = Vec::new();
    let mut i: usize = 0;
    proof {
        assert(all.skip(0) =~= all);
        assert(types::varbind_views(varbinds@) =~= Seq::empty());
    }
    while i < decoded.len()
        invariant
            i <= decoded@.len(),
            all == varbind::decoded_views(decoded@),
            varbinds_outcome(raw_varbind_list@) == converted_varbinds(
                types::varbind_views(varbinds@),
                all.skip(i as int),
            ),
        decreases decoded@.len() - i,
    {
        let item: &DecodedVarbind = &decoded[i];
        let ghost rest = all.skip(i as int);
        proof {
            assert(rest[0] == item@);
            assert(rest.skip(1) =~= all.skip(i as int + 1));
        }
        let value = match decode_varbind_value_to_value(&item.value) {
            Ok(value) => value,
            Err(error) => {
                return Err(ber_error("VarBind value decode failed: ", error));
            },
        };
        let ghost before = types::varbind_views(varbinds@);
        varbinds.push(Varbind { oid: item.name.clone(), value });
        proof {
            assert(types::varbind_views(varbinds@) =~= before.push(
                VarbindView { oid: item.name@, value: value@ },
            ));
        }
        i += 1;
    }
    Ok(varbinds)
}

fn clamp_repetitions(n: i32) -> (out: u32)
    ensures
        out == clamped(n),
{
    if n < 0 {
        0
    } else {
        n as u32
    }
}

fn decoded_pdu_to_inbound(decoded: DecodedPdu) -> (result: Result<InboundPdu, DecodeError>)
    ensures
        match (result, inbound_outcome(decoded@)) {
            (Ok(pdu), Ok(wanted)) => pdu@ == wanted,
            (Err(error), Err(fault)) => error@ == fault,
            _ => false,
        },
{
    match decoded {
        DecodedPdu::Standard { tag, request_id, raw_varbind_list, .. } => {
            if tag != TAG_GET_REQUEST && tag != TAG_GET_NEXT_REQUEST && tag != TAG_SET_REQUEST {
                let mut message = "unexpected outbound PDU type: tag 0x".to_owned();
                push_hex_byte(&mut message, tag);
                return Err(
                    DecodeError::new(DecodeErrorKind::UnsupportedPduType, message.as_str()),
                );
            }
            let request_id = RequestId::from(request_id);
            match decode_varbind_list_to_varbinds(raw_varbind_list.as_slice()) {
                Ok(varbinds) => if tag == TAG_GET_REQUEST {
                    Ok(InboundPdu::GetRequest(GetRequest { request_id, varbinds }))
                } else if tag == TAG_GET_NEXT_REQUEST {
                    Ok(InboundPdu::GetNextRequest(GetNextRequest { request_id, varbinds }))
                } else {
                    Ok(InboundPdu::SetRequest(SetRequest { request_id, varbinds }))
                },
                Err(error) => Err(error),
            }
        },
        DecodedPdu::Bulk { request_id, non_repeaters, max_repetitions, raw_varbind_list } => {
            match decode_varbind_list_to_varbinds(raw_varbind_list.as_slice()) {
                Ok(varbinds) => Ok(
                    InboundPdu::GetBulkRequest(
                        GetBulkRequest {
                            request_id: RequestId::from(request_id),
                            non_repeaters: clamp_repetitions(non_repeaters),
                            max_repetitions: clamp_repetitions(max_repetitions),
                            varbinds,
                        },
                    ),
                ),
                Err(error) => Err(error),
            }
        },
    }
}

fn decode_inbound(bytes: &[u8], prefix: &str) -> (result: Result<InboundPdu, DecodeError>)
    ensures
        match (result, inbound_pdu_outcome(bytes@, prefix@)) {
            (Ok(pdu), Ok(wanted)) => pdu@ == wanted,
            (Err(error), Err(fault)) => error@ == fault,
            _ => false,
        },
{
    match ber_pdu::decode_pdu(bytes) {
        Ok(decoded) => decoded_pdu_to_inbound(decoded),
        Err(error) => Err(ber_error(prefix, error)),
    }
}

/// BER-decodes a raw SNMP PDU byte slice into an [`InboundPdu`].
///
/// Only inbound PDU types (`GetRequest`, `GetNextRequest`, `GetBulkRequest`,
/// `SetRequest`) are accepted; any other PDU type yields a [`DecodeError`].
pub fn decode_pdu(bytes: &[u8]) -> (result: Result<InboundPdu, DecodeError>)
    ensures
        match (result, inbound_pdu_outcome(bytes@, "BER decode failed: "@)) {
            (Ok(pdu), Ok(wanted)) => pdu@ == wanted,
            (Err(error), Err(fault)) => error@ == fault,
            _ => false,
        },
{
    decode_inbound(bytes, "BER decode failed: ")
}

fn widen_counter(n: i32) -> (out: u32)
    ensures
        out == engine_counter(n),
{
    if n < 0 {
        u32::MAX
    } else {
        n as u32
    }
}

/// BER-decodes an inbound `SNMPv3` message into a [`V3InboundMessage`].
///
/// Accepts both cleartext and encrypted messages. Encrypted PDUs are preserved as raw
/// ciphertext; decryption is performed by the dispatch layer before PDU processing. The
/// inner PDU of a cleartext message must be an inbound request.
pub fn decode_v3_message<'a>(bytes: &'a [u8]) -> (result: Result<
    V3InboundMessage<'a>,
    DecodeError,
>)
    ensures
        match (result, v3_message_outcome(bytes@)) {
            (Ok(message), Ok(wanted)) => message@ == wanted,
            (Err(error), Err(fault)) => error@ == fault,
            _ => false,
        },
{
    let envelope = match decode_v3_envelope(bytes) {
        Ok(envelope) => envelope,
        Err(error) => {
            if error.is_wrong_version() {
                return Err(DecodeError::new(DecodeErrorKind::WrongVersion, error.message()));
            }
            return Err(ber_error("BER decode failed: ", error));
        },
    };
    let ghost wanted = envelope@;
    let usm = envelope.usm;
    let auth_engine_id = slice_to_vec(usm.engine_id.as_slice());
    let (engine_id, context_name, scoped_data) = match envelope.scoped_data {
        ScopedData::Plaintext { context_engine_id, context_name, raw_pdu } => {
            match decode_inbound(raw_pdu.as_slice(), "BER decode failed: ") {
                Ok(pdu) => (context_engine_id, context_name, V3ScopedData::Plaintext(pdu)),
                Err(error) => {
                    return Err(error);
                },
            }
        },
        ScopedData::Encrypted(ciphertext) => {
            let no_name: Vec<u8> = Vec::new();
            proof {
                assert(no_name@ =~= Seq::empty());
            }
            (usm.engine_id, no_name, V3ScopedData::Encrypted(ciphertext))
        },
    };
    Ok(
        V3InboundMessage {
            msg_id: MessageId::from(envelope.msg_id),
            max_size: envelope.max_size,
            security_model: SecurityModel::from_wire(envelope.security_model),
            engine_id,
            context_name,
            user_name: usm.user_name,
            scoped_data,
            usm: UsmSecurityFields {
                auth_engine_id,
                auth_engine_boots: widen_counter(usm.engine_boots),
                auth_engine_time: widen_counter(usm.engine_time),
                security_flags: envelope.security_flags,
                auth_params: AuthenticationParams::from_wire(usm.auth_params),
                priv_params: PrivacySalt::from_wire(usm.priv_params),
            },
            raw_message: bytes,
            auth_params_offset: envelope.auth_params_offset,
        },
    )
}

/// BER-decodes raw bytes as a `ScopedPdu`.
///
/// Used by the dispatch layer after decryption of authPriv messages.
pub fn decode_scoped_pdu(bytes: &[u8]) -> (result: Result<DecodedScopedPdu, DecodeError>)
    ensures
        match (result, scoped_pdu_outcome(bytes@)) {
            (Ok(scoped), Ok((engine_id, name, pdu))) => scoped.context_engine_id@ == engine_id
                && scoped.context_name@ == name && scoped.pdu@ == pdu,
            (Err(error), Err(fault)) => error@ == fault,
            _ => false,
        },
{
    let scoped = match ber_snmp::decode_scoped_pdu(bytes) {
        Ok(scoped) => scoped,
        Err(error) => {
            return Err(ber_error("ScopedPDU decode failed: ", error));
        },
    };
    match decode_inbound(scoped.raw_pdu.as_slice(), "PDU decode failed: ") {
        Ok(pdu) => Ok(
            DecodedScopedPdu {
                context_engine_id: scoped.context_engine_id,
                context_name: scoped.context_name,
                pdu,
            },
        ),
        Err(error) => Err(error),
    }
}

// ----- Laws --------------------------------------------------------------------------

/// The varbinds of an inbound PDU.
pub open spec fn inbound_varbinds(pdu: InboundView) -> Seq<VarbindView> {
    match pdu {
        InboundView::GetRequest { varbinds, .. } => varbinds,
        InboundView::GetNextRequest { varbinds, .. } => varbinds,
        InboundView::GetBulkRequest { varbinds, .. } => varbinds,
        InboundView::SetRequest { varbinds, .. } => varbinds,
    }
}

/// The bytes of a request as a manager sends it.
pub open spec fn inbound_tlv(pdu: InboundView) -> Seq<u8> {
    match pdu {
        InboundView::GetRequest { request_id, varbinds } => ber_pdu::pdu_tlv(
            TAG_GET_REQUEST,
            request_id,
            0,
            0,
            varbind::varbind_list_tlv(varbinds),
        ),
        InboundView::GetNextRequest { request_id, varbinds } => ber_pdu::pdu_tlv(
            TAG_GET_NEXT_REQUEST,
            request_id,
            0,
            0,
            varbind::varbind_list_tlv(varbinds),
        ),
        InboundView::GetBulkRequest { request_id, non_repeaters, max_repetitions, varbinds } =>
            ber_pdu::pdu_tlv(
            TAG_GET_BULK_REQUEST,
            request_id,
            non_repeaters as i32,
            max_repetitions as i32,
            varbind::varbind_list_tlv(varbinds),
        ),
        InboundView::SetRequest { request_id, varbinds } => ber_pdu::pdu_tlv(
            TAG_SET_REQUEST,
            request_id,
            0,
            0,
            varbind::varbind_list_tlv(varbinds),
        ),
    }
}

/// Whether a request can be read back: its varbinds can, and its repetition counts fit
/// in an INTEGER.
pub open spec fn wire_request(pdu: InboundView) -> bool {
    &&& forall|i: int|
        0 <= i < inbound_varbinds(pdu).len() ==> varbind::wire_varbind(
            #[trigger] inbound_varbinds(pdu)[i],
        )
    &&& pdu matches InboundView::GetBulkRequest { non_repeaters, max_repetitions, .. }
        ==> non_repeaters <= i32::MAX && max_repetitions <= i32::MAX
}

proof fn lemma_converted(done: Seq<VarbindView>, varbinds: Seq<VarbindView>)
    requires
        forall|i: int| 0 <= i < varbinds.len() ==> varbind::wire_varbind(#[trigger] varbinds[i]),
    ensures
        converted_varbinds(done, varbind::decoded_varbinds(varbinds)) == Ok::<
            Seq<VarbindView>,
            DecodeFault,
        >(done + varbinds),
    decreases varbinds.len(),
{
    if varbinds.len() == 0 {
        assert(done + varbinds =~= done);
    } else {
        let decoded = varbind::decoded_varbinds(varbinds);
        let rest = varbinds.skip(1);
        assert(varbind::wire_varbind(varbinds[0]));
        varbind::law_value_conversion(varbinds[0].value);
        assert(decoded.skip(1) =~= varbind::decoded_varbinds(rest));
        assert forall|i: int| 0 <= i < rest.len() implies varbind::wire_varbind(
            #[trigger] rest[i],
        ) by {
            assert(varbind::wire_varbind(varbinds[i + 1]));
        }
        let first = VarbindView { oid: decoded[0].name, value: varbinds[0].value };
        assert(first == varbinds[0]);
        lemma_converted(done.push(first), rest);
        assert(done.push(first) + rest =~= done + varbinds);
    }
}

/// An encoded `VarBindList` is decoded to the varbinds that it was written for.
pub proof fn law_varbinds_round_trip(varbinds: Seq<VarbindView>)
    requires
        forall|i: int| 0 <= i < varbinds.len() ==> varbind::wire_varbind(#[trigger] varbinds[i]),
        varbind::varbind_list_tlv(varbinds).len() <= usize::MAX,
    ensures
        varbinds_outcome(varbind::varbind_list_tlv(varbinds)) == Ok::<
            Seq<VarbindView>,
            DecodeFault,
        >(varbinds),
{
    varbind::law_varbind_list_round_trip(varbinds);
    lemma_converted(Seq::empty(), varbinds);
    assert(Seq::<VarbindView>::empty() + varbinds =~= varbinds);
}

/// A `VarBindList` is no longer than the PDU around it.
pub proof fn lemma_list_in_pdu(tag: u8, a: i32, b: i32, c: i32, list: Seq<u8>)
    ensures
        list.len() <= ber_pdu::pdu_tlv(tag, a, b, c, list).len(),
{
    tlv::lemma_tlv_len(
        tag,
        tlv::integer_tlv(a as int) + tlv::integer_tlv(b as int) + tlv::integer_tlv(c as int)
            + list,
    );
}

/// Every request decodes to itself from the bytes in which a manager sends it.
pub proof fn law_request_round_trip(pdu: InboundView, prefix: Seq<char>)
    requires
        wire_request(pdu),
        inbound_tlv(pdu).len() <= usize::MAX,
    ensures
        inbound_pdu_outcome(inbound_tlv(pdu), prefix) == Ok::<InboundView, DecodeFault>(pdu),
{
    let varbinds = inbound_varbinds(pdu);
    let contents = varbind::concat(varbind::varbind_tlvs(varbinds));
    let list = varbind::varbind_list_tlv(varbinds);
    match pdu {
        InboundView::GetRequest { request_id, .. } => {
            lemma_list_in_pdu(TAG_GET_REQUEST, request_id, 0, 0, list);
            ber_pdu::law_pdu_round_trip(TAG_GET_REQUEST, request_id, 0, 0, contents);
        },
        InboundView::GetNextRequest { request_id, .. } => {
            lemma_list_in_pdu(TAG_GET_NEXT_REQUEST, request_id, 0, 0, list);
            ber_pdu::law_pdu_round_trip(TAG_GET_NEXT_REQUEST, request_id, 0, 0, contents);
        },
        InboundView::GetBulkRequest { request_id, non_repeaters, max_repetitions, .. } => {
            lemma_list_in_pdu(
                TAG_GET_BULK_REQUEST,
                request_id,
                non_repeaters as i32,
                max_repetitions as i32,
                list,
            );
            ber_pdu::law_pdu_round_trip(
                TAG_GET_BULK_REQUEST,
                request_id,
                non_repeaters as i32,
                max_repetitions as i32,
                contents,
            );
        },
        InboundView::SetRequest { request_id, .. } => {
            lemma_list_in_pdu(TAG_SET_REQUEST, request_id, 0, 0, list);
            ber_pdu::law_pdu_round_trip(TAG_SET_REQUEST, request_id, 0, 0, contents);
        },
    }
    law_varbinds_round_trip(varbinds);
}

/// A GETBULK request with negative counts decodes as one with counts of zero.
pub proof fn law_negative_counts(
    request_id: i32,
    non_repeaters: i32,
    max_repetitions: i32,
    varbinds: Seq<VarbindView>,
    prefix: Seq<char>,
)
    requires
        forall|i: int| 0 <= i < varbinds.len() ==> varbind::wire_varbind(#[trigger] varbinds[i]),
        ber_pdu::pdu_tlv(
            TAG_GET_BULK_REQUEST,
            request_id,
            non_repeaters,
            max_repetitions,
            varbind::varbind_list_tlv(varbinds),
        ).len() <= usize::MAX,
    ensures
        inbound_pdu_outcome(
            ber_pdu::pdu_tlv(
                TAG_GET_BULK_REQUEST,
                request_id,
                non_repeaters,
                max_repetitions,
                varbind::varbind_list_tlv(varbinds),
            ),
            prefix,
        ) == Ok::<InboundView, DecodeFault>(
            InboundView::GetBulkRequest {
                request_id,
                non_repeaters: if non_repeaters < 0 {
                    0
                } else {
                    non_repeaters as u32
                },
                max_repetitions: if max_repetitions < 0 {
                    0
                } else {
                    max_repetitions as u32
                },
                varbinds,
            },
        ),
{
    let contents = varbind::concat(varbind::varbind_tlvs(varbinds));
    let list = varbind::varbind_list_tlv(varbinds);
    lemma_list_in_pdu(TAG_GET_BULK_REQUEST, request_id, non_repeaters, max_repetitions, list);
    ber_pdu::law_pdu_round_trip(
        TAG_GET_BULK_REQUEST,
        request_id,
        non_repeaters,
        max_repetitions,
        contents,
    );
    law_varbinds_round_trip(varbinds);
}

/// A PDU of a type that an agent sends is refused as inbound, whatever it holds.
pub proof fn law_outbound_refused(bytes: Seq<u8>, prefix: Seq<char>)
    requires
        ber_pdu::pdu_outcome(bytes) matches Ok(DecodedPduView::Standard { tag, .. }) && (tag
            == TAG_RESPONSE || tag == TAG_INFORM_REQUEST || tag == TAG_TRAP || tag == TAG_REPORT),
    ensures
        inbound_pdu_outcome(bytes, prefix) matches Err(fault) && fault.kind
            == DecodeErrorKind::UnsupportedPduType,
{
}

/// A request in the clear decodes to itself from the message in which a manager sends it.
pub proof fn law_v3_request_round_trip(
    header: HeaderView,
    usm: UsmView,
    context_engine_id: Seq<u8>,
    context_name: Seq<u8>,
    pdu: InboundView,
)
    requires
        header.msg_id >= 0,
        header.max_size >= ber_snmp::MSG_MAX_SIZE_LEAST,
        wire_request(pdu),
        ber_snmp::v3_message_tlv(
            header,
            usm,
            ber_snmp::scoped_pdu_tlv(context_engine_id, context_name, inbound_tlv(pdu)),
            false,
        ).len() <= usize::MAX,
    ensures
        ({
            let bytes = ber_snmp::v3_message_tlv(
                header,
                usm,
                ber_snmp::scoped_pdu_tlv(context_engine_id, context_name, inbound_tlv(pdu)),
                false,
            );
            &&& v3_message_outcome(bytes) matches Ok(message) && message.msg_id == header.msg_id
                && message.max_size == header.max_size && message.security_model
                == header.security_model && message.engine_id == context_engine_id
                && message.context_name == context_name && message.user_name == usm.user_name
                && message.scoped_data == V3ScopedView::Plaintext(pdu) && message.usm
                == usm_security_view(header, usm) && message.raw_message == bytes
                && message.usm.auth_engine_id == usm.engine_id && message.usm.security_flags
                == header.security_flags
            &&& v3_message_outcome(bytes) matches Ok(message) && (usm.engine_boots >= 0
                ==> message.usm.auth_engine_boots == usm.engine_boots) && (usm.engine_time >= 0
                ==> message.usm.auth_engine_time == usm.engine_time)
            &&& v3_message_outcome(bytes) matches Ok(message) && (usm.auth_params.len() > 0
                ==> message.usm.auth_params == Some(usm.auth_params)) && (usm.priv_params.len()
                == 8 ==> message.usm.priv_params == Some(usm.priv_params))
        }),
{
    let raw_pdu = inbound_tlv(pdu);
    let scoped = ScopedView::Plaintext { context_engine_id, context_name, raw_pdu };
    ber_snmp::law_envelope_round_trip(header, usm, scoped);
    ber_snmp::lemma_scoped_in_message(header, usm, scoped);
    law_request_round_trip(pdu, "BER decode failed: "@);
}

/// An encrypted payload is handed over as it stands in the message.
pub proof fn law_v3_encrypted_round_trip(header: HeaderView, usm: UsmView, ciphertext: Seq<u8>)
    requires
        header.msg_id >= 0,
        header.max_size >= ber_snmp::MSG_MAX_SIZE_LEAST,
        ber_snmp::v3_message_tlv(header, usm, ciphertext, true).len() <= usize::MAX,
    ensures
        v3_message_outcome(ber_snmp::v3_message_tlv(header, usm, ciphertext, true)) matches Ok(
            message,
        ) && message.msg_id == header.msg_id && message.engine_id == usm.engine_id
            && message.context_name.len() == 0 && message.user_name == usm.user_name
            && message.scoped_data == V3ScopedView::Encrypted(ciphertext) && message.usm
            == usm_security_view(header, usm) && message.max_size == header.max_size
            && message.security_model == header.security_model && message.raw_message
            == ber_snmp::v3_message_tlv(header, usm, ciphertext, true)
            && message.usm.auth_engine_id == usm.engine_id && message.usm.security_flags
            == header.security_flags,
        v3_message_outcome(ber_snmp::v3_message_tlv(header, usm, ciphertext, true)) matches Ok(
            message,
        ) && (usm.engine_boots >= 0 ==> message.usm.auth_engine_boots == usm.engine_boots) && (
        usm.engine_time >= 0 ==> message.usm.auth_engine_time == usm.engine_time),
        v3_message_outcome(ber_snmp::v3_message_tlv(header, usm, ciphertext, true)) matches Ok(
            message,
        ) && (usm.auth_params.len() > 0 ==> message.usm.auth_params == Some(usm.auth_params)) && (
        usm.priv_params.len() == 8 ==> message.usm.priv_params == Some(usm.priv_params)),
{
    ber_snmp::law_envelope_round_trip(header, usm, ScopedView::Encrypted(ciphertext));
}

/// Every field of a message that decodes is the one that its envelope carries, each under
/// its own name. An engine counter that is negative on the wire, which no engine can have
/// sent, becomes the largest number there is. Authentication parameters are absent exactly
/// when they are empty, and privacy parameters unless they are a salt of eight bytes.
pub proof fn law_v3_fields(bytes: Seq<u8>)
    ensures
        v3_message_outcome(bytes) matches Ok(message) ==> ber_snmp::envelope_outcome(
            bytes,
        ) is Ok && ({
            let header = ber_snmp::envelope_outcome(bytes)->Ok_0.header;
            let usm = ber_snmp::envelope_outcome(bytes)->Ok_0.usm;
            &&& message.msg_id == header.msg_id
            &&& message.max_size == header.max_size
            &&& message.security_model == header.security_model
            &&& message.user_name == usm.user_name
            &&& message.raw_message == bytes
            &&& message.usm.security_flags == header.security_flags
            &&& message.usm.auth_engine_id == usm.engine_id
            &&& usm.engine_boots >= 0 ==> message.usm.auth_engine_boots == usm.engine_boots
            &&& usm.engine_boots < 0 ==> message.usm.auth_engine_boots == 0xffff_ffff
            &&& usm.engine_time >= 0 ==> message.usm.auth_engine_time == usm.engine_time
            &&& usm.engine_time < 0 ==> message.usm.auth_engine_time == 0xffff_ffff
            &&& message.usm.auth_params is None <==> usm.auth_params.len() == 0
            &&& message.usm.auth_params matches Some(params) ==> params == usm.auth_params
            &&& message.usm.priv_params is None <==> usm.priv_params.len() != 8
            &&& message.usm.priv_params matches Some(salt) ==> salt == usm.priv_params
            &&& message.auth_params_offset == ber_snmp::envelope_outcome(
                bytes,
            )->Ok_0.auth_params_offset
        }),
{
}

/// The context of a message in the clear is the one that its scoped PDU names, and its PDU
/// is what decoding the raw PDU gives. An encrypted scoped PDU hides its context: the
/// authoritative engine ID and an empty name stand in for it, and the ciphertext is handed
/// over untouched.
pub proof fn law_v3_scoped_data(bytes: Seq<u8>)
    ensures
        ber_snmp::envelope_outcome(bytes) matches Ok(envelope) ==> match envelope.scoped_data {
            ScopedView::Plaintext { context_engine_id, context_name, raw_pdu } => match (
                v3_message_outcome(bytes),
                inbound_pdu_outcome(raw_pdu, "BER decode failed: "@),
            ) {
                (Ok(message), Ok(pdu)) => message.engine_id == context_engine_id
                    && message.context_name == context_name && message.scoped_data
                    == V3ScopedView::Plaintext(pdu),
                (Err(fault), Err(pdu_fault)) => fault == pdu_fault,
                _ => false,
            },
            ScopedView::Encrypted(ciphertext) => v3_message_outcome(bytes) matches Ok(message)
                && message.engine_id == envelope.usm.engine_id && message.context_name.len() == 0
                && message.scoped_data == V3ScopedView::Encrypted(ciphertext),
        },
{
}

/// A scoped PDU that was decrypted is decoded to the context and the request that it was
/// written for.
pub proof fn law_scoped_request_round_trip(
    engine_id: Seq<u8>,
    name: Seq<u8>,
    pdu: InboundView,
)
    requires
        wire_request(pdu),
        ber_snmp::scoped_pdu_tlv(engine_id, name, inbound_tlv(pdu)).len() <= usize::MAX,
    ensures
        scoped_pdu_outcome(ber_snmp::scoped_pdu_tlv(engine_id, name, inbound_tlv(pdu))) == Ok::<
            (Seq<u8>, Seq<u8>, InboundView),
            DecodeFault,
        >((engine_id, name, pdu)),
{
    let raw_pdu = inbound_tlv(pdu);
    ber_snmp::law_scoped_pdu_round_trip(engine_id, name, raw_pdu);
    tlv::lemma_tlv_len(
        TAG_SEQUENCE,
        tlv::octets_tlv(engine_id) + tlv::octets_tlv(name) + raw_pdu,
    );
    law_request_round_trip(pdu, "PDU decode failed: "@);
}

/// Every scoped PDU that decodes gives the engine ID and the context name that it carries,
/// and what decoding its raw PDU gives.
pub proof fn law_scoped_pdu_fields(bytes: Seq<u8>)
    ensures
        ber_snmp::scoped_pdu_outcome(bytes) matches Ok((engine_id, name, raw_pdu)) ==> match (
            scoped_pdu_outcome(bytes),
            inbound_pdu_outcome(raw_pdu, "PDU decode failed: "@),
        ) {
            (Ok(scoped), Ok(pdu)) => scoped.0 == engine_id && scoped.1 == name && scoped.2 == pdu,
            (Err(fault), Err(pdu_fault)) => fault == pdu_fault,
            _ => false,
        },
        ber_snmp::scoped_pdu_outcome(bytes) matches Err(cause) ==> (scoped_pdu_outcome(
            bytes,
        ) matches Err(fault) && fault.kind == DecodeErrorKind::Ber && fault.message
            == "ScopedPDU decode failed: "@ + cause.text()),
{
}

/// A message without an envelope is refused. Only one of another version is reported as of
/// the wrong version; every other fault is a BER failure.
pub proof fn law_v3_refused(bytes: Seq<u8>)
    ensures
        ber_snmp::envelope_outcome(bytes) matches Err(cause) ==> (v3_message_outcome(
            bytes,
        ) matches Err(fault) && (if cause is WrongVersion {
            fault.kind == DecodeErrorKind::WrongVersion && fault.message == cause.text()
        } else {
            fault.kind == DecodeErrorKind::Ber && fault.message == "BER decode failed: "@
                + cause.text()
        })),
{
}

/// A message of another version is reported as such, whatever follows the version.
pub proof fn law_wrong_version(version: i32, rest: Seq<u8>)
    requires
        version != ber_snmp::SNMPV3_VERSION,
        tlv::sequence_tlv(tlv::integer_tlv(version as int) + rest).len() <= usize::MAX,
    ensures
        v3_message_outcome(
            tlv::sequence_tlv(tlv::integer_tlv(version as int) + rest),
        ) matches Err(fault) && fault.kind == DecodeErrorKind::WrongVersion,
{
    let contents = tlv::integer_tlv(version as int) + rest;
    let whole = tlv::sequence_tlv(contents);
    assert(whole + Seq::<u8>::empty() =~= whole);
    tlv::lemma_tlv_len(TAG_SEQUENCE, contents);
    tlv::law_primitive_round_trip(BerType::Oid, TAG_SEQUENCE, contents, Seq::empty(), 0);
    tlv::law_integer_round_trip(version, rest, (whole.len() - contents.len()) as int);
}

/// In every message that decodes, the reported offset is where the authentication
/// parameters stand in the raw message.
pub proof fn law_v3_auth_params_offset(bytes: Seq<u8>)
    requires
        bytes.len() <= usize::MAX,
    ensures
        v3_message_outcome(bytes) matches Ok(message) ==> match (
            message.auth_params_offset,
            message.usm.auth_params,
        ) {
            (Some(start), Some(params)) => start + params.len() <= message.raw_message.len()
                && message.raw_message.subrange(start as int, start + params.len()) == params,
            (None, None) => true,
            _ => false,
        },
{
    ber_snmp::law_auth_params_offset(bytes);
}

/// The tag of a PDU decides the type of the request. In a request other than GETBULK the
/// second and the third number, where a response has its error, are not looked at.
pub proof fn law_request_types(
    request_id: i32,
    second: i32,
    third: i32,
    varbinds: Seq<VarbindView>,
    prefix: Seq<char>,
)
    requires
        forall|i: int| 0 <= i < varbinds.len() ==> varbind::wire_varbind(#[trigger] varbinds[i]),
        ber_pdu::pdu_tlv(
            0xa0,
            request_id,
            second,
            third,
            varbind::varbind_list_tlv(varbinds),
        ).len() <= usize::MAX,
    ensures
        ({
            let list = varbind::varbind_list_tlv(varbinds);
            &&& inbound_pdu_outcome(
                ber_pdu::pdu_tlv(0xa0, request_id, second, third, list),
                prefix,
            ) == Ok::<InboundView, DecodeFault>(InboundView::GetRequest { request_id, varbinds })
            &&& inbound_pdu_outcome(
                ber_pdu::pdu_tlv(0xa1, request_id, second, third, list),
                prefix,
            ) == Ok::<InboundView, DecodeFault>(
                InboundView::GetNextRequest { request_id, varbinds },
            )
            &&& inbound_pdu_outcome(
                ber_pdu::pdu_tlv(0xa3, request_id, second, third, list),
                prefix,
            ) == Ok::<InboundView, DecodeFault>(InboundView::SetRequest { request_id, varbinds })
            &&& inbound_pdu_outcome(
                ber_pdu::pdu_tlv(0xa5, request_id, second, third, list),
                prefix,
            ) matches Ok(InboundView::GetBulkRequest {
                request_id: id,
                non_repeaters,
                max_repetitions,
                varbinds: bound,
            }) && id == request_id && bound == varbinds && (second >= 0 ==> non_repeaters == second)
                && (second < 0 ==> non_repeaters == 0) && (third >= 0 ==> max_repetitions == third)
                && (third < 0 ==> max_repetitions == 0)
        }),
{
    reveal(tlv::tlv_bytes);
    let contents = varbind::concat(varbind::varbind_tlvs(varbinds));
    let list = varbind::varbind_list_tlv(varbinds);
    lemma_list_in_pdu(0xa0, request_id, second, third, list);
    ber_pdu::law_pdu_round_trip(0xa0, request_id, second, third, contents);
    ber_pdu::law_pdu_round_trip(0xa1, request_id, second, third, contents);
    ber_pdu::law_pdu_round_trip(0xa3, request_id, second, third, contents);
    ber_pdu::law_pdu_round_trip(0xa5, request_id, second, third, contents);
    law_varbinds_round_trip(varbinds);
}

/// Every request that decodes carries the request identifier, the counts and the varbinds
/// of the PDU, and is of the type that the tag of the PDU names.
pub proof fn law_request_fields(bytes: Seq<u8>, prefix: Seq<char>)
    ensures
        inbound_pdu_outcome(bytes, prefix) matches Ok(request) ==> match ber_pdu::pdu_outcome(
            bytes,
        ) {
            Ok(DecodedPduView::Standard { tag, request_id: id, raw_varbind_list, .. }) => {
                &&& varbinds_outcome(raw_varbind_list) == Ok::<Seq<VarbindView>, DecodeFault>(
                    inbound_varbinds(request),
                )
                &&& match request {
                    InboundView::GetRequest { request_id, .. } => tag == 0xa0 && request_id == id,
                    InboundView::GetNextRequest { request_id, .. } => tag == 0xa1 && request_id
                        == id,
                    InboundView::SetRequest { request_id, .. } => tag == 0xa3 && request_id == id,
                    InboundView::GetBulkRequest { .. } => false,
                }
            },
            Ok(
                DecodedPduView::Bulk {
                    request_id: id,
                    non_repeaters: n,
                    max_repetitions: m,
                    raw_varbind_list,
                },
            ) => {
                &&& varbinds_outcome(raw_varbind_list) == Ok::<Seq<VarbindView>, DecodeFault>(
                    inbound_varbinds(request),
                )
                &&& request matches InboundView::GetBulkRequest {
                    request_id,
                    non_repeaters,
                    max_repetitions,
                    ..
                }
                &&& request_id == id
                &&& n >= 0 ==> non_repeaters == n
                &&& n < 0 ==> non_repeaters == 0
                &&& m >= 0 ==> max_repetitions == m
                &&& m < 0 ==> max_repetitions == 0
            },
            Err(_) => false,
        },
{
}

/// A PDU that is no PDU on the wire is reported as a BER failure behind the prefix, and so is
/// a fault in its varbinds. A PDU of another type is reported as such.
pub proof fn law_request_refused(bytes: Seq<u8>, prefix: Seq<char>)
    ensures
        match ber_pdu::pdu_outcome(bytes) {
            Err(fault) => inbound_pdu_outcome(bytes, prefix) matches Err(refused) && refused.kind
                == DecodeErrorKind::Ber && refused.message == prefix + fault.text(),
            Ok(DecodedPduView::Standard { tag, raw_varbind_list, .. }) => if tag == 0xa0 || tag
                == 0xa1 || tag == 0xa3 {
                match varbinds_outcome(raw_varbind_list) {
                    Ok(_) => inbound_pdu_outcome(bytes, prefix) is Ok,
                    Err(fault) => inbound_pdu_outcome(bytes, prefix) == Err::<
                        InboundView,
                        DecodeFault,
                    >(fault),
                }
            } else {
                inbound_pdu_outcome(bytes, prefix) matches Err(refused) && refused.kind
                    == DecodeErrorKind::UnsupportedPduType
            },
            Ok(DecodedPduView::Bulk { raw_varbind_list, .. }) => match varbinds_outcome(
                raw_varbind_list,
            ) {
                Ok(_) => inbound_pdu_outcome(bytes, prefix) is Ok,
                Err(fault) => inbound_pdu_outcome(bytes, prefix) == Err::<InboundView, DecodeFault>(
                    fault,
                ),
            },
        },
{
}

proof fn lemma_converted_each(done: Seq<VarbindView>, rest: Seq<DecodedVarbindView>)
    ensures
        match converted_varbinds(done, rest) {
            Ok(all) => all.len() == done.len() + rest.len() && all.take(done.len() as int) == done
                && forall|i: int|
                0 <= i < rest.len() ==> (#[trigger] rest[i]).name == all[done.len() + i].oid
                    && varbind::converted_outcome(rest[i].value) == Ok::<_, BerFault>(
                    all[done.len() + i].value,
                ),
            Err(fault) => fault.kind == DecodeErrorKind::Ber && exists|i: int|
                0 <= i < rest.len() && varbind::converted_outcome(
                    (#[trigger] rest[i]).value,
                ) is Err,
        },
    decreases rest.len(),
{
    if rest.len() == 0 {
        assert(done.take(done.len() as int) =~= done);
    } else if let Ok(value) = varbind::converted_outcome(rest[0].value) {
        let first = VarbindView { oid: rest[0].name, value };
        let next = done.push(first);
        let later = rest.skip(1);
        lemma_converted_each(next, later);
        match converted_varbinds(done, rest) {
            Ok(all) => {
                assert(all.take(next.len() as int).drop_last() =~= all.take(done.len() as int));
                assert(next.drop_last() =~= done);
                assert(all[done.len() as int] == all.take(next.len() as int)[done.len() as int]);
                assert forall|i: int| 0 <= i < rest.len() implies (#[trigger] rest[i]).name
                    == all[done.len() + i].oid && varbind::converted_outcome(rest[i].value) == Ok::<
                    _,
                    BerFault,
                >(all[done.len() + i].value) by {
                    if i > 0 {
                        assert(later[i - 1] == rest[i]);
                    }
                }
            },
            Err(_) => {
                let i = choose|i: int|
                    0 <= i < later.len() && varbind::converted_outcome(
                        (#[trigger] later[i]).value,
                    ) is Err;
                assert(rest[i + 1] == later[i]);
            },
        }
    } else {
        assert(varbind::converted_outcome(rest[0].value) is Err);
    }
}

/// A `VarBindList` decodes to one varbind for each that it holds, in order, each with its
/// own OID and the value that its own bytes stand for. It is refused only where the list or
/// one of these values is.
pub proof fn law_varbinds_in_order(raw_list: Seq<u8>)
    ensures
        match varbind::varbind_list_outcome(raw_list) {
            Err(_) => varbinds_outcome(raw_list) matches Err(fault) && fault.kind
                == DecodeErrorKind::Ber,
            Ok(decoded) => match varbinds_outcome(raw_list) {
                Ok(varbinds) => varbinds.len() == decoded.len() && forall|i: int|
                    0 <= i < decoded.len() ==> (#[trigger] decoded[i]).name == varbinds[i].oid
                        && varbind::converted_outcome(decoded[i].value) == Ok::<_, BerFault>(
                        varbinds[i].value,
                    ),
                Err(fault) => fault.kind == DecodeErrorKind::Ber && exists|i: int|
                    0 <= i < decoded.len() && varbind::converted_outcome(
                        (#[trigger] decoded[i]).value,
                    ) is Err,
            },
        },
{
    if let Ok(decoded) = varbind::varbind_list_outcome(raw_list) {
        lemma_converted_each(Seq::empty(), decoded);
    }
}

/// What [`decode_v3_message`] returns for a message has the fields that the message was
/// written with, each under its own name; a scoped PDU in the clear gives its context and its
/// request, and an encrypted one its ciphertext, with the authoritative engine ID and an
/// empty name in place of the context that it hides.
pub proof fn law_decode_v3_message(
    header: HeaderView,
    usm: UsmView,
    scoped: ScopedView,
    pdu: InboundView,
    bytes: &[u8],
    result: Result<V3InboundMessage<'_>, DecodeError>,
)
    requires
        call_ensures(decode_v3_message, (bytes,), result),
        header.msg_id >= 0,
        header.max_size >= 484,
        wire_request(pdu),
        scoped matches ScopedView::Plaintext { raw_pdu, .. } ==> raw_pdu == inbound_tlv(pdu),
        bytes@ == ber_snmp::v3_message_tlv(
            header,
            usm,
            ber_snmp::scoped_bytes(scoped),
            scoped is Encrypted,
        ),
    ensures
        result matches Ok(message) && {
            &&& message.msg_id@ == header.msg_id
            &&& message.max_size == header.max_size
            &&& message.security_model@ == header.security_model
            &&& message.user_name@ == usm.user_name
            &&& message.raw_message@ == bytes@
            &&& message.usm.security_flags == header.security_flags
            &&& message.usm.auth_engine_id@ == usm.engine_id
            &&& usm.engine_boots >= 0 ==> message.usm.auth_engine_boots == usm.engine_boots
            &&& usm.engine_time >= 0 ==> message.usm.auth_engine_time == usm.engine_time
            &&& match message.usm.auth_params {
                Some(params) => params@ == usm.auth_params,
                None => usm.auth_params.len() == 0,
            }
            &&& match message.usm.priv_params {
                Some(salt) => salt@ == usm.priv_params,
                None => usm.priv_params.len() != 8,
            }
            &&& match scoped {
                ScopedView::Plaintext { context_engine_id, context_name, .. } => {
                    &&& message.engine_id@ == context_engine_id
                    &&& message.context_name@ == context_name
                    &&& message.scoped_data matches V3ScopedData::Plaintext(got) && got@ == pdu
                },
                ScopedView::Encrypted(ciphertext) => {
                    &&& message.engine_id@ == usm.engine_id
                    &&& message.context_name@.len() == 0
                    &&& message.scoped_data matches V3ScopedData::Encrypted(got) && got@
                        == ciphertext
                },
            }
            &&& match message.auth_params_offset {
                Some(start) => start + usm.auth_params.len() <= bytes@.len() && bytes@.subrange(
                    start as int,
                    start + usm.auth_params.len(),
                ) == usm.auth_params,
                None => usm.auth_params.len() == 0,
            }
        },
{
    assert(bytes.len() <= usize::MAX);
    let whole = ber_snmp::scoped_bytes(scoped);
    ber_snmp::law_envelope_round_trip(header, usm, scoped);
    ber_snmp::law_auth_start(header, usm, whole, scoped is Encrypted);
    if scoped is Plaintext {
        ber_snmp::lemma_scoped_in_message(header, usm, scoped);
        law_request_round_trip(pdu, "BER decode failed: "@);
    }
}

/// What [`decode_scoped_pdu`] returns for a scoped PDU is the engine ID, the context name and
/// the request that it was written with.
pub proof fn law_decode_scoped_pdu(
    engine_id: Seq<u8>,
    name: Seq<u8>,
    pdu: InboundView,
    bytes: &[u8],
    result: Result<DecodedScopedPdu, DecodeError>,
)
    requires
        call_ensures(decode_scoped_pdu, (bytes,), result),
        wire_request(pdu),
        bytes@ == ber_snmp::scoped_pdu_tlv(engine_id, name, inbound_tlv(pdu)),
    ensures
        result matches Ok(scoped) && scoped.context_engine_id@ == engine_id
            && scoped.context_name@ == name && scoped.pdu@ == pdu,
{
    assert(bytes.len() <= usize::MAX);
    law_scoped_request_round_trip(engine_id, name, pdu);
}

/// What [`decode_pdu`] returns for a request is the request that it was written for.
pub proof fn law_decode_pdu(
    pdu: InboundView,
    bytes: &[u8],
    result: Result<InboundPdu, DecodeError>,
)
    requires
        call_ensures(decode_pdu, (bytes,), result),
        wire_request(pdu),
        bytes@ == inbound_tlv(pdu),
    ensures
        result matches Ok(got) && got@ == pdu,
{
    assert(bytes.len() <= usize::MAX);
    law_request_round_trip(pdu, "BER decode failed: "@);
}

/// A request as a manager sends it is one triple under the tag of its type, around the
/// request identifier, two zeros or the counts of a GETBULK, and the `VarBindList`.
pub proof fn law_request_layout(pdu: InboundView)
    ensures
        match pdu {
            InboundView::GetRequest { request_id, varbinds } => inbound_tlv(pdu)[0] == 0xa0
                && inbound_tlv(pdu) == ber_pdu::pdu_tlv(
                0xa0,
                request_id,
                0,
                0,
                varbind::varbind_list_tlv(varbinds),
            ),
            InboundView::GetNextRequest { request_id, varbinds } => inbound_tlv(pdu)[0] == 0xa1
                && inbound_tlv(pdu) == ber_pdu::pdu_tlv(
                0xa1,
                request_id,
                0,
                0,
                varbind::varbind_list_tlv(varbinds),
            ),
            InboundView::SetRequest { request_id, varbinds } => inbound_tlv(pdu)[0] == 0xa3
                && inbound_tlv(pdu) == ber_pdu::pdu_tlv(
                0xa3,
                request_id,
                0,
                0,
                varbind::varbind_list_tlv(varbinds),
            ),
            InboundView::GetBulkRequest { request_id, non_repeaters, max_repetitions, varbinds } =>
                inbound_tlv(pdu)[0] == 0xa5 && inbound_tlv(pdu) == ber_pdu::pdu_tlv(
                0xa5,
                request_id,
                non_repeaters as i32,
                max_repetitions as i32,
                varbind::varbind_list_tlv(varbinds),
            ),
        },
{
    reveal(tlv::tlv_bytes);
}

} // verus!
