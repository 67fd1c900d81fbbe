//! SNMP message envelopes on the wire.

use vstd::prelude::*;
use vstd::slice::slice_to_vec;
use crate::codec::ber::error;
use crate::codec::ber::error::{BerError, BerFault, BerType};
use crate::codec::ber::reader::BerReader;
use crate::codec::ber::tag::{TAG_OCTET_STRING, TAG_SEQUENCE};
use crate::codec::ber::tlv;
use crate::codec::ber::tlv::{Cursor, Step};
use crate::codec::ber::writer::BerWriter;

verus! {

/// The `msgVersion` of `SNMPv3`.
pub const SNMPV3_VERSION: i32 = 3;

/// The `version` of `SNMPv2c`.
pub const SNMPV2C_VERSION: i32 = 1;

/// The `msgMaxSize` that this agent announces.
pub const MSG_MAX_SIZE_UDP: i32 = 65535;

/// The least `msgMaxSize` that a peer may announce (RFC 3412 §6.6).
pub const MSG_MAX_SIZE_LEAST: i32 = 484;

// ----- Decoded forms ---------------------------------------------------------------

/// The envelope of an `SNMPv3` message.
#[derive(Debug)]
pub struct V3MessageEnvelope<'a> {
    /// `msgID`, never negative.
    pub msg_id: i32,
    /// `msgMaxSize`, at least 484.
    pub max_size: i32,
    /// The `msgFlags` byte.
    pub security_flags: u8,
    /// `msgSecurityModel`.
    pub security_model: i32,
    /// The USM security parameters.
    pub usm: UsmFields,
    /// The scoped PDU, or its ciphertext.
    pub scoped_data: ScopedData,
    /// The whole message as received.
    pub raw_message: &'a [u8],
    /// Where the authentication parameters stand in `raw_message`, unless they are empty.
    pub auth_params_offset: Option<usize>,
}

/// The USM security parameters of a message.
#[derive(Debug)]
pub struct UsmFields {
    /// `msgAuthoritativeEngineID`.
    pub engine_id: Vec<u8>,
    /// `msgAuthoritativeEngineBoots`.
    pub engine_boots: i32,
    /// `msgAuthoritativeEngineTime`.
    pub engine_time: i32,
    /// `msgUserName`.
    pub user_name: Vec<u8>,
    /// `msgAuthenticationParameters`.
    pub auth_params: Vec<u8>,
    /// `msgPrivacyParameters`.
    pub priv_params: Vec<u8>,
}

/// The scoped PDU of a message.
#[derive(Debug)]
pub enum ScopedData {
    /// A scoped PDU in the clear.
    Plaintext { context_engine_id: Vec<u8>, context_name: Vec<u8>, raw_pdu: Vec<u8> },
    /// The ciphertext of a scoped PDU.
    Encrypted(Vec<u8>),
}

/// The fields of a scoped PDU.
#[derive(Debug)]
pub struct DecodedScopedPduFields {
    /// `contextEngineID`.
    pub context_engine_id: Vec<u8>,
    /// `contextName`.
    pub context_name: Vec<u8>,
    /// The encoded PDU.
    pub raw_pdu: Vec<u8>,
}

/// [`UsmFields`] as a mathematical value.
pub struct UsmView {
    /// `msgAuthoritativeEngineID`.
    pub engine_id: Seq<u8>,
    /// `msgAuthoritativeEngineBoots`.
    pub engine_boots: i32,
    /// `msgAuthoritativeEngineTime`.
    pub engine_time: i32,
    /// `msgUserName`.
    pub user_name: Seq<u8>,
    /// `msgAuthenticationParameters`.
    pub auth_params: Seq<u8>,
    /// `msgPrivacyParameters`.
    pub priv_params: Seq<u8>,
}

impl View for UsmFields {
    type V = UsmView;

    open spec fn view(&self) -> UsmView {
        UsmView {
            engine_id: self.engine_id@,
            engine_boots: self.engine_boots,
            engine_time: self.engine_time,
            user_name: self.user_name@,
            auth_params: self.auth_params@,
            priv_params: self.priv_params@,
        }
    }
}

/// [`ScopedData`] as a mathematical value.
pub enum ScopedView {
    /// A scoped PDU in the clear.
    Plaintext { context_engine_id: Seq<u8>, context_name: Seq<u8>, raw_pdu: Seq<u8> },
    /// The ciphertext of a scoped PDU.
    Encrypted(Seq<u8>),
}

impl View for ScopedData {
    type V = ScopedView;

    open spec fn view(&self) -> ScopedView {
        match self {
            ScopedData::Plaintext { context_engine_id, context_name, raw_pdu } =>
                ScopedView::Plaintext {
                context_engine_id: context_engine_id@,
                context_name: context_name@,
                raw_pdu: raw_pdu@,
            },
            ScopedData::Encrypted(bytes) => ScopedView::Encrypted(bytes@),
        }
    }
}

/// The `HeaderData` of a message.
pub struct HeaderView {
    /// `msgID`.
    pub msg_id: i32,
    /// `msgMaxSize`.
    pub max_size: i32,
    /// The `msgFlags` byte.
    pub security_flags: u8,
    /// `msgSecurityModel`.
    pub security_model: i32,
}

/// [`V3MessageEnvelope`] as a mathematical value, the raw message aside.
pub struct EnvelopeView {
    /// The `HeaderData`.
    pub header: HeaderView,
    /// The USM security parameters.
    pub usm: UsmView,
    /// The scoped PDU, or its ciphertext.
    pub scoped_data: ScopedView,
    /// Where the authentication parameters stand in the message, unless they are empty.
    pub auth_params_offset: Option<usize>,
}

impl<'a> View for V3MessageEnvelope<'a> {
    type V = EnvelopeView;

    open spec fn view(&self) -> EnvelopeView {
        EnvelopeView {
            header: HeaderView {
                msg_id: self.msg_id,
                max_size: self.max_size,
                security_flags: self.security_flags,
                security_model: self.security_model,
            },
            usm: self.usm@,
            scoped_data: self.scoped_data@,
            auth_params_offset: self.auth_params_offset,
        }
    }
}

// ----- What the bytes stand for ------------------------------------------------------

/// The `HeaderData` whose contents are at `place`.
pub open spec fn header_outcome(place: Cursor) -> Result<HeaderView, BerFault> {
    let id = place.integer();
    let after_id = place.advance(id.used);
    let size = after_id.integer();
    let after_size = after_id.advance(size.used);
    let flags = after_size.octets();
    let after_flags = after_size.advance(flags.used);
    match id.outcome {
        Err(fault) => Err(fault),
        Ok(msg_id) => if msg_id < 0 {
            Err(BerFault::NegativeMessageId)
        } else {
            match size.outcome {
                Err(fault) => Err(fault),
                Ok(max_size) => if max_size < MSG_MAX_SIZE_LEAST {
                    Err(BerFault::MaxSizeTooSmall)
                } else {
                    match flags.outcome {
                        Err(fault) => Err(fault),
                        Ok(bytes) => if bytes.len() != 1 {
                            Err(BerFault::FlagsLength { length: bytes.len() as usize })
                        } else {
                            match after_flags.integer().outcome {
                                Err(fault) => Err(fault),
                                Ok(security_model) => Ok(
                                    HeaderView {
                                        msg_id,
                                        max_size,
                                        security_flags: bytes[0],
                                        security_model,
                                    },
                                ),
                            }
                        },
                    }
                },
            }
        },
    }
}

/// The USM security parameters up to the authentication parameters, whose contents are
/// at `place`, and the place behind the authentication parameters.
pub open spec fn usm_head_outcome(place: Cursor) -> Result<(UsmView, Cursor), BerFault> {
    let engine = place.octets();
    let after_engine = place.advance(engine.used);
    let boots = after_engine.integer();
    let after_boots = after_engine.advance(boots.used);
    let time = after_boots.integer();
    let after_time = after_boots.advance(time.used);
    let user = after_time.octets();
    let after_user = after_time.advance(user.used);
    let auth = after_user.octets();
    match engine.outcome {
        Err(fault) => Err(fault),
        Ok(engine_id) => match boots.outcome {
            Err(fault) => Err(fault),
            Ok(engine_boots) => match time.outcome {
                Err(fault) => Err(fault),
                Ok(engine_time) => match user.outcome {
                    Err(fault) => Err(fault),
                    Ok(user_name) => match auth.outcome {
                        Err(fault) => Err(fault),
                        Ok(auth_params) => Ok(
                            (
                                UsmView {
                                    engine_id,
                                    engine_boots,
                                    engine_time,
                                    user_name,
                                    auth_params,
                                    priv_params: Seq::empty(),
                                },
                                after_user.advance(auth.used),
                            ),
                        ),
                    },
                },
            },
        },
    }
}

/// Where the `length` bytes that end at `place` start, unless there are none.
pub open spec fn ending_at(place: Cursor, length: nat) -> Option<usize> {
    if length == 0 {
        None
    } else {
        Some((place.at - length) as usize)
    }
}

/// The USM security parameters at `place`, and where the authentication parameters stand.
pub open spec fn usm_outcome(place: Cursor) -> Result<(UsmView, Option<usize>), BerFault> {
    match place.sequence().outcome {
        Err(fault) => Err(fault),
        Ok(inner) => match usm_head_outcome(inner) {
            Err(fault) => Err(fault),
            Ok((head, after)) => match after.octets().outcome {
                Err(fault) => Err(fault),
                Ok(priv_params) => Ok(
                    (UsmView { priv_params, ..head }, ending_at(after, head.auth_params.len())),
                ),
            },
        },
    }
}

/// The place of the contents of an OCTET STRING, and the bytes that it takes.
pub open spec fn octets_contents(place: Cursor) -> Step<Cursor> {
    let step = place.octets();
    Step {
        outcome: match step.outcome {
            Err(fault) => Err(fault),
            Ok(bytes) => Ok(Cursor { rest: bytes, at: place.at + step.used - bytes.len() }),
        },
        used: step.used,
    }
}

/// The fields of a scoped PDU whose contents are at `place`: two OCTET STRINGs, and the
/// rest.
pub open spec fn scoped_fields_outcome(place: Cursor) -> Result<
    (Seq<u8>, Seq<u8>, Seq<u8>),
    BerFault,
> {
    let engine = place.octets();
    let after_engine = place.advance(engine.used);
    let name = after_engine.octets();
    match engine.outcome {
        Err(fault) => Err(fault),
        Ok(context_engine_id) => match name.outcome {
            Err(fault) => Err(fault),
            Ok(context_name) => Ok(
                (context_engine_id, context_name, after_engine.advance(name.used).rest),
            ),
        },
    }
}

/// The scoped PDU at `place`: a SEQUENCE in the clear, an OCTET STRING of ciphertext.
pub open spec fn scoped_data_outcome(place: Cursor) -> Result<ScopedView, BerFault> {
    match place.peek() {
        Err(fault) => Err(fault),
        Ok(tag) => if tag == TAG_SEQUENCE {
            match place.sequence().outcome {
                Err(fault) => Err(fault),
                Ok(inner) => match scoped_fields_outcome(inner) {
                    Err(fault) => Err(fault),
                    Ok((context_engine_id, context_name, raw_pdu)) => Ok(
                        ScopedView::Plaintext { context_engine_id, context_name, raw_pdu },
                    ),
                },
            }
        } else if tag == TAG_OCTET_STRING {
            match place.octets().outcome {
                Err(fault) => Err(fault),
                Ok(bytes) => Ok(ScopedView::Encrypted(bytes)),
            }
        } else {
            Err(BerFault::UnexpectedScopedPdu { tag })
        },
    }
}

/// What follows the version, at `place`: header, security parameters and scoped PDU.
pub open spec fn body_outcome(place: Cursor) -> Result<EnvelopeView, BerFault> {
    let head = place.sequence();
    let after_head = place.advance(head.used);
    let params = octets_contents(after_head);
    match head.outcome {
        Err(fault) => Err(fault),
        Ok(inner) => match header_outcome(inner) {
            Err(fault) => Err(fault),
            Ok(header) => match params.outcome {
                Err(fault) => Err(fault),
                Ok(params_place) => match usm_outcome(params_place) {
                    Err(fault) => Err(fault),
                    Ok((usm, auth_params_offset)) => match scoped_data_outcome(
                        after_head.advance(params.used),
                    ) {
                        Err(fault) => Err(fault),
                        Ok(scoped_data) => Ok(
                            EnvelopeView { header, usm, scoped_data, auth_params_offset },
                        ),
                    },
                },
            },
        },
    }
}

/// The envelope of the `SNMPv3` message that `bytes` start with.
pub open spec fn envelope_outcome(bytes: Seq<u8>) -> Result<EnvelopeView, BerFault> {
    match (Cursor { rest: bytes, at: 0 }).sequence().outcome {
        Err(fault) => Err(fault),
        Ok(inner) => {
            let version = inner.integer();
            match version.outcome {
                Err(fault) => Err(fault),
                Ok(number) => if number != SNMPV3_VERSION {
                    Err(BerFault::WrongVersion { version: number })
                } else {
                    body_outcome(inner.advance(version.used))
                },
            }
        },
    }
}

/// The fields of the scoped PDU that `bytes` start with.
pub open spec fn scoped_pdu_outcome(bytes: Seq<u8>) -> Result<
    (Seq<u8>, Seq<u8>, Seq<u8>),
    BerFault,
> {
    match (Cursor { rest: bytes, at: 0 }).sequence().outcome {
        Err(fault) => Err(fault),
        Ok(inner) => scoped_fields_outcome(inner),
    }
}

/// Where the authentication parameters stand in the message that `bytes` start with.
pub open spec fn located_outcome(bytes: Seq<u8>) -> Result<usize, BerFault> {
    match (Cursor { rest: bytes, at: 0 }).sequence().outcome {
        Err(fault) => Err(fault),
        Ok(inner) => {
            let version = inner.integer();
            let after_version = inner.advance(version.used);
            let head = after_version.sequence();
            let params = octets_contents(after_version.advance(head.used));
            match version.outcome {
                Err(fault) => Err(fault),
                Ok(_) => match head.outcome {
                    Err(fault) => Err(fault),
                    Ok(_) => match params.outcome {
                        Err(fault) => Err(fault),
                        Ok(place) => match place.sequence().outcome {
                            Err(fault) => Err(fault),
                            Ok(usm_inner) => match usm_head_outcome(usm_inner) {
                                Err(fault) => Err(fault),
                                Ok((usm, after)) => Ok(
                                    (after.at - usm.auth_params.len()) as usize,
                                ),
                            },
                        },
                    },
                },
            }
        },
    }
}

// ----- How messages are written --------------------------------------------------------

/// A scoped PDU.
pub open spec fn scoped_pdu_tlv(engine_id: Seq<u8>, name: Seq<u8>, pdu: Seq<u8>) -> Seq<u8> {
    tlv::sequence_tlv(tlv::octets_tlv(engine_id) + tlv::octets_tlv(name) + pdu)
}

/// The fields of the USM security parameters in front of the privacy parameters.
pub open spec fn usm_head_bytes(usm: UsmView) -> Seq<u8> {
    tlv::octets_tlv(usm.engine_id) + tlv::integer_tlv(usm.engine_boots as int) + tlv::integer_tlv(
        usm.engine_time as int,
    ) + tlv::octets_tlv(usm.user_name) + tlv::octets_tlv(usm.auth_params)
}

/// The USM security parameters.
pub open spec fn usm_tlv(usm: UsmView) -> Seq<u8> {
    tlv::sequence_tlv(usm_head_bytes(usm) + tlv::octets_tlv(usm.priv_params))
}

/// The `HeaderData`.
pub open spec fn header_tlv(header: HeaderView) -> Seq<u8> {
    tlv::sequence_tlv(
        tlv::integer_tlv(header.msg_id as int) + tlv::integer_tlv(header.max_size as int)
            + tlv::octets_tlv(seq![header.security_flags]) + tlv::integer_tlv(
            header.security_model as int,
        ),
    )
}

/// The scoped PDU as it stands in the message.
pub open spec fn scoped_part(scoped: Seq<u8>, encrypted: bool) -> Seq<u8> {
    if encrypted {
        tlv::octets_tlv(scoped)
    } else {
        scoped
    }
}

/// An `SNMPv3` message.
pub open spec fn v3_message_tlv(
    header: HeaderView,
    usm: UsmView,
    scoped: Seq<u8>,
    encrypted: bool,
) -> Seq<u8> {
    tlv::sequence_tlv(
        tlv::integer_tlv(SNMPV3_VERSION as int) + header_tlv(header) + tlv::octets_tlv(
            usm_tlv(usm),
        ) + scoped_part(scoped, encrypted),
    )
}

/// Where the authentication parameters start in an `SNMPv3` message: they are followed
/// by the privacy parameters and the scoped PDU.
pub open spec fn auth_start(header: HeaderView, usm: UsmView, scoped: Seq<u8>, encrypted: bool) -> int {
    v3_message_tlv(header, usm, scoped, encrypted).len() - scoped_part(scoped, encrypted).len()
        - tlv::octets_tlv(usm.priv_params).len() - usm.auth_params.len()
}

/// An `SNMPv2c` message.
pub open spec fn v2c_message_tlv(community: Seq<u8>, pdu: Seq<u8>) -> Seq<u8> {
    tlv::sequence_tlv(
        tlv::integer_tlv(SNMPV2C_VERSION as int) + tlv::octets_tlv(community) + pdu,
    )
}

// ----- Decoding ----------------------------------------------------------------------

/// Reads the envelope of an `SNMPv3` message.
pub fn decode_v3_envelope<'a>(bytes: &'a [u8]) -> (result: Result<
    V3MessageEnvelope<'a>,
    BerError,
>)
    ensures
        match (result, envelope_outcome(bytes@)) {
            (Ok(envelope), Ok(wanted)) => envelope@ == wanted && envelope.raw_message@ == bytes@,
            (Err(error), Err(fault)) => error.reports(fault),
            _ => false,
        },
{
    let mut outer_reader = BerReader::new(bytes);
    let mut msg_reader = match outer_reader.read_sequence() {
        Ok(reader) => reader,
        Err(error) => {
            return Err(error);
        },
    };
    let version: i32 = match msg_reader.read_integer() {
        Ok(value) => value,
        Err(error) => {
            return Err(error);
        },
    };
    if version != SNMPV3_VERSION {
        return Err(BerError::from_fault(BerFault::WrongVersion { version }));
    }
    let mut header_reader = match msg_reader.read_sequence() {
        Ok(reader) => reader,
        Err(error) => {
            return Err(error);
        },
    };
    let (msg_id, max_size, security_flags, security_model): (i32, i32, u8, i32) =
        match read_header(&mut header_reader) {
        Ok(header) => header,
        Err(error) => {
            return Err(error);
        },
    };
    let mut usm_outer_reader = match read_octets_contents(&mut msg_reader) {
        Ok(reader) => reader,
        Err(error) => {
            return Err(error);
        },
    };
    let (usm, auth_params_offset) = match read_usm(&mut usm_outer_reader) {
        Ok(usm) => usm,
        Err(error) => {
            return Err(error);
        },
    };
    let scoped_data = match read_scoped_data(&mut msg_reader) {
        Ok(scoped_data) => scoped_data,
        Err(error) => {
            return Err(error);
        },
    };
    Ok(
        V3MessageEnvelope {
            msg_id,
            max_size,
            security_flags,
            security_model,
            usm,
            scoped_data,
            raw_message: bytes,
            auth_params_offset,
        },
    )
}

fn read_header(reader: &mut BerReader<'_>) -> (result: Result<(i32, i32, u8, i32), BerError>)
    ensures
        match (result, header_outcome(old(reader)@)) {
            (Ok((id, size, flags, model)), Ok(header)) => header == (HeaderView {
                msg_id: id,
                max_size: size,
                security_flags: flags,
                security_model: model,
            }),
            (Err(error), Err(fault)) => error.reports(fault),
            _ => false,
        },
{
    let msg_id: i32 = match reader.read_integer() {
        Ok(value) => value,
        Err(error) => {
            return Err(error);
        },
    };
    if msg_id < 0 {
        return Err(BerError::from_fault(BerFault::NegativeMessageId));
    }
    let max_size: i32 = match reader.read_integer() {
        Ok(value) => value,
        Err(error) => {
            return Err(error);
        },
    };
    if max_size < MSG_MAX_SIZE_LEAST {
        return Err(BerError::from_fault(BerFault::MaxSizeTooSmall));
    }
    let flags_bytes = match reader.read_octet_string() {
        Ok(bytes) => bytes,
        Err(error) => {
            return Err(error);
        },
    };
    if flags_bytes.len() != 1 {
        return Err(
            BerError::from_fault(BerFault::FlagsLength { length: flags_bytes.len() }),
        );
    }
    match reader.read_integer() {
        Ok(security_model) => Ok((msg_id, max_size, flags_bytes[0], security_model)),
        Err(error) => Err(error),
    }
}

fn read_octets_contents<'a>(reader: &mut BerReader<'a>) -> (result: Result<
    BerReader<'a>,
    BerError,
>)
    ensures
        crate::codec::ber::reader::reader_agrees(result, octets_contents(old(reader)@).outcome),
        final(reader)@ == old(reader)@.advance(octets_contents(old(reader)@).used),
{
    match reader.read_octet_string() {
        Ok(bytes) => {
            let start: usize = reader.offset() - bytes.len();
            Ok(BerReader::new_with_offset(bytes, start))
        },
        Err(error) => Err(error),
    }
}

fn read_usm_head(reader: &mut BerReader<'_>) -> (result: Result<UsmFields, BerError>)
    ensures
        match (result, usm_head_outcome(old(reader)@)) {
            (Ok(usm), Ok((head, after))) => usm@ == head && final(reader)@ == after
                && head.auth_params.len() <= after.at <= usize::MAX,
            (Err(error), Err(fault)) => error.reports(fault),
            _ => false,
        },
{
    let engine_id = match reader.read_octet_string() {
        Ok(bytes) => slice_to_vec(bytes),
        Err(error) => {
            return Err(error);
        },
    };
    let engine_boots: i32 = match reader.read_integer() {
        Ok(value) => value,
        Err(error) => {
            return Err(error);
        },
    };
    let engine_time: i32 = match reader.read_integer() {
        Ok(value) => value,
        Err(error) => {
            return Err(error);
        },
    };
    let user_name = match reader.read_octet_string() {
        Ok(bytes) => slice_to_vec(bytes),
        Err(error) => {
            return Err(error);
        },
    };
    match reader.read_octet_string() {
        Ok(bytes) => {
            let usm = UsmFields {
                engine_id,
                engine_boots,
                engine_time,
                user_name,
                auth_params: slice_to_vec(bytes),
                priv_params: Vec::new(),
            };
            proof {
                assert(usm@.priv_params =~= Seq::empty());
            }
            Ok(usm)
        },
        Err(error) => Err(error),
    }
}

fn read_usm(reader: &mut BerReader<'_>) -> (result: Result<(UsmFields, Option<usize>), BerError>)
    ensures
        match (result, usm_outcome(old(reader)@)) {
            (Ok((usm, offset)), Ok((wanted, start))) => usm@ == wanted && offset == start,
            (Err(error), Err(fault)) => error.reports(fault),
            _ => false,
        },
{
    let mut usm_reader = match reader.read_sequence() {
        Ok(reader) => reader,
        Err(error) => {
            return Err(error);
        },
    };
    let mut usm = match read_usm_head(&mut usm_reader) {
        Ok(usm) => usm,
        Err(error) => {
            return Err(error);
        },
    };
    let auth_params_offset: Option<usize> = if usm.auth_params.len() == 0 {
        None
    } else {
        Some(usm_reader.offset() - usm.auth_params.len())
    };
    match usm_reader.read_octet_string() {
        Ok(bytes) => {
            usm.priv_params = slice_to_vec(bytes);
            Ok((usm, auth_params_offset))
        },
        Err(error) => Err(error),
    }
}

fn read_scoped_fields(reader: &mut BerReader<'_>) -> (result: Result<
    DecodedScopedPduFields,
    BerError,
>)
    ensures
        match (result, scoped_fields_outcome(old(reader)@)) {
            (Ok(fields), Ok((engine_id, name, pdu))) => fields.context_engine_id@ == engine_id
                && fields.context_name@ == name && fields.raw_pdu@ == pdu,
            (Err(error), Err(fault)) => error.reports(fault),
            _ => false,
        },
{
    let context_engine_id = match reader.read_octet_string() {
        Ok(bytes) => slice_to_vec(bytes),
        Err(error) => {
            return Err(error);
        },
    };
    let context_name = match reader.read_octet_string() {
        Ok(bytes) => slice_to_vec(bytes),
        Err(error) => {
            return Err(error);
        },
    };
    let raw_pdu = slice_to_vec(reader.remaining());
    Ok(DecodedScopedPduFields { context_engine_id, context_name, raw_pdu })
}

fn read_scoped_data(reader: &mut BerReader<'_>) -> (result: Result<ScopedData, BerError>)
    ensures
        match (result, scoped_data_outcome(old(reader)@)) {
            (Ok(scoped), Ok(wanted)) => scoped@ == wanted,
            (Err(error), Err(fault)) => error.reports(fault),
            _ => false,
        },
{
    let tag: u8 = match reader.peek_tag() {
        Ok(tag) => tag,
        Err(error) => {
            return Err(error);
        },
    };
    if tag == TAG_SEQUENCE {
        let mut scoped_reader = match reader.read_sequence() {
            Ok(reader) => reader,
            Err(error) => {
                return Err(error);
            },
        };
        match read_scoped_fields(&mut scoped_reader) {
            Ok(fields) => Ok(
                ScopedData::Plaintext {
                    context_engine_id: fields.context_engine_id,
                    context_name: fields.context_name,
                    raw_pdu: fields.raw_pdu,
                },
            ),
            Err(error) => Err(error),
        }
    } else if tag == TAG_OCTET_STRING {
        match reader.read_octet_string() {
            Ok(bytes) => Ok(ScopedData::Encrypted(slice_to_vec(bytes))),
            Err(error) => Err(error),
        }
    } else {
        Err(BerError::from_fault(BerFault::UnexpectedScopedPdu { tag }))
    }
}

/// Reads the fields of a scoped PDU.
pub fn decode_scoped_pdu(bytes: &[u8]) -> (result: Result<DecodedScopedPduFields, BerError>)
    ensures
        match (result, scoped_pdu_outcome(bytes@)) {
            (Ok(fields), Ok((engine_id, name, pdu))) => fields.context_engine_id@ == engine_id
                && fields.context_name@ == name && fields.raw_pdu@ == pdu,
            (Err(error), Err(fault)) => error.reports(fault),
            _ => false,
        },
{
    let mut outer_reader = BerReader::new(bytes);
    match outer_reader.read_sequence() {
        Ok(mut scoped_reader) => read_scoped_fields(&mut scoped_reader),
        Err(error) => Err(error),
    }
}

// ----- Encoding ----------------------------------------------------------------------

fn wrap_sequence(contents: &[u8]) -> (out: Vec<u8>)
    ensures
        out@ == tlv::sequence_tlv(contents@),
{
    let mut outer = BerWriter::new();
    outer.write_sequence(contents);
    proof {
        assert(outer@ =~= tlv::sequence_tlv(contents@));
    }
    outer.into_vec()
}

/// Writes a scoped PDU around an encoded PDU.
pub fn encode_scoped_pdu(context_engine_id: &[u8], context_name: &[u8], raw_pdu_bytes: &[u8]) -> (out:
    Vec<u8>)
    ensures
        out@ == scoped_pdu_tlv(context_engine_id@, context_name@, raw_pdu_bytes@),
{
    let mut inner = BerWriter::new();
    inner.write_octet_string(context_engine_id);
    inner.write_octet_string(context_name);
    inner.write_raw(raw_pdu_bytes);
    proof {
        assert(inner@ =~= tlv::octets_tlv(context_engine_id@) + tlv::octets_tlv(context_name@)
            + raw_pdu_bytes@);
    }
    wrap_sequence(inner.as_bytes())
}

/// Writes the USM security parameters.
pub fn encode_usm_params(
    engine_id: &[u8],
    engine_boots: i32,
    engine_time: i32,
    user_name: &[u8],
    auth_params: &[u8],
    priv_params: &[u8],
) -> (out: Vec<u8>)
    ensures
        out@ == usm_tlv(
            UsmView {
                engine_id: engine_id@,
                engine_boots,
                engine_time,
                user_name: user_name@,
                auth_params: auth_params@,
                priv_params: priv_params@,
            },
        ),
{
    let ghost usm = UsmView {
        engine_id: engine_id@,
        engine_boots,
        engine_time,
        user_name: user_name@,
        auth_params: auth_params@,
        priv_params: priv_params@,
    };
    let mut inner = BerWriter::new();
    inner.write_octet_string(engine_id);
    inner.write_integer(engine_boots);
    inner.write_integer(engine_time);
    inner.write_octet_string(user_name);
    inner.write_octet_string(auth_params);
    inner.write_octet_string(priv_params);
    proof {
        assert(inner@ =~= usm_head_bytes(usm) + tlv::octets_tlv(priv_params@));
    }
    wrap_sequence(inner.as_bytes())
}

/// Writes the `HeaderData`.
pub fn encode_header_data(msg_id: i32, max_size: i32, flags_byte: u8, security_model: i32) -> (out:
    Vec<u8>)
    ensures
        out@ == header_tlv(
            HeaderView { msg_id, max_size, security_flags: flags_byte, security_model },
        ),
{
    let flags: [u8; 1] = [flags_byte];
    let mut inner = BerWriter::new();
    inner.write_integer(msg_id);
    inner.write_integer(max_size);
    inner.write_octet_string(flags.as_slice());
    inner.write_integer(security_model);
    proof {
        assert(flags@ =~= seq![flags_byte]);
        assert(inner@ =~= tlv::integer_tlv(msg_id as int) + tlv::integer_tlv(max_size as int)
            + tlv::octets_tlv(seq![flags_byte]) + tlv::integer_tlv(security_model as int));
    }
    wrap_sequence(inner.as_bytes())
}

/// Writes an `SNMPv3` message, and finds where its authentication parameters stand.
#[allow(clippy::too_many_arguments)]
pub fn encode_v3_message(
    msg_id: i32,
    max_size: i32,
    flags_byte: u8,
    security_model: i32,
    engine_id: &[u8],
    engine_boots: i32,
    engine_time: i32,
    user_name: &[u8],
    auth_params: &[u8],
    priv_params: &[u8],
    scoped_pdu_or_ciphertext: &[u8],
    encrypted: bool,
) -> (result: Result<(Vec<u8>, Option<usize>), BerError>)
    ensures
        ({
            let header = HeaderView {
                msg_id,
                max_size,
                security_flags: flags_byte,
                security_model,
            };
            let usm = UsmView {
                engine_id: engine_id@,
                engine_boots,
                engine_time,
                user_name: user_name@,
                auth_params: auth_params@,
                priv_params: priv_params@,
            };
            let scoped = scoped_pdu_or_ciphertext@;
            &&& result matches Ok((out, offset)) && out@ == v3_message_tlv(
                header,
                usm,
                scoped,
                encrypted,
            ) && offset == (if auth_params@.len() == 0 {
                None
            } else {
                Some(auth_start(header, usm, scoped, encrypted) as usize)
            })
        }),
{
    let ghost header = HeaderView {
        msg_id,
        max_size,
        security_flags: flags_byte,
        security_model,
    };
    let ghost usm = UsmView {
        engine_id: engine_id@,
        engine_boots,
        engine_time,
        user_name: user_name@,
        auth_params: auth_params@,
        priv_params: priv_params@,
    };
    let ghost scoped = scoped_pdu_or_ciphertext@;
    let header_bytes = encode_header_data(msg_id, max_size, flags_byte, security_model);
    let usm_bytes = encode_usm_params(
        engine_id,
        engine_boots,
        engine_time,
        user_name,
        auth_params,
        priv_params,
    );
    let mut inner = BerWriter::new();
    inner.write_integer(SNMPV3_VERSION);
    inner.write_raw(header_bytes.as_slice());
    inner.write_octet_string(usm_bytes.as_slice());
    if encrypted {
        inner.write_octet_string(scoped_pdu_or_ciphertext);
    } else {
        inner.write_raw(scoped_pdu_or_ciphertext);
    }
    proof {
        assert(inner@ =~= tlv::integer_tlv(SNMPV3_VERSION as int) + header_tlv(header)
            + tlv::octets_tlv(usm_tlv(usm)) + scoped_part(scoped, encrypted));
    }
    let encoded_message = wrap_sequence(inner.as_bytes());
    proof {
        assert(encoded_message.len() <= usize::MAX);
        lemma_located(header, usm, scoped, encrypted);
    }
    match find_auth_params_offset(encoded_message.as_slice(), auth_params.len()) {
        Ok(offset) => Ok((encoded_message, offset)),
        Err(error) => Err(error),
    }
}

/// Writes an `SNMPv2c` message around an encoded PDU.
pub fn encode_v2c_message(community: &[u8], raw_pdu_tlv: &[u8]) -> (out: Vec<u8>)
    ensures
        out@ == v2c_message_tlv(community@, raw_pdu_tlv@),
{
    let mut inner = BerWriter::new();
    inner.write_integer(SNMPV2C_VERSION);
    inner.write_octet_string(community);
    inner.write_raw(raw_pdu_tlv);
    proof {
        assert(inner@ =~= tlv::integer_tlv(SNMPV2C_VERSION as int) + tlv::octets_tlv(community@)
            + raw_pdu_tlv@);
    }
    wrap_sequence(inner.as_bytes())
}

fn find_auth_params_offset(encoded_message: &[u8], auth_params_len: usize) -> (result: Result<
    Option<usize>,
    BerError,
>)
    ensures
        if auth_params_len == 0 {
            result == Ok::<Option<usize>, BerError>(None)
        } else {
            match (result, located_outcome(encoded_message@)) {
                (Ok(offset), Ok(start)) => offset == Some(start),
                (Err(error), Err(fault)) => error.reports(fault),
                _ => false,
            }
        },
{
    if auth_params_len == 0 {
        return Ok(None);
    }
    let mut outer_reader = BerReader::new(encoded_message);
    let mut msg_reader = match outer_reader.read_sequence() {
        Ok(reader) => reader,
        Err(error) => {
            return Err(error);
        },
    };
    match msg_reader.read_integer() {
        Ok(_) => {},
        Err(error) => {
            return Err(error);
        },
    }
    match msg_reader.read_sequence() {
        Ok(_) => {},
        Err(error) => {
            return Err(error);
        },
    }
    let mut usm_outer_reader = match read_octets_contents(&mut msg_reader) {
        Ok(reader) => reader,
        Err(error) => {
            return Err(error);
        },
    };
    let mut usm_reader = match usm_outer_reader.read_sequence() {
        Ok(reader) => reader,
        Err(error) => {
            return Err(error);
        },
    };
    match read_usm_head(&mut usm_reader) {
        Ok(usm) => Ok(Some(usm_reader.offset() - usm.auth_params.len())),
        Err(error) => Err(error),
    }
}

// ----- Laws --------------------------------------------------------------------------

proof fn lemma_sequence(contents: Seq<u8>, tail: Seq<u8>, at: int)
    requires
        tlv::sequence_tlv(contents).len() <= usize::MAX,
    ensures
        (Cursor { rest: tlv::sequence_tlv(contents) + tail, at }).sequence() == (Step {
            outcome: Ok::<Cursor, BerFault>(
                Cursor { rest: contents, at: at + tlv::sequence_tlv(contents).len() - contents.len() },
            ),
            used: tlv::sequence_tlv(contents).len(),
        }),
        contents.len() + 2 <= tlv::sequence_tlv(contents).len(),
{
    tlv::lemma_tlv_len(TAG_SEQUENCE, contents);
    tlv::law_primitive_round_trip(BerType::Oid, TAG_SEQUENCE, contents, tail, at);
}

proof fn lemma_octets(bytes: Seq<u8>, tail: Seq<u8>, at: int)
    requires
        tlv::octets_tlv(bytes).len() <= usize::MAX,
    ensures
        (Cursor { rest: tlv::octets_tlv(bytes) + tail, at }).octets() == (Step {
            outcome: Ok::<Seq<u8>, BerFault>(bytes),
            used: tlv::octets_tlv(bytes).len(),
        }),
        bytes.len() + 2 <= tlv::octets_tlv(bytes).len(),
{
    tlv::lemma_tlv_len(TAG_OCTET_STRING, bytes);
    tlv::law_octets_round_trip(bytes, tail, at);
}

proof fn lemma_advance(head: Seq<u8>, tail: Seq<u8>, at: int)
    ensures
        (Cursor { rest: head + tail, at }).advance(head.len()) == (Cursor {
            rest: tail,
            at: at + head.len(),
        }),
{
    assert((head + tail).skip(head.len() as int) =~= tail);
}

proof fn lemma_usm_head(usm: UsmView, tail: Seq<u8>, at: int)
    requires
        usm_head_bytes(usm).len() <= usize::MAX,
    ensures
        usm_head_outcome(Cursor { rest: usm_head_bytes(usm) + tail, at }) == Ok::<
            (UsmView, Cursor),
            BerFault,
        >(
            (
                UsmView { priv_params: Seq::empty(), ..usm },
                Cursor { rest: tail, at: at + usm_head_bytes(usm).len() },
            ),
        ),
{
    let a = tlv::octets_tlv(usm.engine_id);
    let b = tlv::integer_tlv(usm.engine_boots as int);
    let c = tlv::integer_tlv(usm.engine_time as int);
    let d = tlv::octets_tlv(usm.user_name);
    let e = tlv::octets_tlv(usm.auth_params);
    let r4 = e + tail;
    let r3 = d + r4;
    let r2 = c + r3;
    let r1 = b + r2;
    assert(usm_head_bytes(usm) + tail =~= a + r1);
    lemma_octets(usm.engine_id, r1, at);
    lemma_advance(a, r1, at);
    let at1 = at + a.len();
    tlv::law_integer_round_trip(usm.engine_boots, r2, at1);
    lemma_advance(b, r2, at1);
    let at2 = at1 + b.len();
    tlv::law_integer_round_trip(usm.engine_time, r3, at2);
    lemma_advance(c, r3, at2);
    let at3 = at2 + c.len();
    lemma_octets(usm.user_name, r4, at3);
    lemma_advance(d, r4, at3);
    let at4 = at3 + d.len();
    lemma_octets(usm.auth_params, tail, at4);
    lemma_advance(e, tail, at4);
}

proof fn lemma_usm_contents(usm: UsmView, at: int)
    requires
        usm_tlv(usm).len() <= usize::MAX,
    ensures
        ({
            let contents = usm_head_bytes(usm) + tlv::octets_tlv(usm.priv_params);
            let start = at + usm_tlv(usm).len() - contents.len();
            let after = Cursor {
                rest: tlv::octets_tlv(usm.priv_params),
                at: start + usm_head_bytes(usm).len(),
            };
            &&& (Cursor { rest: usm_tlv(usm), at }).sequence().outcome == Ok::<Cursor, BerFault>(
                Cursor { rest: contents, at: start },
            )
            &&& usm_head_outcome(Cursor { rest: contents, at: start }) == Ok::<
                (UsmView, Cursor),
                BerFault,
            >((UsmView { priv_params: Seq::empty(), ..usm }, after))
            &&& after.octets().outcome == Ok::<Seq<u8>, BerFault>(usm.priv_params)
            &&& after.at == at + usm_tlv(usm).len() - tlv::octets_tlv(usm.priv_params).len()
        }),
{
    let last = tlv::octets_tlv(usm.priv_params);
    let contents = usm_head_bytes(usm) + last;
    assert(usm_tlv(usm) + Seq::<u8>::empty() =~= usm_tlv(usm));
    lemma_sequence(contents, Seq::empty(), at);
    let start = at + usm_tlv(usm).len() - contents.len();
    lemma_usm_head(usm, last, start);
    assert(last + Seq::<u8>::empty() =~= last);
    lemma_octets(usm.priv_params, Seq::empty(), start + usm_head_bytes(usm).len());
}

proof fn lemma_located(header: HeaderView, usm: UsmView, scoped: Seq<u8>, encrypted: bool)
    requires
        v3_message_tlv(header, usm, scoped, encrypted).len() <= usize::MAX,
    ensures
        located_outcome(v3_message_tlv(header, usm, scoped, encrypted)) == Ok::<usize, BerFault>(
            auth_start(header, usm, scoped, encrypted) as usize,
        ),
{
    let whole = v3_message_tlv(header, usm, scoped, encrypted);
    lemma_message_parts(header, usm, scoped, encrypted);
    let at = whole.len() - scoped_part(scoped, encrypted).len() - usm_tlv(usm).len();
    lemma_usm_contents(usm, at);
}

/// The steps by which a message that was written is taken apart again, down to the
/// security parameters.
proof fn lemma_message_parts(header: HeaderView, usm: UsmView, scoped: Seq<u8>, encrypted: bool)
    requires
        v3_message_tlv(header, usm, scoped, encrypted).len() <= usize::MAX,
    ensures
        ({
            let whole = v3_message_tlv(header, usm, scoped, encrypted);
            let part = scoped_part(scoped, encrypted);
            let version = tlv::integer_tlv(SNMPV3_VERSION as int);
            let head = header_tlv(header);
            let params = tlv::octets_tlv(usm_tlv(usm));
            let contents = version + (head + (params + part));
            let start = whole.len() - contents.len();
            let inner = Cursor { rest: contents, at: start };
            let after_version = Cursor {
                rest: head + (params + part),
                at: start + version.len(),
            };
            let after_head = Cursor {
                rest: params + part,
                at: start + version.len() + head.len(),
            };
            &&& (Cursor { rest: whole, at: 0 }).sequence().outcome == Ok::<Cursor, BerFault>(inner)
            &&& inner.integer() == (Step {
                outcome: Ok::<i32, BerFault>(SNMPV3_VERSION),
                used: version.len(),
            })
            &&& inner.advance(version.len()) == after_version
            &&& after_version.sequence().used == head.len()
            &&& after_version.sequence().outcome is Ok
            &&& after_version.advance(head.len()) == after_head
            &&& after_head.octets() == (Step {
                outcome: Ok::<Seq<u8>, BerFault>(usm_tlv(usm)),
                used: params.len(),
            })
            &&& after_head.advance(params.len()) == (Cursor {
                rest: part,
                at: start + version.len() + head.len() + params.len(),
            })
            &&& head.len() <= usize::MAX
            &&& usm_tlv(usm).len() <= usize::MAX
            &&& part.len() <= usize::MAX
        }),
{
    let whole = v3_message_tlv(header, usm, scoped, encrypted);
    let part = scoped_part(scoped, encrypted);
    let version = tlv::integer_tlv(SNMPV3_VERSION as int);
    let head = header_tlv(header);
    let params = tlv::octets_tlv(usm_tlv(usm));
    let contents = version + (head + (params + part));
    assert(version + head + params + part =~= contents);
    assert(whole + Seq::<u8>::empty() =~= whole);
    lemma_sequence(contents, Seq::empty(), 0);
    let start = whole.len() - contents.len();
    tlv::law_integer_round_trip(SNMPV3_VERSION, head + (params + part), start);
    lemma_advance(version, head + (params + part), start);
    let at1 = start + version.len();
    lemma_sequence(header_contents(header), params + part, at1);
    lemma_advance(head, params + part, at1);
    let at2 = at1 + head.len();
    lemma_octets(usm_tlv(usm), part, at2);
    lemma_advance(params, part, at2);
}

spec fn header_contents(header: HeaderView) -> Seq<u8> {
    tlv::integer_tlv(header.msg_id as int) + tlv::integer_tlv(header.max_size as int)
        + tlv::octets_tlv(seq![header.security_flags]) + tlv::integer_tlv(
        header.security_model as int,
    )
}

proof fn lemma_header(header: HeaderView, at: int)
    requires
        header.msg_id >= 0,
        header.max_size >= MSG_MAX_SIZE_LEAST,
    ensures
        header_outcome(Cursor { rest: header_contents(header), at }) == Ok::<HeaderView, BerFault>(
            header,
        ),
{
    let a = tlv::integer_tlv(header.msg_id as int);
    let b = tlv::integer_tlv(header.max_size as int);
    let flags = seq![header.security_flags];
    let c = tlv::octets_tlv(flags);
    let d = tlv::integer_tlv(header.security_model as int);
    assert(header_contents(header) =~= a + (b + (c + d)));
    tlv::law_integer_round_trip(header.msg_id, b + (c + d), at);
    lemma_advance(a, b + (c + d), at);
    let at1 = at + a.len();
    tlv::law_integer_round_trip(header.max_size, c + d, at1);
    lemma_advance(b, c + d, at1);
    let at2 = at1 + b.len();
    tlv::law_octets_round_trip(flags, d, at2);
    lemma_advance(c, d, at2);
    let at3 = at2 + c.len();
    assert(d + Seq::<u8>::empty() =~= d);
    tlv::law_integer_round_trip(header.security_model, Seq::empty(), at3);
}

proof fn lemma_scoped_fields(engine_id: Seq<u8>, name: Seq<u8>, pdu: Seq<u8>, at: int)
    requires
        tlv::octets_tlv(engine_id).len() <= usize::MAX,
        tlv::octets_tlv(name).len() <= usize::MAX,
    ensures
        scoped_fields_outcome(
            Cursor { rest: tlv::octets_tlv(engine_id) + tlv::octets_tlv(name) + pdu, at },
        ) == Ok::<(Seq<u8>, Seq<u8>, Seq<u8>), BerFault>((engine_id, name, pdu)),
{
    let a = tlv::octets_tlv(engine_id);
    let b = tlv::octets_tlv(name);
    assert(a + b + pdu =~= a + (b + pdu));
    lemma_octets(engine_id, b + pdu, at);
    lemma_advance(a, b + pdu, at);
    lemma_octets(name, pdu, at + a.len());
    lemma_advance(b, pdu, at + a.len());
}

/// A scoped PDU is read back as the fields that it was written for.
pub proof fn law_scoped_pdu_round_trip(engine_id: Seq<u8>, name: Seq<u8>, pdu: Seq<u8>)
    requires
        scoped_pdu_tlv(engine_id, name, pdu).len() <= usize::MAX,
    ensures
        scoped_pdu_outcome(scoped_pdu_tlv(engine_id, name, pdu)) == Ok::<
            (Seq<u8>, Seq<u8>, Seq<u8>),
            BerFault,
        >((engine_id, name, pdu)),
{
    let contents = tlv::octets_tlv(engine_id) + tlv::octets_tlv(name) + pdu;
    let whole = scoped_pdu_tlv(engine_id, name, pdu);
    assert(whole + Seq::<u8>::empty() =~= whole);
    lemma_sequence(contents, Seq::empty(), 0);
    lemma_scoped_fields(engine_id, name, pdu, (whole.len() - contents.len()) as int);
}

/// The scoped bytes of a message with the scoped PDU `scoped`.
pub open spec fn scoped_bytes(scoped: ScopedView) -> Seq<u8> {
    match scoped {
        ScopedView::Plaintext { context_engine_id, context_name, raw_pdu } => scoped_pdu_tlv(
            context_engine_id,
            context_name,
            raw_pdu,
        ),
        ScopedView::Encrypted(bytes) => bytes,
    }
}

proof fn lemma_scoped_data(scoped: ScopedView, at: int)
    requires
        scoped_part(scoped_bytes(scoped), scoped is Encrypted).len() <= usize::MAX,
    ensures
        scoped_data_outcome(
            Cursor { rest: scoped_part(scoped_bytes(scoped), scoped is Encrypted), at },
        ) == Ok::<ScopedView, BerFault>(scoped),
{
    let part = scoped_part(scoped_bytes(scoped), scoped is Encrypted);
    assert(part + Seq::<u8>::empty() =~= part);
    match scoped {
        ScopedView::Plaintext { context_engine_id, context_name, raw_pdu } => {
            let contents = tlv::octets_tlv(context_engine_id) + tlv::octets_tlv(context_name)
                + raw_pdu;
            tlv::lemma_tlv_len(TAG_SEQUENCE, contents);
            lemma_sequence(contents, Seq::empty(), at);
            lemma_scoped_fields(
                context_engine_id,
                context_name,
                raw_pdu,
                at + part.len() - contents.len(),
            );
        },
        ScopedView::Encrypted(bytes) => {
            tlv::lemma_tlv_len(TAG_OCTET_STRING, bytes);
            lemma_octets(bytes, Seq::empty(), at);
        },
    }
}

proof fn lemma_usm(usm: UsmView, at: int)
    requires
        usm_tlv(usm).len() <= usize::MAX,
    ensures
        usm_outcome(Cursor { rest: usm_tlv(usm), at }) == Ok::<(UsmView, Option<usize>), BerFault>(
            (
                usm,
                if usm.auth_params.len() == 0 {
                    None
                } else {
                    Some(
                        (at + usm_tlv(usm).len() - tlv::octets_tlv(usm.priv_params).len()
                            - usm.auth_params.len()) as usize,
                    )
                },
            ),
        ),
{
    lemma_usm_contents(usm, at);
}

/// An `SNMPv3` message is read back as the header, the security parameters and the
/// scoped PDU that it was written for, and the authentication parameters are found
/// where they were written.
pub proof fn law_envelope_round_trip(header: HeaderView, usm: UsmView, scoped: ScopedView)
    requires
        header.msg_id >= 0,
        header.max_size >= MSG_MAX_SIZE_LEAST,
        v3_message_tlv(header, usm, scoped_bytes(scoped), scoped is Encrypted).len() <= usize::MAX,
    ensures
        envelope_outcome(v3_message_tlv(header, usm, scoped_bytes(scoped), scoped is Encrypted))
            == Ok::<EnvelopeView, BerFault>(
            EnvelopeView {
                header,
                usm,
                scoped_data: scoped,
                auth_params_offset: if usm.auth_params.len() == 0 {
                    None
                } else {
                    Some(
                        auth_start(header, usm, scoped_bytes(scoped), scoped is Encrypted) as usize,
                    )
                },
            },
        ),
{
    let bytes = scoped_bytes(scoped);
    let encrypted = scoped is Encrypted;
    let whole = v3_message_tlv(header, usm, bytes, encrypted);
    let part = scoped_part(bytes, encrypted);
    let version = tlv::integer_tlv(SNMPV3_VERSION as int);
    let head = header_tlv(header);
    let params = tlv::octets_tlv(usm_tlv(usm));
    lemma_message_parts(header, usm, bytes, encrypted);
    let start = whole.len() - (version + (head + (params + part))).len();
    let after_version = Cursor { rest: head + (params + part), at: start + version.len() };
    lemma_sequence(header_contents(header), params + part, after_version.at);
    lemma_header(header, after_version.at + head.len() - header_contents(header).len());
    lemma_usm(usm, whole.len() - part.len() - usm_tlv(usm).len());
    lemma_scoped_data(scoped, whole.len() - part.len());
}

/// A PDU is no longer than the scoped PDU and the message around it.
pub proof fn lemma_scoped_in_message(header: HeaderView, usm: UsmView, scoped: ScopedView)
    ensures
        ({
            let whole = v3_message_tlv(header, usm, scoped_bytes(scoped), scoped is Encrypted);
            &&& scoped_bytes(scoped).len() <= whole.len()
            &&& scoped matches ScopedView::Plaintext { raw_pdu, .. } ==> raw_pdu.len()
                <= whole.len()
        }),
{
    let bytes = scoped_bytes(scoped);
    let part = scoped_part(bytes, scoped is Encrypted);
    tlv::lemma_tlv_len(TAG_OCTET_STRING, bytes);
    tlv::lemma_tlv_len(
        TAG_SEQUENCE,
        tlv::integer_tlv(SNMPV3_VERSION as int) + header_tlv(header) + tlv::octets_tlv(
            usm_tlv(usm),
        ) + part,
    );
    if let ScopedView::Plaintext { context_engine_id, context_name, raw_pdu } = scoped {
        tlv::lemma_tlv_len(
            TAG_SEQUENCE,
            tlv::octets_tlv(context_engine_id) + tlv::octets_tlv(context_name) + raw_pdu,
        );
    }
}

/// Whether `place` lies in the message `bytes`: what is still to be read there stands in
/// the message at that offset.
pub open spec fn lies_in(place: Cursor, bytes: Seq<u8>) -> bool {
    &&& 0 <= place.at
    &&& place.at + place.rest.len() <= bytes.len()
    &&& place.rest == bytes.subrange(place.at, place.at + place.rest.len())
}

proof fn lemma_lies_in_advance(place: Cursor, bytes: Seq<u8>, n: nat)
    requires
        lies_in(place, bytes),
        n <= place.rest.len(),
    ensures
        lies_in(place.advance(n), bytes),
{
    let next = place.advance(n);
    assert(next.rest =~= bytes.subrange(next.at, next.at + next.rest.len()));
}

proof fn lemma_lies_in_tlv(place: Cursor, bytes: Seq<u8>)
    requires
        lies_in(place, bytes),
    ensures
        place.tlv().used <= place.rest.len(),
        lies_in(place.advance(place.tlv().used), bytes),
        place.tlv().outcome matches Ok((_, value)) ==> lies_in(
            Cursor { rest: value, at: place.at + place.tlv().used - value.len() },
            bytes,
        ),
{
    tlv::law_tlv_progress(place);
    lemma_lies_in_advance(place, bytes, place.tlv().used);
    if let Ok((_, value)) = place.tlv().outcome {
        let start = place.at + place.tlv().used - value.len();
        assert(value =~= bytes.subrange(start, start + value.len()));
    }
}

proof fn lemma_lies_in_usm_head(place: Cursor, bytes: Seq<u8>)
    requires
        lies_in(place, bytes),
    ensures
        usm_head_outcome(place) matches Ok((usm, after)) ==> usm.auth_params.len() <= after.at
            <= bytes.len() && usm.auth_params == bytes.subrange(
            after.at - usm.auth_params.len(),
            after.at,
        ),
{
    let after_engine = place.advance(place.octets().used);
    let after_boots = after_engine.advance(after_engine.integer().used);
    let after_time = after_boots.advance(after_boots.integer().used);
    let after_user = after_time.advance(after_time.octets().used);
    lemma_lies_in_tlv(place, bytes);
    lemma_lies_in_tlv(after_engine, bytes);
    lemma_lies_in_tlv(after_boots, bytes);
    lemma_lies_in_tlv(after_time, bytes);
    lemma_lies_in_tlv(after_user, bytes);
}

proof fn lemma_lies_in_usm(place: Cursor, bytes: Seq<u8>)
    requires
        lies_in(place, bytes),
        bytes.len() <= usize::MAX,
    ensures
        usm_outcome(place) matches Ok((usm, offset)) ==> auth_params_at(usm, offset, bytes),
{
    lemma_lies_in_tlv(place, bytes);
    if let Ok(inner) = place.sequence().outcome {
        lemma_lies_in_usm_head(inner, bytes);
    }
}

/// Whether `offset` is where the authentication parameters stand in `bytes`, or `None`
/// because they are empty.
pub open spec fn auth_params_at(usm: UsmView, offset: Option<usize>, bytes: Seq<u8>) -> bool {
    match offset {
        None => usm.auth_params.len() == 0,
        Some(start) => usm.auth_params.len() > 0 && start + usm.auth_params.len() <= bytes.len()
            && bytes.subrange(start as int, start + usm.auth_params.len()) == usm.auth_params,
    }
}

/// In every message that decodes, the reported offset is where the authentication
/// parameters stand; no offset is reported exactly when they are empty.
pub proof fn law_auth_params_offset(bytes: Seq<u8>)
    requires
        bytes.len() <= usize::MAX,
    ensures
        envelope_outcome(bytes) matches Ok(envelope) ==> auth_params_at(
            envelope.usm,
            envelope.auth_params_offset,
            bytes,
        ),
{
    let start = Cursor { rest: bytes, at: 0 };
    assert(bytes.subrange(0, bytes.len() as int) =~= bytes);
    lemma_lies_in_tlv(start, bytes);
    if let Ok(inner) = start.sequence().outcome {
        lemma_lies_in_tlv(inner, bytes);
        let after_version = inner.advance(inner.integer().used);
        lemma_lies_in_tlv(after_version, bytes);
        let after_head = after_version.advance(after_version.sequence().used);
        lemma_lies_in_tlv(after_head, bytes);
        if let Ok(params) = octets_contents(after_head).outcome {
            lemma_lies_in_usm(params, bytes);
        }
    }
}

/// The tag and length field of a triple around `n` bytes.
spec fn tlv_head(tag: u8, n: nat) -> Seq<u8> {
    seq![tag] + tlv::length_bytes(n)
}

proof fn lemma_tlv_head(tag: u8, value: Seq<u8>)
    ensures
        tlv::tlv_bytes(tag, value) == tlv_head(tag, value.len()) + value,
{
    reveal(tlv::tlv_bytes);
    assert(tlv::tlv_bytes(tag, value) =~= tlv_head(tag, value.len()) + value);
}

/// A message that was written, taken apart at its authentication parameters: what stands
/// in front of them depends on their length alone.
proof fn lemma_split_at_auth(
    header: HeaderView,
    usm: UsmView,
    scoped: Seq<u8>,
    encrypted: bool,
) -> (front: Seq<u8>)
    ensures
        v3_message_tlv(header, usm, scoped, encrypted) == front + usm.auth_params + (
        tlv::octets_tlv(usm.priv_params) + scoped_part(scoped, encrypted)),
        front == auth_front(header, usm, usm.auth_params.len(), scoped, encrypted),
{
    let part = scoped_part(scoped, encrypted);
    let last = tlv::octets_tlv(usm.priv_params);
    let fields = usm_fields_front(usm);
    let auth = tlv::octets_tlv(usm.auth_params);
    let contents = usm_head_bytes(usm) + last;
    let params = usm_tlv(usm);
    let wrapped = tlv::octets_tlv(params);
    let start = tlv::integer_tlv(SNMPV3_VERSION as int) + header_tlv(header);
    let inner = start + wrapped + part;
    let whole = v3_message_tlv(header, usm, scoped, encrypted);
    let front = auth_front(header, usm, usm.auth_params.len(), scoped, encrypted);
    lemma_tlv_head(TAG_OCTET_STRING, usm.auth_params);
    lemma_tlv_head(TAG_SEQUENCE, contents);
    lemma_tlv_head(TAG_OCTET_STRING, params);
    lemma_tlv_head(TAG_SEQUENCE, inner);
    assert(whole =~= front + usm.auth_params + (last + part));
    front
}

spec fn usm_fields_front(usm: UsmView) -> Seq<u8> {
    tlv::octets_tlv(usm.engine_id) + tlv::integer_tlv(usm.engine_boots as int) + tlv::integer_tlv(
        usm.engine_time as int,
    ) + tlv::octets_tlv(usm.user_name)
}

spec fn auth_front(
    header: HeaderView,
    usm: UsmView,
    auth_len: nat,
    scoped: Seq<u8>,
    encrypted: bool,
) -> Seq<u8> {
    let part = scoped_part(scoped, encrypted);
    let last = tlv::octets_tlv(usm.priv_params);
    let fields = usm_fields_front(usm);
    let auth_head = tlv_head(TAG_OCTET_STRING, auth_len);
    let contents_len = fields.len() + auth_head.len() + auth_len + last.len();
    let params_head = tlv_head(TAG_SEQUENCE, contents_len);
    let params_len = params_head.len() + contents_len;
    let wrapped_head = tlv_head(TAG_OCTET_STRING, params_len);
    let start = tlv::integer_tlv(SNMPV3_VERSION as int) + header_tlv(header);
    let inner_len = start.len() + wrapped_head.len() + params_len + part.len();
    tlv_head(TAG_SEQUENCE, inner_len) + start + wrapped_head + params_head + fields + auth_head
}

/// The authentication parameters of a message that was written stand at `auth_start`.
pub proof fn law_auth_start(header: HeaderView, usm: UsmView, scoped: Seq<u8>, encrypted: bool)
    ensures
        ({
            let whole = v3_message_tlv(header, usm, scoped, encrypted);
            let start = auth_start(header, usm, scoped, encrypted);
            &&& 0 <= start
            &&& start + usm.auth_params.len() <= whole.len()
            &&& whole.subrange(start, start + usm.auth_params.len()) == usm.auth_params
        }),
{
    let whole = v3_message_tlv(header, usm, scoped, encrypted);
    let start = auth_start(header, usm, scoped, encrypted);
    let front = lemma_split_at_auth(header, usm, scoped, encrypted);
    assert(front.len() == start);
    assert(whole.subrange(start, start + usm.auth_params.len()) =~= usm.auth_params);
}

/// Other authentication parameters of the same length change nothing but their own bytes
/// in a message that was written.
pub proof fn lemma_replace_auth_params(
    header: HeaderView,
    usm: UsmView,
    other: Seq<u8>,
    scoped: Seq<u8>,
    encrypted: bool,
)
    requires
        other.len() == usm.auth_params.len(),
    ensures
        ({
            let bytes = v3_message_tlv(header, usm, scoped, encrypted);
            let start = auth_start(header, usm, scoped, encrypted);
            v3_message_tlv(header, UsmView { auth_params: other, ..usm }, scoped, encrypted)
                == bytes.subrange(0, start) + other + bytes.subrange(
                start + other.len(),
                bytes.len() as int,
            )
        }),
{
    let changed = UsmView { auth_params: other, ..usm };
    let bytes = v3_message_tlv(header, usm, scoped, encrypted);
    let start = auth_start(header, usm, scoped, encrypted);
    let front = lemma_split_at_auth(header, usm, scoped, encrypted);
    let front_changed = lemma_split_at_auth(header, changed, scoped, encrypted);
    assert(front == front_changed);
    assert(front.len() == start);
    assert(bytes.subrange(0, start) =~= front);
    let rest = tlv::octets_tlv(usm.priv_params) + scoped_part(scoped, encrypted);
    assert(bytes.subrange(start + other.len(), bytes.len() as int) =~= rest);
    assert(front + other + rest =~= bytes.subrange(0, start) + other + bytes.subrange(
        start + other.len(),
        bytes.len() as int,
    ));
}

/// Whether the fields of a `HeaderData` are read from `place` on: the message identifier,
/// the maximum size, the one byte of flags and the security model, in this order.
pub open spec fn header_reads(place: Cursor, header: HeaderView) -> bool {
    let id = place.integer();
    let after_id = place.advance(id.used);
    let size = after_id.integer();
    let after_size = after_id.advance(size.used);
    let flags = after_size.octets();
    let after_flags = after_size.advance(flags.used);
    &&& id.outcome == Ok::<i32, BerFault>(header.msg_id)
    &&& size.outcome == Ok::<i32, BerFault>(header.max_size)
    &&& flags.outcome matches Ok(bytes) && bytes.len() == 1 && bytes[0] == header.security_flags
    &&& after_flags.integer().outcome == Ok::<i32, BerFault>(header.security_model)
}

/// What is left behind the fields of a `HeaderData`.
pub open spec fn after_header(place: Cursor) -> Seq<u8> {
    let after_id = place.advance(place.integer().used);
    let after_size = after_id.advance(after_id.integer().used);
    let after_flags = after_size.advance(after_size.octets().used);
    after_flags.advance(after_flags.integer().used).rest
}

/// What is left behind the USM security parameters.
pub open spec fn after_usm(place: Cursor) -> Seq<u8> {
    let after_engine = place.advance(place.octets().used);
    let after_boots = after_engine.advance(after_engine.integer().used);
    let after_time = after_boots.advance(after_boots.integer().used);
    let after_user = after_time.advance(after_time.octets().used);
    let after_auth = after_user.advance(after_user.octets().used);
    after_auth.advance(after_auth.octets().used).rest
}

/// Whether USM security parameters are read from `place` on: the engine ID, the engine
/// boots, the engine time, the user name, the authentication and the privacy parameters, in
/// this order.
pub open spec fn usm_reads(place: Cursor, usm: UsmView) -> bool {
    let engine = place.octets();
    let after_engine = place.advance(engine.used);
    let boots = after_engine.integer();
    let after_boots = after_engine.advance(boots.used);
    let time = after_boots.integer();
    let after_time = after_boots.advance(time.used);
    let user = after_time.octets();
    let after_user = after_time.advance(user.used);
    let auth = after_user.octets();
    let after_auth = after_user.advance(auth.used);
    &&& engine.outcome == Ok::<Seq<u8>, BerFault>(usm.engine_id)
    &&& boots.outcome == Ok::<i32, BerFault>(usm.engine_boots)
    &&& time.outcome == Ok::<i32, BerFault>(usm.engine_time)
    &&& user.outcome == Ok::<Seq<u8>, BerFault>(usm.user_name)
    &&& auth.outcome == Ok::<Seq<u8>, BerFault>(usm.auth_params)
    &&& after_auth.octets().outcome == Ok::<Seq<u8>, BerFault>(usm.priv_params)
}

/// Whether the fields of a scoped PDU are read from `place` on: the engine ID and the
/// context name, in this order, and the PDU as all that follows.
pub open spec fn scoped_reads(
    place: Cursor,
    engine_id: Seq<u8>,
    name: Seq<u8>,
    pdu: Seq<u8>,
) -> bool {
    let engine = place.octets();
    let after_engine = place.advance(engine.used);
    let context = after_engine.octets();
    &&& engine.outcome == Ok::<Seq<u8>, BerFault>(engine_id)
    &&& context.outcome == Ok::<Seq<u8>, BerFault>(name)
    &&& after_engine.advance(context.used).rest == pdu
}

proof fn lemma_header_reads(header: HeaderView, at: int)
    ensures
        header_reads(Cursor { rest: header_contents(header), at }, header),
        after_header(Cursor { rest: header_contents(header), at }).len() == 0,
{
    let a = tlv::integer_tlv(header.msg_id as int);
    let b = tlv::integer_tlv(header.max_size as int);
    let flags = seq![header.security_flags];
    let c = tlv::octets_tlv(flags);
    let d = tlv::integer_tlv(header.security_model as int);
    assert(header_contents(header) =~= a + (b + (c + d)));
    tlv::law_integer_round_trip(header.msg_id, b + (c + d), at);
    lemma_advance(a, b + (c + d), at);
    let at1 = at + a.len();
    tlv::law_integer_round_trip(header.max_size, c + d, at1);
    lemma_advance(b, c + d, at1);
    let at2 = at1 + b.len();
    tlv::law_octets_round_trip(flags, d, at2);
    lemma_advance(c, d, at2);
    let at3 = at2 + c.len();
    assert(d + Seq::<u8>::empty() =~= d);
    tlv::law_integer_round_trip(header.security_model, Seq::empty(), at3);
}

proof fn lemma_usm_reads(usm: UsmView, at: int)
    requires
        usm_tlv(usm).len() <= usize::MAX,
    ensures
        (Cursor { rest: usm_tlv(usm), at }).sequence() matches Step { outcome: Ok(inner), used }
            && used == usm_tlv(usm).len() && usm_reads(inner, usm) && after_usm(inner).len() == 0,
{
    let a = tlv::octets_tlv(usm.engine_id);
    let b = tlv::integer_tlv(usm.engine_boots as int);
    let c = tlv::integer_tlv(usm.engine_time as int);
    let d = tlv::octets_tlv(usm.user_name);
    let e = tlv::octets_tlv(usm.auth_params);
    let f = tlv::octets_tlv(usm.priv_params);
    let r4 = e + f;
    let r3 = d + r4;
    let r2 = c + r3;
    let r1 = b + r2;
    let contents = usm_head_bytes(usm) + f;
    assert(contents =~= a + r1);
    assert(usm_tlv(usm) + Seq::<u8>::empty() =~= usm_tlv(usm));
    lemma_sequence(contents, Seq::empty(), at);
    let at0 = at + usm_tlv(usm).len() - contents.len();
    lemma_octets(usm.engine_id, r1, at0);
    lemma_advance(a, r1, at0);
    let at1 = at0 + a.len();
    tlv::law_integer_round_trip(usm.engine_boots, r2, at1);
    lemma_advance(b, r2, at1);
    let at2 = at1 + b.len();
    tlv::law_integer_round_trip(usm.engine_time, r3, at2);
    lemma_advance(c, r3, at2);
    let at3 = at2 + c.len();
    lemma_octets(usm.user_name, r4, at3);
    lemma_advance(d, r4, at3);
    let at4 = at3 + d.len();
    lemma_octets(usm.auth_params, f, at4);
    lemma_advance(e, f, at4);
    assert(f + Seq::<u8>::empty() =~= f);
    lemma_octets(usm.priv_params, Seq::empty(), at4 + e.len());
}

/// An `SNMPv3` message is one SEQUENCE of the version 3, a SEQUENCE with the header, an
/// OCTET STRING around a SEQUENCE with the security parameters, and the scoped PDU, which
/// stands as it is or, encrypted, as the contents of an OCTET STRING.
pub proof fn law_v3_message(header: HeaderView, usm: UsmView, scoped: Seq<u8>, encrypted: bool)
    requires
        v3_message_tlv(header, usm, scoped, encrypted).len() <= usize::MAX,
    ensures
        ({
            let whole = v3_message_tlv(header, usm, scoped, encrypted);
            &&& (Cursor { rest: whole, at: 0 }).sequence() matches Step { outcome: Ok(inner), used }
            &&& used == whole.len()
            &&& ({
                let version = inner.integer();
                let after_version = inner.advance(version.used);
                let head = after_version.sequence();
                let after_head = after_version.advance(head.used);
                let params = after_head.octets();
                let last = after_head.advance(params.used);
                &&& version.outcome == Ok::<i32, BerFault>(3)
                &&& head.outcome matches Ok(place) && header_reads(place, header) && after_header(
                    place,
                ).len() == 0
                &&& params.outcome matches Ok(bytes) && (Cursor {
                    rest: bytes,
                    at: 0,
                }).sequence() matches Step { outcome: Ok(place), used } && used == bytes.len()
                    && usm_reads(place, usm) && after_usm(place).len() == 0
                &&& !encrypted ==> last.rest == scoped
                &&& encrypted ==> last.octets().outcome == Ok::<Seq<u8>, BerFault>(scoped)
                    && last.octets().used == last.rest.len()
            })
        }),
{
    let whole = v3_message_tlv(header, usm, scoped, encrypted);
    let part = scoped_part(scoped, encrypted);
    let version = tlv::integer_tlv(SNMPV3_VERSION as int);
    let head = header_tlv(header);
    let params = tlv::octets_tlv(usm_tlv(usm));
    let contents = version + (head + (params + part));
    lemma_message_parts(header, usm, scoped, encrypted);
    assert(version + head + params + part =~= contents);
    assert(whole + Seq::<u8>::empty() =~= whole);
    lemma_sequence(contents, Seq::empty(), 0);
    let start = whole.len() - contents.len();
    let at1 = start + version.len();
    lemma_sequence(header_contents(header), params + part, at1);
    lemma_header_reads(header, at1 + head.len() - header_contents(header).len());
    lemma_usm_reads(usm, 0);
    if encrypted {
        assert(part + Seq::<u8>::empty() =~= part);
        lemma_octets(scoped, Seq::empty(), whole.len() - part.len());
    }
}

/// A scoped PDU is one SEQUENCE of the engine ID, the context name and the PDU, in this
/// order and nothing else.
pub proof fn law_scoped_pdu(engine_id: Seq<u8>, name: Seq<u8>, pdu: Seq<u8>)
    requires
        scoped_pdu_tlv(engine_id, name, pdu).len() <= usize::MAX,
    ensures
        ({
            let whole = scoped_pdu_tlv(engine_id, name, pdu);
            &&& (Cursor { rest: whole, at: 0 }).sequence() matches Step { outcome: Ok(inner), used }
            &&& used == whole.len()
            &&& scoped_reads(inner, engine_id, name, pdu)
        }),
{
    let whole = scoped_pdu_tlv(engine_id, name, pdu);
    let a = tlv::octets_tlv(engine_id);
    let b = tlv::octets_tlv(name);
    let contents = a + b + pdu;
    assert(whole + Seq::<u8>::empty() =~= whole);
    lemma_sequence(contents, Seq::empty(), 0);
    let at = (whole.len() - contents.len()) as int;
    assert(contents =~= a + (b + pdu));
    lemma_octets(engine_id, b + pdu, at);
    lemma_advance(a, b + pdu, at);
    lemma_octets(name, pdu, at + a.len());
    lemma_advance(b, pdu, at + a.len());
}

/// A negative message identifier and a maximum size below 484 are refused, whatever else
/// the message holds.
pub proof fn law_header_refused(header: HeaderView, usm: UsmView, scoped: Seq<u8>, encrypted: bool)
    requires
        v3_message_tlv(header, usm, scoped, encrypted).len() <= usize::MAX,
    ensures
        header.msg_id < 0 ==> envelope_outcome(v3_message_tlv(header, usm, scoped, encrypted))
            == Err::<EnvelopeView, BerFault>(BerFault::NegativeMessageId),
        header.msg_id >= 0 && header.max_size < 484 ==> envelope_outcome(
            v3_message_tlv(header, usm, scoped, encrypted),
        ) == Err::<EnvelopeView, BerFault>(BerFault::MaxSizeTooSmall),
{
    let part = scoped_part(scoped, encrypted);
    let version = tlv::integer_tlv(SNMPV3_VERSION as int);
    let head = header_tlv(header);
    let params = tlv::octets_tlv(usm_tlv(usm));
    let contents = version + (head + (params + part));
    lemma_message_parts(header, usm, scoped, encrypted);
    let start = v3_message_tlv(header, usm, scoped, encrypted).len() - contents.len();
    let at = start + version.len();
    lemma_sequence(header_contents(header), params + part, at);
    lemma_header_reads(header, at + head.len() - header_contents(header).len());
}

/// An `SNMPv2c` message holds its version, its community string and its PDU, in this
/// order and nothing else.
pub proof fn law_v2c_message(community: Seq<u8>, pdu: Seq<u8>)
    requires
        v2c_message_tlv(community, pdu).len() <= usize::MAX,
    ensures
        (Cursor { rest: v2c_message_tlv(community, pdu), at: 0 }).sequence().outcome matches Ok(
            inner,
        ) && {
            let version = inner.integer();
            let after_version = inner.advance(version.used);
            let name = after_version.octets();
            &&& version.outcome == Ok::<i32, BerFault>(SNMPV2C_VERSION)
            &&& name.outcome == Ok::<Seq<u8>, BerFault>(community)
            &&& after_version.advance(name.used).rest == pdu
        },
        (Cursor { rest: v2c_message_tlv(community, pdu), at: 0 }).sequence().used
            == v2c_message_tlv(community, pdu).len(),
{
    let version = tlv::integer_tlv(SNMPV2C_VERSION as int);
    let name = tlv::octets_tlv(community);
    let contents = version + name + pdu;
    let whole = v2c_message_tlv(community, pdu);
    tlv::lemma_tlv_len(TAG_SEQUENCE, contents);
    tlv::lemma_tlv_len(TAG_OCTET_STRING, community);
    assert(whole + Seq::<u8>::empty() =~= whole);
    tlv::law_primitive_round_trip(BerType::Oid, TAG_SEQUENCE, contents, Seq::empty(), 0);
    let at = (whole.len() - contents.len()) as int;
    assert(contents =~= version + (name + pdu));
    tlv::law_integer_round_trip(SNMPV2C_VERSION, name + pdu, at);
    let inner = Cursor { rest: contents, at };
    assert(inner.advance(version.len()) =~= (Cursor { rest: name + pdu, at: at + version.len() }));
    tlv::law_octets_round_trip(community, pdu, at + version.len());
    let after = Cursor { rest: name + pdu, at: at + version.len() };
    assert(after.advance(name.len()).rest =~= pdu);
}

/// Every message that decodes holds, in this order, version 3, a header, security parameters
/// and a scoped PDU, and every field that is reported is read at its own place.
pub proof fn law_envelope_fields(bytes: Seq<u8>)
    ensures
        envelope_outcome(bytes) matches Ok(envelope) ==> (Cursor {
            rest: bytes,
            at: 0,
        }).sequence().outcome matches Ok(inner) && {
            let version = inner.integer();
            let after_version = inner.advance(version.used);
            let head = after_version.sequence();
            let after_head = after_version.advance(head.used);
            let params = after_head.octets();
            let last = after_head.advance(params.used);
            &&& version.outcome == Ok::<i32, BerFault>(3)
            &&& head.outcome matches Ok(place) && header_reads(place, envelope.header)
            &&& envelope.header.msg_id >= 0
            &&& envelope.header.max_size >= 484
            &&& params.outcome matches Ok(contents) && (Cursor {
                rest: contents,
                at: after_head.at + params.used - contents.len(),
            }).sequence().outcome matches Ok(place) && usm_reads(place, envelope.usm)
            &&& match envelope.scoped_data {
                ScopedView::Encrypted(ciphertext) => last.octets().outcome == Ok::<
                    Seq<u8>,
                    BerFault,
                >(ciphertext),
                ScopedView::Plaintext { context_engine_id, context_name, raw_pdu } =>
                    last.sequence().outcome matches Ok(scoped) && scoped_reads(
                    scoped,
                    context_engine_id,
                    context_name,
                    raw_pdu,
                ),
            }
        },
{
}

/// Every scoped PDU that decodes holds, in this order, the engine ID, the context name and
/// the PDU that are reported.
pub proof fn law_scoped_fields(bytes: Seq<u8>)
    ensures
        scoped_pdu_outcome(bytes) matches Ok((engine_id, name, pdu)) ==> (Cursor {
            rest: bytes,
            at: 0,
        }).sequence().outcome matches Ok(inner) && scoped_reads(inner, engine_id, name, pdu),
{
}

/// A scoped PDU that is neither a SEQUENCE nor an OCTET STRING is refused by its tag.
pub proof fn law_scoped_tag(place: Cursor)
    requires
        place.rest.len() > 0,
    ensures
        place.rest[0] != 0x30 && place.rest[0] != 0x04 ==> scoped_data_outcome(place) == Err::<
            ScopedView,
            BerFault,
        >(BerFault::UnexpectedScopedPdu { tag: place.rest[0] }),
        scoped_data_outcome(place) matches Ok(ScopedView::Plaintext { .. }) ==> place.rest[0]
            == 0x30,
        scoped_data_outcome(place) matches Ok(ScopedView::Encrypted(_)) ==> place.rest[0] == 0x04,
{
}

/// Where the authentication parameters stand does not depend on how it is found: reading the
/// whole message and looking for them alone give the same place.
pub proof fn law_located(bytes: Seq<u8>)
    ensures
        envelope_outcome(bytes) matches Ok(envelope) ==> (envelope.auth_params_offset matches Some(
            start,
        ) ==> located_outcome(bytes) == Ok::<usize, BerFault>(start)),
{
}

/// The mathematical value of an envelope holds each of its fields under its own name.
pub proof fn law_envelope_view(envelope: V3MessageEnvelope)
    ensures
        envelope@.header.msg_id == envelope.msg_id,
        envelope@.header.max_size == envelope.max_size,
        envelope@.header.security_flags == envelope.security_flags,
        envelope@.header.security_model == envelope.security_model,
        envelope@.usm.engine_id == envelope.usm.engine_id@,
        envelope@.usm.engine_boots == envelope.usm.engine_boots,
        envelope@.usm.engine_time == envelope.usm.engine_time,
        envelope@.usm.user_name == envelope.usm.user_name@,
        envelope@.usm.auth_params == envelope.usm.auth_params@,
        envelope@.usm.priv_params == envelope.usm.priv_params@,
        envelope@.auth_params_offset == envelope.auth_params_offset,
        match envelope.scoped_data {
            ScopedData::Encrypted(bytes) => envelope@.scoped_data == ScopedView::Encrypted(bytes@),
            ScopedData::Plaintext { context_engine_id, context_name, raw_pdu } =>
                envelope@.scoped_data matches ScopedView::Plaintext {
                context_engine_id: e,
                context_name: n,
                raw_pdu: p,
            } && e == context_engine_id@ && n == context_name@ && p == raw_pdu@,
        },
{
}

} // verus!
