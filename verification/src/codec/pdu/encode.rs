//! Encoding of outbound PDUs and `SNMPv3` messages.
//!
//! Encrypting and signing need secret keys, which this module never sees. An `SNMPv3`
//! message that calls for them is therefore built in steps: each pending step says what
//! is to be encrypted or signed, and takes the result back.

use std::sync::atomic::{AtomicU64, Ordering};
use vstd::pervasive::unreached;
use vstd::prelude::*;
use vstd::slice::slice_to_vec;
use crate::codec::ber::error::BerFault;
use crate::codec::ber::integer;
use crate::codec::ber::pdu as ber_pdu;
use crate::codec::ber::pdu::DecodedPduView;
use crate::codec::ber::snmp as ber_snmp;
use crate::codec::ber::snmp::{
    encode_scoped_pdu, encode_v2c_message, encode_v3_message, HeaderView, ScopedView, UsmView,
    MSG_MAX_SIZE_UDP,
};
use crate::codec::ber::tag::{TAG_REPORT, TAG_RESPONSE, TAG_SEQUENCE, TAG_TRAP};
use crate::codec::ber::tlv;
use crate::codec::ber::tlv::Cursor;
use crate::codec::ber::varbind;
use crate::codec::ber::varbind::{encode_varbind, encode_varbind_list, encode_varbind_value};
use crate::codec::oid::Oid;
use crate::codec::pdu::decode;
use crate::codec::pdu::types;
use crate::codec::pdu::types::{
    DecodeErrorKind, DecodeFault, EncodeError, GetResponse, Varbind, VarbindValue, VarbindValueView, VarbindView, WireTrapPdu,
};
use crate::codec::value::{Value, ValueView};
use crate::counter::draw;
use crate::text;
use crate::text::push_decimal;
use crate::usm::AuthProtocol;

verus! {

// ----- PDUs ------------------------------------------------------------------------

/// The bytes of a response whose error index fits in an INTEGER.
pub open spec fn response_tlv(pdu: GetResponse) -> Seq<u8> {
    ber_pdu::pdu_tlv(
        TAG_RESPONSE,
        pdu.request_id@,
        pdu.error_status.spec_code(),
        pdu.error_index as i32,
        varbind::varbind_list_tlv(types::varbind_views(pdu.varbinds@)),
    )
}

/// The bytes of a notification PDU under `tag`.
pub open spec fn notification_tlv(tag: u8, request_id: i32, varbinds: Seq<VarbindView>) -> Seq<u8> {
    ber_pdu::pdu_tlv(tag, request_id, 0, 0, varbind::varbind_list_tlv(varbinds))
}

/// The bytes of a trap PDU.
pub open spec fn trap_tlv(pdu: WireTrapPdu) -> Seq<u8> {
    notification_tlv(TAG_TRAP, pdu.request_id@, types::varbind_views(pdu.varbinds@))
}

/// The varbind of a report: a counter and its value.
pub open spec fn report_varbind(counter_oid: Seq<u32>, counter_value: u32) -> VarbindView {
    VarbindView {
        oid: counter_oid,
        value: VarbindValueView::Value(ValueView::Counter32(counter_value)),
    }
}

/// The bytes of a report PDU.
pub open spec fn report_tlv(msg_id: i32, counter_oid: Seq<u32>, counter_value: u32) -> Seq<u8> {
    notification_tlv(TAG_REPORT, msg_id, seq![report_varbind(counter_oid, counter_value)])
}

/// Why a response with this error index is refused.
pub open spec fn error_index_text(error_index: u32) -> Seq<char> {
    "error_index "@ + text::decimal(error_index as nat)
        + " exceeds maximum representable value in BER"@
}

fn encode_varbinds(varbinds: &[Varbind]) -> (out: Vec<u8>)
    ensures
        out@ == varbind::varbind_list_tlv(types::varbind_views(varbinds@)),
{
    let ghost views = types::varbind_views(varbinds@);
    let ghost parts = varbind::varbind_tlvs(views);
    let mut encoded: Vec<Vec<u8>> = Vec::new();
    let mut i: usize = 0;
    while i < varbinds.len()
        invariant
            i <= varbinds@.len(),
            views == types::varbind_views(varbinds@),
            parts == varbind::varbind_tlvs(views),
            encoded@.len() == i,
            forall|j: int| 0 <= j < i ==> (#[trigger] encoded@[j])@ == parts[j],
        decreases varbinds@.len() - i,
    {
        let item: &Varbind = &varbinds[i];
        match encode_varbind_value(&item.value) {
            Ok(value) => {
                encoded.push(encode_varbind(&item.oid, value.as_slice()));
            },
            Err(_) => unreached(),
        }
        i += 1;
    }
    let mut slices: Vec<&[u8]> = Vec::new();
    let mut k: usize = 0;
    while k < encoded.len()
        invariant
            k <= encoded@.len(),
            encoded@.len() == parts.len(),
            slices@.len() == k,
            forall|j: int| 0 <= j < encoded@.len() ==> (#[trigger] encoded@[j])@ == parts[j],
            forall|j: int| 0 <= j < k ==> (#[trigger] slices@[j])@ == parts[j],
        decreases encoded@.len() - k,
    {
        slices.push(encoded[k].as_slice());
        k += 1;
    }
    proof {
        assert(varbind::slice_views(slices@) =~= parts);
    }
    encode_varbind_list(slices.as_slice())
}

/// BER-encodes a [`GetResponse`] PDU for transmission.
///
/// Fails exactly when the error index does not fit in an INTEGER.
pub fn encode_response(pdu: &GetResponse) -> (result: Result<Vec<u8>, EncodeError>)
    ensures
        match result {
            Ok(out) => pdu.error_index <= i32::MAX && out@ == response_tlv(*pdu),
            Err(error) => pdu.error_index > i32::MAX && error.message@ == error_index_text(
                pdu.error_index,
            ),
        },
{
    let raw_varbind_list = encode_varbinds(pdu.varbinds.as_slice());
    if pdu.error_index > i32::MAX as u32 {
        let mut message = "error_index ".to_owned();
        push_decimal(&mut message, pdu.error_index as u64);
        message.append(" exceeds maximum representable value in BER");
        return Err(EncodeError::new(message.as_str()));
    }
    let encoded = ber_pdu::encode_pdu(
        TAG_RESPONSE,
        i32::from(pdu.request_id),
        pdu.error_status.code(),
        pdu.error_index as i32,
        raw_varbind_list.as_slice(),
    );
    match encoded {
        Ok(out) => Ok(out),
        Err(error) => Err(EncodeError::new(error.message())),
    }
}

fn encode_notification(tag: u8, request_id: i32, varbinds: &[Varbind]) -> (result: Result<
    Vec<u8>,
    EncodeError,
>)
    requires
        tag == TAG_TRAP || tag == TAG_REPORT,
    ensures
        result matches Ok(out) && out@ == notification_tlv(
            tag,
            request_id,
            types::varbind_views(varbinds@),
        ),
{
    let raw_varbind_list = encode_varbinds(varbinds);
    match ber_pdu::encode_pdu(tag, request_id, 0, 0, raw_varbind_list.as_slice()) {
        Ok(out) => Ok(out),
        Err(error) => Err(EncodeError::new(error.message())),
    }
}

/// BER-encodes a [`WireTrapPdu`] for transmission as a plain UDP datagram.
///
/// Wraps the SNMPv2-Trap-PDU in an `SNMPv2c` message (RFC 1901) with an empty community
/// string. Every trap can be encoded.
pub fn encode_trap(pdu: &WireTrapPdu) -> (result: Result<Vec<u8>, EncodeError>)
    ensures
        result matches Ok(out) && out@ == ber_snmp::v2c_message_tlv(Seq::empty(), trap_tlv(*pdu)),
{
    match encode_notification(TAG_TRAP, i32::from(pdu.request_id), pdu.varbinds.as_slice()) {
        Ok(raw_pdu) => {
            let community: [u8; 0] = [];
            proof {
                assert(community@ =~= Seq::empty());
            }
            Ok(encode_v2c_message(community.as_slice(), raw_pdu.as_slice()))
        },
        Err(error) => Err(error),
    }
}

// ----- Messages --------------------------------------------------------------------

/// A number of 32 bits as four big-endian bytes.
pub open spec fn word_bytes(n: u32) -> Seq<u8> {
    seq![
        (n / 0x100_0000) as u8,
        (n / 0x1_0000 % 256) as u8,
        (n / 0x100 % 256) as u8,
        (n % 256) as u8,
    ]
}

/// The initialisation vector for a message: engine boots, engine time and salt
/// (RFC 3826 §2.2).
pub open spec fn privacy_iv(engine_boots: u32, engine_time: u32, salt: Seq<u8>) -> Seq<u8> {
    word_bytes(engine_boots) + word_bytes(engine_time) + salt
}

/// The salt drawn from a counter: its eight big-endian bytes.
pub open spec fn salt_bytes(counter: u64) -> Seq<u8> {
    word_bytes((counter / 0x1_0000_0000) as u32) + word_bytes((counter % 0x1_0000_0000) as u32)
}

proof fn lemma_word_bytes(a: u32, b: u32)
    requires
        word_bytes(a) == word_bytes(b),
    ensures
        a == b,
{
    assert(word_bytes(a)[0] == word_bytes(b)[0]);
    assert(word_bytes(a)[1] == word_bytes(b)[1]);
    assert(word_bytes(a)[2] == word_bytes(b)[2]);
    assert(word_bytes(a)[3] == word_bytes(b)[3]);
}

/// Different counter values give different salts.
pub proof fn law_salts_distinct(a: u64, b: u64)
    requires
        salt_bytes(a) == salt_bytes(b),
    ensures
        a == b,
{
    let (a_high, a_low) = ((a / 0x1_0000_0000) as u32, (a % 0x1_0000_0000) as u32);
    let (b_high, b_low) = ((b / 0x1_0000_0000) as u32, (b % 0x1_0000_0000) as u32);
    assert(salt_bytes(a).take(4) =~= word_bytes(a_high));
    assert(salt_bytes(b).take(4) =~= word_bytes(b_high));
    assert(salt_bytes(a).skip(4) =~= word_bytes(a_low));
    assert(salt_bytes(b).skip(4) =~= word_bytes(b_low));
    lemma_word_bytes(a_high, b_high);
    lemma_word_bytes(a_low, b_low);
}

/// The number that a counter which starts at `start` holds after `calls` increments by
/// one, wrapping around.
pub open spec fn counter_after(start: u64, calls: nat) -> u64
    decreases calls,
{
    if calls == 0 {
        start
    } else {
        counter_after(start, (calls - 1) as nat).wrapping_add(1)
    }
}

proof fn lemma_counter_after(start: u64, calls: nat)
    ensures
        counter_after(start, calls) == (start + calls) % 0x1_0000_0000_0000_0000,
    decreases calls,
{
    if calls > 0 {
        lemma_counter_after(start, (calls - 1) as nat);
    }
}

/// Read as a big-endian number, the salt drawn from a counter is the counter, in exactly
/// eight bytes.
pub proof fn law_salt_value(counter: u64)
    ensures
        salt_bytes(counter).len() == 8,
        integer::be_value(salt_bytes(counter)) == counter,
{
    let salt = salt_bytes(counter);
    reveal_with_fuel(integer::be_value, 9);
    assert(salt.drop_last().last() == salt[6]);
    assert(salt.drop_last().drop_last().last() == salt[5]);
    assert(salt.drop_last().drop_last().drop_last().last() == salt[4]);
    let high = (counter / 0x1_0000_0000) as u32;
    let low = (counter % 0x1_0000_0000) as u32;
    lemma_word_value(high);
    lemma_word_value(low);
    assert(salt.drop_last().drop_last().drop_last().drop_last() =~= word_bytes(high));
}

proof fn lemma_word_value(n: u32)
    ensures
        integer::be_value(word_bytes(n)) == n,
        word_bytes(n)[0] * 0x100_0000 + word_bytes(n)[1] * 0x1_0000 + word_bytes(n)[2] * 0x100
            + word_bytes(n)[3] == n,
{
    let word = word_bytes(n);
    reveal_with_fuel(integer::be_value, 5);
    assert(word.drop_last().last() == word[2]);
    assert(word.drop_last().drop_last().last() == word[1]);
    assert(word.drop_last().drop_last().drop_last().last() == word[0]);
}

/// A counter that is only ever incremented by one gives a different salt to every call,
/// up to 2^64 calls, wherever it starts.
pub proof fn law_salts_never_repeat(start: u64, a: nat, b: nat)
    requires
        a < b < 0x1_0000_0000_0000_0000,
    ensures
        salt_bytes(counter_after(start, a)) != salt_bytes(counter_after(start, b)),
{
    lemma_counter_after(start, a);
    lemma_counter_after(start, b);
    if salt_bytes(counter_after(start, a)) == salt_bytes(counter_after(start, b)) {
        law_salts_distinct(counter_after(start, a), counter_after(start, b));
    }
}

/// Read as big-endian numbers, the salts of two calls in a row are consecutive, wrapping
/// around.
pub proof fn law_salts_consecutive(start: u64, calls: nat)
    ensures
        integer::be_value(salt_bytes(counter_after(start, calls + 1))) == (integer::be_value(
            salt_bytes(counter_after(start, calls)),
        ) + 1) % 0x1_0000_0000_0000_0000,
{
    let now = counter_after(start, calls);
    let next = counter_after(start, calls + 1);
    assert(next == (now + 1) % 0x1_0000_0000_0000_0000) by {
        assert(next == now.wrapping_add(1));
    }
    law_salt_value(now);
    law_salt_value(next);
}

/// Different engine boots, engine times or salts give different initialisation vectors.
pub proof fn law_ivs_distinct(
    boots_a: u32,
    time_a: u32,
    salt_a: Seq<u8>,
    boots_b: u32,
    time_b: u32,
    salt_b: Seq<u8>,
)
    requires
        privacy_iv(boots_a, time_a, salt_a) == privacy_iv(boots_b, time_b, salt_b),
    ensures
        boots_a == boots_b,
        time_a == time_b,
        salt_a == salt_b,
{
    let a = privacy_iv(boots_a, time_a, salt_a);
    let b = privacy_iv(boots_b, time_b, salt_b);
    assert(a.take(4) =~= word_bytes(boots_a));
    assert(b.take(4) =~= word_bytes(boots_b));
    assert(a.subrange(4, 8) =~= word_bytes(time_a));
    assert(b.subrange(4, 8) =~= word_bytes(time_b));
    assert(a.skip(8) =~= salt_a);
    assert(b.skip(8) =~= salt_b);
    lemma_word_bytes(boots_a, boots_b);
    lemma_word_bytes(time_a, time_b);
}

fn push_word(out: &mut Vec<u8>, n: u32)
    ensures
        final(out)@ == old(out)@ + word_bytes(n),
{
    out.push((n / 0x100_0000) as u8);
    out.push((n / 0x1_0000 % 256) as u8);
    out.push((n / 0x100 % 256) as u8);
    out.push((n % 256) as u8);
    proof {
        assert(out@ =~= old(out)@ + word_bytes(n));
    }
}

/// The salt drawn from a counter: its eight big-endian bytes.
pub fn privacy_salt(counter: u64) -> (salt: [u8; 8])
    ensures
        salt@ == salt_bytes(counter),
{
    let mut bytes: Vec<u8> = Vec::new();
    push_word(&mut bytes, (counter / 0x1_0000_0000) as u32);
    push_word(&mut bytes, (counter % 0x1_0000_0000) as u32);
    let salt: [u8; 8] = [
        bytes[0],
        bytes[1],
        bytes[2],
        bytes[3],
        bytes[4],
        bytes[5],
        bytes[6],
        bytes[7],
    ];
    proof {
        assert(salt@ =~= salt_bytes(counter));
    }
    salt
}

/// Atomically increments `counter` and returns the salt for the next encrypted message.
///
/// The salt is that of the number that adding one to the counter gives back. Which number
/// that is depends on the other users of the counter.
pub fn next_privacy_salt(counter: &AtomicU64) -> (salt: [u8; 8])
    ensures
        exists|raw: u64| #[trigger]
            call_ensures(AtomicU64::fetch_add, (counter, 1u64, Ordering::Relaxed), raw) && salt@
                == salt_bytes(raw),
{
    let raw: u64 = draw(AtomicU64::fetch_add, counter, 1u64);
    privacy_salt(raw)
}

/// `n` zero bytes: the placeholder for a message authentication code.
pub open spec fn zeros(n: nat) -> Seq<u8> {
    Seq::new(n, |i: int| 0u8)
}

fn zero_bytes(n: usize) -> (out: Vec<u8>)
    ensures
        out@ == zeros(n as nat),
{
    let mut out: Vec<u8> = Vec::new();
    let mut i: usize = 0;
    while i < n
        invariant
            i <= n,
            out@ =~= zeros(i as nat),
        decreases n - i,
    {
        out.push(0);
        i += 1;
    }
    out
}

/// An `SNMPv3` message before it is encoded.
pub struct MessageView {
    /// The `HeaderData`.
    pub header: HeaderView,
    /// The USM security parameters.
    pub usm: UsmView,
    /// The scoped PDU, or its ciphertext.
    pub scoped: Seq<u8>,
    /// Whether `scoped` is ciphertext.
    pub encrypted: bool,
}

impl MessageView {
    /// The bytes of the message.
    pub open spec fn bytes(self) -> Seq<u8> {
        ber_snmp::v3_message_tlv(self.header, self.usm, self.scoped, self.encrypted)
    }

    /// Where the authentication code stands in the bytes, if there is one.
    pub open spec fn mac_place(self) -> Option<usize> {
        if self.usm.auth_params.len() == 0 {
            None
        } else {
            Some(
                ber_snmp::auth_start(self.header, self.usm, self.scoped, self.encrypted) as usize,
            )
        }
    }

    /// The message with other authentication parameters.
    pub open spec fn signed(self, mac: Seq<u8>) -> MessageView {
        MessageView { usm: UsmView { auth_params: mac, ..self.usm }, ..self }
    }

    /// The message with its scoped PDU encrypted.
    pub open spec fn with_ciphertext(self, ciphertext: Seq<u8>) -> MessageView {
        MessageView { scoped: ciphertext, encrypted: true, ..self }
    }
}

/// The flags of an outbound message: bit 0 for authentication, bit 1 for privacy.
pub open spec fn level_flags(auth: bool, privacy: bool) -> u8 {
    if auth && privacy {
        3
    } else if auth {
        1
    } else {
        0
    }
}

/// Who a message is from and for: the fields that are the same at every security level.
pub struct OutboundView {
    /// `msgID`.
    pub msg_id: i32,
    /// The authoritative engine ID, which is also the context engine ID.
    pub engine_id: Seq<u8>,
    /// `msgUserName`.
    pub user_name: Seq<u8>,
    /// `contextName`.
    pub context_name: Seq<u8>,
    /// `msgAuthoritativeEngineBoots`.
    pub engine_boots: u32,
    /// `msgAuthoritativeEngineTime`.
    pub engine_time: u32,
}

impl OutboundView {
    /// The scoped PDU around `pdu`.
    pub open spec fn scoped_pdu(self, pdu: Seq<u8>) -> Seq<u8> {
        ber_snmp::scoped_pdu_tlv(self.engine_id, self.context_name, pdu)
    }

    /// The message around `pdu` with the scoped PDU in the clear, and with a zero
    /// placeholder where a message authentication code is called for.
    pub open spec fn message(
        self,
        auth: Option<AuthProtocol>,
        salt: Option<Seq<u8>>,
        pdu: Seq<u8>,
    ) -> MessageView {
        MessageView {
            header: HeaderView {
                msg_id: self.msg_id,
                max_size: MSG_MAX_SIZE_UDP,
                security_flags: level_flags(auth is Some, salt is Some),
                security_model: 3,
            },
            usm: UsmView {
                engine_id: self.engine_id,
                engine_boots: self.engine_boots as i32,
                engine_time: self.engine_time as i32,
                user_name: self.user_name,
                auth_params: match auth {
                    Some(protocol) => zeros(protocol.spec_mac_len()),
                    None => Seq::empty(),
                },
                priv_params: match salt {
                    Some(bytes) => bytes,
                    None => Seq::empty(),
                },
            },
            scoped: self.scoped_pdu(pdu),
            encrypted: false,
        }
    }
}

/// An `SNMPv3` message that is complete, or waits for a result that needs a secret key.
pub enum V3EncodingView {
    /// The bytes to send.
    Complete(Seq<u8>),
    /// The message waits for the ciphertext of its scoped PDU under the vector `iv`.
    Encrypt { iv: Seq<u8>, message: MessageView },
    /// The message waits for its authentication code.
    Sign(MessageView),
}

/// Why a message is refused.
pub open spec fn envelope_fault(
    engine_boots: u32,
    engine_time: u32,
    auth: bool,
    privacy: bool,
) -> Option<Seq<char>> {
    if engine_boots > i32::MAX {
        Some(
            "engine_boots "@ + text::decimal(engine_boots as nat)
                + " exceeds maximum BER INTEGER value for i32"@,
        )
    } else if engine_time > i32::MAX {
        Some(
            "engine_time "@ + text::decimal(engine_time as nat)
                + " exceeds maximum BER INTEGER value for i32"@,
        )
    } else if privacy && !auth {
        Some("privacy without authentication is not permitted (RFC 3412)"@)
    } else {
        None
    }
}

/// The first step of encoding the message around `pdu`.
pub open spec fn envelope_outcome(
    outbound: OutboundView,
    auth: Option<AuthProtocol>,
    salt: Option<Seq<u8>>,
    pdu: Seq<u8>,
) -> Result<V3EncodingView, Seq<char>> {
    match envelope_fault(outbound.engine_boots, outbound.engine_time, auth is Some, salt is Some) {
        Some(message) => Err(message),
        None => {
            let message = outbound.message(auth, salt, pdu);
            Ok(
                match (auth, salt) {
                    (None, _) => V3EncodingView::Complete(message.bytes()),
                    (Some(_), None) => V3EncodingView::Sign(message),
                    (Some(_), Some(bytes)) => V3EncodingView::Encrypt {
                        iv: privacy_iv(outbound.engine_boots, outbound.engine_time, bytes),
                        message,
                    },
                },
            )
        },
    }
}

/// The first step of encoding a message around a response.
pub open spec fn response_outcome(
    outbound: OutboundView,
    auth: Option<AuthProtocol>,
    salt: Option<Seq<u8>>,
    pdu: GetResponse,
) -> Result<V3EncodingView, Seq<char>> {
    if pdu.error_index > i32::MAX {
        Err(error_index_text(pdu.error_index))
    } else {
        envelope_outcome(outbound, auth, salt, response_tlv(pdu))
    }
}

/// Whether `result` is what `outcome` prescribes.
pub open spec fn encoding_agrees(
    result: Result<V3Encoding, EncodeError>,
    outcome: Result<V3EncodingView, Seq<char>>,
) -> bool {
    match (result, outcome) {
        (Ok(encoding), Ok(wanted)) => encoding@ == wanted,
        (Err(error), Err(message)) => error.message@ == message,
        _ => false,
    }
}

/// A step in encoding an `SNMPv3` message.
pub enum V3Encoding {
    /// The message is complete: these are the bytes to send.
    Complete(Vec<u8>),
    /// The scoped PDU is to be encrypted.
    Encrypt(PendingEncryption),
    /// The message is to be signed.
    Sign(PendingSignature),
}

impl View for V3Encoding {
    type V = V3EncodingView;

    open spec fn view(&self) -> V3EncodingView {
        match self {
            V3Encoding::Complete(bytes) => V3EncodingView::Complete(bytes@),
            V3Encoding::Encrypt(pending) => V3EncodingView::Encrypt {
                iv: pending.spec_iv(),
                message: pending@,
            },
            V3Encoding::Sign(pending) => V3EncodingView::Sign(pending@),
        }
    }
}

/// A message whose scoped PDU is to be encrypted. Its view is the message in the clear.
#[derive(Debug)]
pub struct PendingEncryption {
    msg_id: i32,
    engine_id: Vec<u8>,
    engine_boots: i32,
    engine_time: i32,
    user_name: Vec<u8>,
    auth: AuthProtocol,
    salt: [u8; 8],
    iv: Vec<u8>,
    scoped_pdu: Vec<u8>,
}

impl View for PendingEncryption {
    type V = MessageView;

    closed spec fn view(&self) -> MessageView {
        MessageView {
            header: HeaderView {
                msg_id: self.msg_id,
                max_size: MSG_MAX_SIZE_UDP,
                security_flags: 3,
                security_model: 3,
            },
            usm: UsmView {
                engine_id: self.engine_id@,
                engine_boots: self.engine_boots,
                engine_time: self.engine_time,
                user_name: self.user_name@,
                auth_params: zeros(self.auth.spec_mac_len()),
                priv_params: self.salt@,
            },
            scoped: self.scoped_pdu@,
            encrypted: false,
        }
    }
}

impl PendingEncryption {
    /// The initialisation vector.
    pub closed spec fn spec_iv(&self) -> Seq<u8> {
        self.iv@
    }

    /// The initialisation vector to encrypt under.
    pub fn iv(&self) -> (iv: &[u8])
        ensures
            iv@ == self.spec_iv(),
    {
        self.iv.as_slice()
    }

    /// The bytes to encrypt: the scoped PDU.
    pub fn plaintext(&self) -> (bytes: &[u8])
        ensures
            bytes@ == self@.scoped,
    {
        self.scoped_pdu.as_slice()
    }

    /// The next step, with the ciphertext in place of the scoped PDU.
    pub fn encrypted(self, ciphertext: &[u8]) -> (pending: PendingSignature)
        ensures
            pending@ == self@.with_ciphertext(ciphertext@),
    {
        unsigned_message(
            self.msg_id,
            3,
            self.engine_id.as_slice(),
            self.engine_boots,
            self.engine_time,
            self.user_name.as_slice(),
            self.auth,
            self.salt.as_slice(),
            ciphertext,
            true,
        )
    }
}

/// A message that is to be signed. Its view is the message with a zero placeholder for
/// the authentication code.
pub struct PendingSignature {
    message: Vec<u8>,
    offset: usize,
    mac_len: usize,
    content: Ghost<MessageView>,
}

impl View for PendingSignature {
    type V = MessageView;

    closed spec fn view(&self) -> MessageView {
        self.content@
    }
}

impl PendingSignature {
    #[verifier::type_invariant]
    spec fn holds_content(self) -> bool {
        let content = self.content@;
        &&& self.message@ == content.bytes()
        &&& self.mac_len == content.usm.auth_params.len()
        &&& self.offset == ber_snmp::auth_start(
            content.header,
            content.usm,
            content.scoped,
            content.encrypted,
        )
    }

    /// The bytes to sign: the message with a zero placeholder.
    pub fn unsigned(&self) -> (bytes: &[u8])
        ensures
            bytes@ == self@.bytes(),
    {
        proof {
            use_type_invariant(self);
        }
        self.message.as_slice()
    }

    /// The length of the authentication code.
    pub fn mac_len(&self) -> (n: usize)
        ensures
            n == self@.usm.auth_params.len(),
    {
        proof {
            use_type_invariant(self);
        }
        self.mac_len
    }

    /// Where the authentication code goes in the message.
    pub fn mac_offset(&self) -> (offset: usize)
        ensures
            offset == ber_snmp::auth_start(
                self@.header,
                self@.usm,
                self@.scoped,
                self@.encrypted,
            ),
    {
        proof {
            use_type_invariant(self);
        }
        self.offset
    }

    /// The bytes to send, with the authentication code in place of the placeholder.
    pub fn signed(self, mac: &[u8]) -> (out: Vec<u8>)
        requires
            mac@.len() == self@.usm.auth_params.len(),
        ensures
            out@ == self@.signed(mac@).bytes(),
    {
        proof {
            use_type_invariant(&self);
            ber_snmp::law_auth_start(
                self@.header,
                self@.usm,
                self@.scoped,
                self@.encrypted,
            );
            law_signature_in_place(self@, mac@);
        }
        let ghost before = self.message@;
        let offset: usize = self.offset;
        let mut out = self.message;
        let mut i: usize = 0;
        while i < mac.len()
            invariant
                i <= mac@.len(),
                offset + mac@.len() <= before.len(),
                before.len() == out.len(),
                out@ =~= before.subrange(0, offset as int) + mac@.take(i as int)
                    + before.subrange(offset + i, before.len() as int),
            decreases mac@.len() - i,
        {
            out[offset + i] = mac[i];
            i += 1;
        }
        proof {
            assert(mac@.take(mac@.len() as int) =~= mac@);
        }
        out
    }
}

/// Writing an authentication code over the placeholder in the encoded message gives the
/// encoding of the message with that code.
pub proof fn law_signature_in_place(message: MessageView, mac: Seq<u8>)
    requires
        mac.len() == message.usm.auth_params.len(),
    ensures
        ({
            let bytes = message.bytes();
            let start = ber_snmp::auth_start(
                message.header,
                message.usm,
                message.scoped,
                message.encrypted,
            );
            message.signed(mac).bytes() == bytes.subrange(0, start) + mac + bytes.subrange(
                start + mac.len(),
                bytes.len() as int,
            )
        }),
{
    ber_snmp::lemma_replace_auth_params(
        message.header,
        message.usm,
        mac,
        message.scoped,
        message.encrypted,
    );
}

/// A receiver that writes zeros over the authentication code of a signed message, where
/// the code stands, gets the very bytes that were signed.
pub proof fn law_zeroing_recovers_unsigned(message: MessageView, mac: Seq<u8>)
    requires
        message.usm.auth_params == zeros(mac.len()),
    ensures
        ({
            let signed = message.signed(mac);
            let start = ber_snmp::auth_start(
                signed.header,
                signed.usm,
                signed.scoped,
                signed.encrypted,
            );
            let bytes = signed.bytes();
            bytes.subrange(0, start) + zeros(mac.len()) + bytes.subrange(
                start + mac.len(),
                bytes.len() as int,
            ) == message.bytes()
        }),
{
    let signed = message.signed(mac);
    law_signature_in_place(signed, zeros(mac.len()));
    assert(signed.signed(zeros(mac.len())) == message);
}

#[allow(clippy::too_many_arguments)]
fn unsigned_message(
    msg_id: i32,
    flags_byte: u8,
    engine_id: &[u8],
    engine_boots: i32,
    engine_time: i32,
    user_name: &[u8],
    auth: AuthProtocol,
    priv_params: &[u8],
    scoped: &[u8],
    encrypted: bool,
) -> (pending: PendingSignature)
    ensures
        pending@ == (MessageView {
            header: HeaderView {
                msg_id,
                max_size: MSG_MAX_SIZE_UDP,
                security_flags: flags_byte,
                security_model: 3,
            },
            usm: UsmView {
                engine_id: engine_id@,
                engine_boots,
                engine_time,
                user_name: user_name@,
                auth_params: zeros(auth.spec_mac_len()),
                priv_params: priv_params@,
            },
            scoped: scoped@,
            encrypted,
        }),
{
    let auth_params = zero_bytes(auth.mac_len());
    let ghost content = MessageView {
        header: HeaderView {
            msg_id,
            max_size: MSG_MAX_SIZE_UDP,
            security_flags: flags_byte,
            security_model: 3,
        },
        usm: UsmView {
            engine_id: engine_id@,
            engine_boots,
            engine_time,
            user_name: user_name@,
            auth_params: auth_params@,
            priv_params: priv_params@,
        },
        scoped: scoped@,
        encrypted,
    };
    let encoded = encode_v3_message(
        msg_id,
        MSG_MAX_SIZE_UDP,
        flags_byte,
        3,
        engine_id,
        engine_boots,
        engine_time,
        user_name,
        auth_params.as_slice(),
        priv_params,
        scoped,
        encrypted,
    );
    proof {
        ber_snmp::law_auth_start(
            content.header,
            content.usm,
            content.scoped,
            content.encrypted,
        );
    }
    match encoded {
        Ok((message, Some(offset))) => {
            // The offset fits in `usize`, as the length of the message does.
            assert(message.len() <= usize::MAX);
            PendingSignature {
                message,
                offset,
                mac_len: auth_params.len(),
                content: Ghost(content),
            }
        },
        _ => unreached(),
    }
}

fn counter_error(prefix: &str, n: u32) -> (error: EncodeError)
    ensures
        error.message@ == prefix@ + text::decimal(n as nat)
            + " exceeds maximum BER INTEGER value for i32"@,
{
    let mut message = prefix.to_owned();
    push_decimal(&mut message, n as u64);
    message.append(" exceeds maximum BER INTEGER value for i32");
    EncodeError::new(message.as_str())
}

/// Takes the first step of encoding an `SNMPv3` message around an encoded PDU.
///
/// Without `auth` the message is complete. With `auth` it waits to be signed, and with
/// `salt` as well its scoped PDU is to be encrypted first.
#[allow(clippy::too_many_arguments)]
pub fn encode_v3_envelope(
    msg_id: i32,
    engine_id: &[u8],
    user_name: &[u8],
    context_name: &[u8],
    engine_boots: u32,
    engine_time: u32,
    auth: Option<AuthProtocol>,
    salt: Option<[u8; 8]>,
    raw_pdu_bytes: &[u8],
) -> (result: Result<V3Encoding, EncodeError>)
    ensures
        encoding_agrees(
            result,
            envelope_outcome(
                OutboundView {
                    msg_id,
                    engine_id: engine_id@,
                    user_name: user_name@,
                    context_name: context_name@,
                    engine_boots,
                    engine_time,
                },
                auth,
                salt_view(salt),
                raw_pdu_bytes@,
            ),
        ),
{
    if engine_boots > i32::MAX as u32 {
        return Err(counter_error("engine_boots ", engine_boots));
    }
    if engine_time > i32::MAX as u32 {
        return Err(counter_error("engine_time ", engine_time));
    }
    let boots: i32 = engine_boots as i32;
    let time: i32 = engine_time as i32;
    let scoped_pdu = encode_scoped_pdu(engine_id, context_name, raw_pdu_bytes);
    let empty: [u8; 0] = [];
    proof {
        assert(empty@ =~= Seq::empty());
    }
    match (auth, salt) {
        (None, Some(_)) => Err(
            EncodeError::new("privacy without authentication is not permitted (RFC 3412)"),
        ),
        (None, None) => {
            let encoded = encode_v3_message(
                msg_id,
                MSG_MAX_SIZE_UDP,
                0,
                3,
                engine_id,
                boots,
                time,
                user_name,
                empty.as_slice(),
                empty.as_slice(),
                scoped_pdu.as_slice(),
                false,
            );
            match encoded {
                Ok((message, _)) => Ok(V3Encoding::Complete(message)),
                Err(error) => Err(EncodeError::new(error.message())),
            }
        },
        (Some(protocol), None) => {
            let unsigned = unsigned_message(
                msg_id,
                1,
                engine_id,
                boots,
                time,
                user_name,
                protocol,
                empty.as_slice(),
                scoped_pdu.as_slice(),
                false,
            );
            Ok(V3Encoding::Sign(unsigned))
        },
        (Some(protocol), Some(bytes)) => {
            let mut iv: Vec<u8> = Vec::new();
            push_word(&mut iv, engine_boots);
            push_word(&mut iv, engine_time);
            iv.extend_from_slice(bytes.as_slice());
            proof {
                assert(iv@ =~= privacy_iv(engine_boots, engine_time, bytes@));
            }
            Ok(
                V3Encoding::Encrypt(
                    PendingEncryption {
                        msg_id,
                        engine_id: slice_to_vec(engine_id),
                        engine_boots: boots,
                        engine_time: time,
                        user_name: slice_to_vec(user_name),
                        auth: protocol,
                        salt: bytes,
                        iv,
                        scoped_pdu,
                    },
                ),
            )
        },
    }
}

/// The bytes of a salt.
pub open spec fn salt_view(salt: Option<[u8; 8]>) -> Option<Seq<u8>> {
    match salt {
        Some(bytes) => Some(bytes@),
        None => None,
    }
}

/// Takes the first step of encoding a [`GetResponse`] inside a full `SNMPv3` message.
///
/// The authoritative engine ID and the `user_name` of the request are echoed in the security
/// parameters so that the command generator can match the response (RFC 3414 §8.2.4).
#[allow(clippy::too_many_arguments)]
pub fn encode_v3_response(
    msg_id: i32,
    engine_id: &[u8],
    user_name: &[u8],
    context_name: &[u8],
    engine_boots: u32,
    engine_time: u32,
    auth: Option<AuthProtocol>,
    salt: Option<[u8; 8]>,
    pdu: &GetResponse,
) -> (result: Result<V3Encoding, EncodeError>)
    ensures
        encoding_agrees(
            result,
            response_outcome(
                OutboundView {
                    msg_id,
                    engine_id: engine_id@,
                    user_name: user_name@,
                    context_name: context_name@,
                    engine_boots,
                    engine_time,
                },
                auth,
                salt_view(salt),
                *pdu,
            ),
        ),
{
    match encode_response(pdu) {
        Ok(raw_pdu) => encode_v3_envelope(
            msg_id,
            engine_id,
            user_name,
            context_name,
            engine_boots,
            engine_time,
            auth,
            salt,
            raw_pdu.as_slice(),
        ),
        Err(error) => Err(error),
    }
}

/// Takes the first step of encoding a [`WireTrapPdu`] inside a full `SNMPv3` message.
#[allow(clippy::too_many_arguments)]
pub fn encode_v3_trap(
    msg_id: i32,
    engine_id: &[u8],
    user_name: &[u8],
    context_name: &[u8],
    engine_boots: u32,
    engine_time: u32,
    auth: Option<AuthProtocol>,
    salt: Option<[u8; 8]>,
    pdu: &WireTrapPdu,
) -> (result: Result<V3Encoding, EncodeError>)
    ensures
        encoding_agrees(
            result,
            envelope_outcome(
                OutboundView {
                    msg_id,
                    engine_id: engine_id@,
                    user_name: user_name@,
                    context_name: context_name@,
                    engine_boots,
                    engine_time,
                },
                auth,
                salt_view(salt),
                trap_tlv(*pdu),
            ),
        ),
{
    match encode_notification(TAG_TRAP, i32::from(pdu.request_id), pdu.varbinds.as_slice()) {
        Ok(raw_pdu) => encode_v3_envelope(
            msg_id,
            engine_id,
            user_name,
            context_name,
            engine_boots,
            engine_time,
            auth,
            salt,
            raw_pdu.as_slice(),
        ),
        Err(error) => Err(error),
    }
}

/// BER-encodes an `SNMPv3` Report PDU in a full message envelope.
///
/// The PDU carries a single varbind, `counter_oid` bound to a `Counter32` with
/// `counter_value`, and echoes `msg_id` as its request identifier. Reports are sent
/// noAuthNoPriv with an empty user name and an empty context name; their security
/// parameters carry the engine state so that the manager can synchronise.
pub fn encode_v3_report(
    msg_id: i32,
    engine_id: &[u8],
    engine_boots: u32,
    engine_time: u32,
    counter_oid: &Oid,
    counter_value: u32,
) -> (result: Result<Vec<u8>, EncodeError>)
    ensures
        match (result, envelope_fault(engine_boots, engine_time, false, false)) {
            (Ok(out), None) => out@ == (OutboundView {
                msg_id,
                engine_id: engine_id@,
                user_name: Seq::empty(),
                context_name: Seq::empty(),
                engine_boots,
                engine_time,
            }).message(None, None, report_tlv(msg_id, counter_oid@, counter_value)).bytes(),
            (Err(error), Some(message)) => error.message@ == message,
            _ => false,
        },
{
    let varbinds: [Varbind; 1] = [
        Varbind {
            oid: counter_oid.clone(),
            value: VarbindValue::Value(Value::Counter32(counter_value)),
        },
    ];
    proof {
        assert(types::varbind_views(varbinds@) =~= seq![
            report_varbind(counter_oid@, counter_value),
        ]);
    }
    let raw_pdu = match encode_notification(TAG_REPORT, msg_id, varbinds.as_slice()) {
        Ok(raw_pdu) => raw_pdu,
        Err(error) => {
            return Err(error);
        },
    };
    let empty: [u8; 0] = [];
    proof {
        assert(empty@ =~= Seq::empty());
    }
    let encoding = encode_v3_envelope(
        msg_id,
        engine_id,
        empty.as_slice(),
        empty.as_slice(),
        engine_boots,
        engine_time,
        None,
        None,
        raw_pdu.as_slice(),
    );
    match encoding {
        Ok(V3Encoding::Complete(bytes)) => Ok(bytes),
        Ok(_) => unreached(),
        Err(error) => Err(error),
    }
}

// ----- Laws --------------------------------------------------------------------------

/// A response is read back as what it was encoded from: its request identifier, its
/// error status and index, and its varbinds.
pub proof fn law_response_round_trip(pdu: GetResponse)
    requires
        pdu.error_index <= i32::MAX,
        forall|i: int|
            0 <= i < pdu.varbinds@.len() ==> varbind::wire_varbind(
                #[trigger] types::varbind_views(pdu.varbinds@)[i],
            ),
        response_tlv(pdu).len() <= usize::MAX,
    ensures
        ber_pdu::pdu_outcome(response_tlv(pdu)) matches Ok(
            DecodedPduView::Standard { tag, request_id, error_status, error_index, raw_varbind_list },
        ) && tag == TAG_RESPONSE && request_id == pdu.request_id@ && error_status
            == pdu.error_status.spec_code() && error_index == pdu.error_index
            && decode::varbinds_outcome(raw_varbind_list) == Ok::<Seq<VarbindView>, DecodeFault>(
            types::varbind_views(pdu.varbinds@),
        ),
{
    let varbinds = types::varbind_views(pdu.varbinds@);
    let code = pdu.error_status.spec_code();
    let index = pdu.error_index as i32;
    let contents = varbind::concat(varbind::varbind_tlvs(varbinds));
    ber_pdu::law_pdu_round_trip(TAG_RESPONSE, pdu.request_id@, code, index, contents);
    decode::lemma_list_in_pdu(
        TAG_RESPONSE,
        pdu.request_id@,
        code,
        index,
        varbind::varbind_list_tlv(varbinds),
    );
    decode::law_varbinds_round_trip(varbinds);
}

/// A trap or a report is read back as what it was encoded from, with an error status and
/// an error index of zero.
pub proof fn law_notification_round_trip(tag: u8, request_id: i32, varbinds: Seq<VarbindView>)
    requires
        tag == TAG_TRAP || tag == TAG_REPORT,
        forall|i: int| 0 <= i < varbinds.len() ==> varbind::wire_varbind(#[trigger] varbinds[i]),
        notification_tlv(tag, request_id, varbinds).len() <= usize::MAX,
    ensures
        ber_pdu::pdu_outcome(notification_tlv(tag, request_id, varbinds)) == Ok::<
            DecodedPduView,
            BerFault,
        >(
            DecodedPduView::Standard {
                tag,
                request_id,
                error_status: 0,
                error_index: 0,
                raw_varbind_list: varbind::varbind_list_tlv(varbinds),
            },
        ),
        decode::varbinds_outcome(varbind::varbind_list_tlv(varbinds)) == Ok::<
            Seq<VarbindView>,
            DecodeFault,
        >(varbinds),
{
    let contents = varbind::concat(varbind::varbind_tlvs(varbinds));
    ber_pdu::law_pdu_round_trip(tag, request_id, 0, 0, contents);
    decode::lemma_list_in_pdu(tag, request_id, 0, 0, varbind::varbind_list_tlv(varbinds));
    decode::law_varbinds_round_trip(varbinds);
}

/// What this module encodes is never taken for a request.
pub proof fn law_never_a_request(pdu: GetResponse, trap: WireTrapPdu, prefix: Seq<char>)
    requires
        pdu.error_index <= i32::MAX,
        response_tlv(pdu).len() <= usize::MAX,
        trap_tlv(trap).len() <= usize::MAX,
    ensures
        decode::inbound_pdu_outcome(response_tlv(pdu), prefix) matches Err(fault) && fault.kind
            == DecodeErrorKind::UnsupportedPduType,
        decode::inbound_pdu_outcome(trap_tlv(trap), prefix) matches Err(fault) && fault.kind
            == DecodeErrorKind::UnsupportedPduType,
{
    ber_pdu::law_pdu_round_trip(
        TAG_RESPONSE,
        pdu.request_id@,
        pdu.error_status.spec_code(),
        pdu.error_index as i32,
        varbind::concat(varbind::varbind_tlvs(types::varbind_views(pdu.varbinds@))),
    );
    ber_pdu::law_pdu_round_trip(
        TAG_TRAP,
        trap.request_id@,
        0,
        0,
        varbind::concat(varbind::varbind_tlvs(types::varbind_views(trap.varbinds@))),
    );
    decode::law_outbound_refused(response_tlv(pdu), prefix);
    decode::law_outbound_refused(trap_tlv(trap), prefix);
}

/// A message in the clear is read back with the fields that it was made for, with the
/// authentication code that was written into it and where it was written, and around the
/// same PDU.
pub proof fn law_message_round_trip(
    outbound: OutboundView,
    auth: Option<AuthProtocol>,
    mac: Seq<u8>,
    pdu: Seq<u8>,
)
    requires
        outbound.msg_id >= 0,
        envelope_fault(outbound.engine_boots, outbound.engine_time, auth is Some, false) is None,
        outbound.message(auth, None, pdu).signed(mac).bytes().len() <= usize::MAX,
    ensures
        ber_snmp::envelope_outcome(
            outbound.message(auth, None, pdu).signed(mac).bytes(),
        ) matches Ok(envelope) && envelope.header == outbound.message(auth, None, pdu).header
            && envelope.usm == outbound.message(auth, None, pdu).signed(mac).usm
            && envelope.usm.engine_boots == outbound.engine_boots && envelope.usm.engine_time
            == outbound.engine_time && envelope.scoped_data == (ScopedView::Plaintext {
            context_engine_id: outbound.engine_id,
            context_name: outbound.context_name,
            raw_pdu: pdu,
        }) && envelope.auth_params_offset == outbound.message(auth, None, pdu).signed(
            mac,
        ).mac_place(),
{
    let message = outbound.message(auth, None, pdu).signed(mac);
    let scoped = ScopedView::Plaintext {
        context_engine_id: outbound.engine_id,
        context_name: outbound.context_name,
        raw_pdu: pdu,
    };
    ber_snmp::law_envelope_round_trip(message.header, message.usm, scoped);
}

/// An encrypted message is read back with the fields that it was made for, with the
/// authentication code where it was written, and with its ciphertext and its salt.
/// The plaintext that was encrypted is read back as the same PDU in the same context.
pub proof fn law_encrypted_round_trip(
    outbound: OutboundView,
    auth: Option<AuthProtocol>,
    salt: Seq<u8>,
    mac: Seq<u8>,
    ciphertext: Seq<u8>,
    pdu: Seq<u8>,
)
    requires
        outbound.msg_id >= 0,
        envelope_fault(outbound.engine_boots, outbound.engine_time, auth is Some, true) is None,
        outbound.message(auth, Some(salt), pdu).with_ciphertext(ciphertext).signed(
            mac,
        ).bytes().len() <= usize::MAX,
        outbound.scoped_pdu(pdu).len() <= usize::MAX,
    ensures
        ber_snmp::envelope_outcome(
            outbound.message(auth, Some(salt), pdu).with_ciphertext(ciphertext).signed(mac).bytes(),
        ) matches Ok(envelope) && envelope.header == outbound.message(auth, Some(salt), pdu).header
            && envelope.usm == outbound.message(auth, Some(salt), pdu).signed(mac).usm
            && envelope.usm.priv_params == salt && envelope.scoped_data == ScopedView::Encrypted(
            ciphertext,
        ) && envelope.auth_params_offset == outbound.message(auth, Some(salt), pdu).with_ciphertext(
            ciphertext,
        ).signed(mac).mac_place(),
        ber_snmp::scoped_pdu_outcome(outbound.message(auth, Some(salt), pdu).scoped) == Ok::<
            (Seq<u8>, Seq<u8>, Seq<u8>),
            BerFault,
        >((outbound.engine_id, outbound.context_name, pdu)),
{
    let message = outbound.message(auth, Some(salt), pdu).with_ciphertext(ciphertext).signed(mac);
    ber_snmp::law_envelope_round_trip(
        message.header,
        message.usm,
        ScopedView::Encrypted(ciphertext),
    );
    ber_snmp::law_scoped_pdu_round_trip(outbound.engine_id, outbound.context_name, pdu);
}

/// A message is refused exactly when an engine counter does not fit in an INTEGER, or when
/// privacy is asked for without authentication. Otherwise one without authentication is
/// complete, one with authentication waits to be signed, and one with privacy waits to be
/// encrypted first.
pub proof fn law_security_levels(
    outbound: OutboundView,
    auth: Option<AuthProtocol>,
    salt: Option<Seq<u8>>,
    pdu: Seq<u8>,
)
    ensures
        envelope_outcome(outbound, auth, salt, pdu) is Err <==> outbound.engine_boots > 0x7fff_ffff
            || outbound.engine_time > 0x7fff_ffff || (salt is Some && auth is None),
        envelope_outcome(outbound, auth, salt, pdu) matches Ok(V3EncodingView::Complete(_))
            ==> auth is None && salt is None,
        envelope_outcome(outbound, auth, salt, pdu) matches Ok(V3EncodingView::Sign(_))
            ==> auth is Some && salt is None,
        envelope_outcome(outbound, auth, salt, pdu) matches Ok(V3EncodingView::Encrypt { .. })
            ==> auth is Some && salt is Some,
{
}

/// Whether `bytes` are read back as a message of the security level `flags` that carries
/// the fields of `outbound`, each under its own name, the authentication code `mac` and the
/// privacy parameters `priv_params`.
pub open spec fn reads_as(
    bytes: Seq<u8>,
    outbound: OutboundView,
    flags: u8,
    mac: Seq<u8>,
    priv_params: Seq<u8>,
) -> bool {
    ber_snmp::envelope_outcome(bytes) matches Ok(envelope) && {
        &&& envelope.header.msg_id == outbound.msg_id
        &&& envelope.header.max_size == 65535
        &&& envelope.header.security_flags == flags
        &&& envelope.header.security_model == 3
        &&& envelope.usm.engine_id == outbound.engine_id
        &&& envelope.usm.engine_boots == outbound.engine_boots
        &&& envelope.usm.engine_time == outbound.engine_time
        &&& envelope.usm.user_name == outbound.user_name
        &&& envelope.usm.auth_params == mac
        &&& envelope.usm.priv_params == priv_params
        &&& match envelope.auth_params_offset {
            None => mac.len() == 0,
            Some(start) => mac.len() > 0 && start + mac.len() <= bytes.len() && bytes.subrange(
                start as int,
                start + mac.len(),
            ) == mac,
        }
    }
}

/// Whether `bytes` are read back as a message in the clear around `pdu`, in the context of
/// `outbound`.
pub open spec fn reads_around(bytes: Seq<u8>, outbound: OutboundView, pdu: Seq<u8>) -> bool {
    ber_snmp::envelope_outcome(bytes) matches Ok(envelope) && envelope.scoped_data matches
        ScopedView::Plaintext { context_engine_id, context_name, raw_pdu } && context_engine_id
        == outbound.engine_id && context_name == outbound.context_name && raw_pdu == pdu
}

/// A message without security is read back with the engine ID, engine boots, engine time,
/// user name, context and PDU that it was encoded with, without a code or a salt.
pub proof fn law_plain_message(outbound: OutboundView, pdu: Seq<u8>)
    requires
        outbound.msg_id >= 0,
        outbound.engine_boots <= 0x7fff_ffff,
        outbound.engine_time <= 0x7fff_ffff,
    ensures
        envelope_outcome(outbound, None, None, pdu) matches Ok(V3EncodingView::Complete(bytes)) && (
        bytes.len() <= usize::MAX ==> reads_as(bytes, outbound, 0, Seq::empty(), Seq::empty())
            && reads_around(bytes, outbound, pdu)),
{
    let message = outbound.message(None, None, pdu);
    assert(message.signed(Seq::empty()) == message);
    if message.bytes().len() <= usize::MAX {
        law_message_round_trip(outbound, None, Seq::empty(), pdu);
    }
}

/// A message to be signed has a placeholder of zeros as long as the code of the protocol.
/// Signed with any code of that length it is read back with the engine ID, engine boots,
/// engine time, user name, context and PDU that it was encoded with, with the code where
/// the placeholder was, and without a salt.
pub proof fn law_signed_message(
    outbound: OutboundView,
    protocol: AuthProtocol,
    mac: Seq<u8>,
    pdu: Seq<u8>,
)
    requires
        outbound.msg_id >= 0,
        outbound.engine_boots <= 0x7fff_ffff,
        outbound.engine_time <= 0x7fff_ffff,
        mac.len() == (if protocol is HmacSha256 {
            24nat
        } else {
            48nat
        }),
    ensures
        envelope_outcome(outbound, Some(protocol), None, pdu) matches Ok(
            V3EncodingView::Sign(message),
        ) && message.usm.auth_params.len() == mac.len() && (forall|i: int|
            0 <= i < mac.len() ==> #[trigger] message.usm.auth_params[i] == 0) && (
        message.signed(mac).bytes().len() <= usize::MAX ==> reads_as(
            message.signed(mac).bytes(),
            outbound,
            1,
            mac,
            Seq::empty(),
        ) && reads_around(message.signed(mac).bytes(), outbound, pdu)),
{
    let message = outbound.message(Some(protocol), None, pdu).signed(mac);
    if message.bytes().len() <= usize::MAX {
        law_message_round_trip(outbound, Some(protocol), mac, pdu);
        ber_snmp::law_auth_start(message.header, message.usm, message.scoped, message.encrypted);
    }
}

/// A message to be encrypted asks for the encryption of a scoped PDU that is read back as
/// the context and the PDU that it was encoded with. Encrypted and signed it is read back
/// with the engine ID, engine boots, engine time and user name that it was encoded with,
/// with the code and the ciphertext, and with the salt as its privacy parameters. The
/// initialisation vector is the big-endian engine boots and engine time that the message
/// itself carries, followed by its privacy parameters.
pub proof fn law_encrypted_message(
    outbound: OutboundView,
    protocol: AuthProtocol,
    salt: Seq<u8>,
    mac: Seq<u8>,
    ciphertext: Seq<u8>,
    pdu: Seq<u8>,
)
    requires
        outbound.msg_id >= 0,
        outbound.engine_boots <= 0x7fff_ffff,
        outbound.engine_time <= 0x7fff_ffff,
        mac.len() == (if protocol is HmacSha256 {
            24nat
        } else {
            48nat
        }),
    ensures
        envelope_outcome(outbound, Some(protocol), Some(salt), pdu) matches Ok(
            V3EncodingView::Encrypt { iv, message },
        ) && (message.scoped.len() <= usize::MAX ==> ber_snmp::scoped_pdu_outcome(message.scoped)
            == Ok::<(Seq<u8>, Seq<u8>, Seq<u8>), BerFault>(
            (outbound.engine_id, outbound.context_name, pdu),
        )) && message.usm.auth_params.len() == mac.len() && (forall|i: int|
            0 <= i < mac.len() ==> #[trigger] message.usm.auth_params[i] == 0),
        envelope_outcome(outbound, Some(protocol), Some(salt), pdu) matches Ok(
            V3EncodingView::Encrypt { iv, message },
        ) && ({
            let bytes = message.with_ciphertext(ciphertext).signed(mac).bytes();
            bytes.len() <= usize::MAX ==> {
                &&& reads_as(bytes, outbound, 3, mac, salt)
                &&& ber_snmp::envelope_outcome(bytes) matches Ok(envelope)
                &&& envelope.scoped_data == ScopedView::Encrypted(ciphertext)
                &&& iv.len() == 8 + envelope.usm.priv_params.len()
                &&& integer::be_value(iv.subrange(0, 4)) == envelope.usm.engine_boots
                &&& integer::be_value(iv.subrange(4, 8)) == envelope.usm.engine_time
                &&& iv.skip(8) == envelope.usm.priv_params
            }
        }),
{
    let auth = Some(protocol);
    let clear = outbound.message(auth, Some(salt), pdu);
    let message = clear.with_ciphertext(ciphertext).signed(mac);
    let iv = privacy_iv(outbound.engine_boots, outbound.engine_time, salt);
    if clear.scoped.len() <= usize::MAX {
        ber_snmp::law_scoped_pdu_round_trip(outbound.engine_id, outbound.context_name, pdu);
    }
    if message.bytes().len() <= usize::MAX {
        ber_snmp::law_envelope_round_trip(
            message.header,
            message.usm,
            ScopedView::Encrypted(ciphertext),
        );
        ber_snmp::law_auth_start(message.header, message.usm, message.scoped, message.encrypted);
        lemma_word_value(outbound.engine_boots);
        lemma_word_value(outbound.engine_time);
        assert(iv.subrange(0, 4) =~= word_bytes(outbound.engine_boots));
        assert(iv.subrange(4, 8) =~= word_bytes(outbound.engine_time));
        assert(iv.skip(8) =~= salt);
    }
}

/// A response is refused exactly when its error index does not fit in an INTEGER or the
/// message around it is refused, and is otherwise sent in the message around its bytes.
pub proof fn law_response_message(
    outbound: OutboundView,
    auth: Option<AuthProtocol>,
    salt: Option<Seq<u8>>,
    pdu: GetResponse,
)
    ensures
        response_outcome(outbound, auth, salt, pdu) is Err <==> pdu.error_index > 0x7fff_ffff
            || outbound.engine_boots > 0x7fff_ffff || outbound.engine_time > 0x7fff_ffff || (
        salt is Some && auth is None),
        pdu.error_index <= 0x7fff_ffff ==> response_outcome(outbound, auth, salt, pdu)
            == envelope_outcome(outbound, auth, salt, response_tlv(pdu)),
{
}

/// A trap is read back as a trap PDU with the request identifier and the varbinds that it
/// was encoded from.
pub proof fn law_trap_round_trip(trap: WireTrapPdu)
    requires
        forall|i: int|
            0 <= i < trap.varbinds@.len() ==> varbind::wire_varbind(
                #[trigger] types::varbind_views(trap.varbinds@)[i],
            ),
        trap_tlv(trap).len() <= usize::MAX,
    ensures
        ber_pdu::pdu_outcome(trap_tlv(trap)) matches Ok(
            DecodedPduView::Standard { tag, request_id, error_status, error_index, raw_varbind_list },
        ) && tag == 0xa7 && request_id == trap.request_id@ && error_status == 0 && error_index == 0
            && decode::varbinds_outcome(raw_varbind_list) == Ok::<Seq<VarbindView>, DecodeFault>(
            types::varbind_views(trap.varbinds@),
        ),
{
    law_notification_round_trip(
        TAG_TRAP,
        trap.request_id@,
        types::varbind_views(trap.varbinds@),
    );
}

/// A report echoes the message identifier as its request identifier, and carries the one
/// counter that it was made for.
pub proof fn law_report_round_trip(outbound: OutboundView, counter_oid: Seq<u32>, counter_value: u32)
    requires
        outbound.msg_id >= 0,
        envelope_fault(outbound.engine_boots, outbound.engine_time, false, false) is None,
        varbind::wire_varbind(report_varbind(counter_oid, counter_value)),
        outbound.message(
            None,
            None,
            report_tlv(outbound.msg_id, counter_oid, counter_value),
        ).bytes().len() <= usize::MAX,
    ensures
        ({
            let pdu = report_tlv(outbound.msg_id, counter_oid, counter_value);
            &&& ber_snmp::envelope_outcome(
                outbound.message(None, None, pdu).bytes(),
            ) matches Ok(envelope) && envelope.scoped_data == (ScopedView::Plaintext {
                context_engine_id: outbound.engine_id,
                context_name: outbound.context_name,
                raw_pdu: pdu,
            }) && envelope.header.security_flags == 0 && envelope.usm.auth_params.len() == 0
            &&& ber_pdu::pdu_outcome(pdu) matches Ok(
                DecodedPduView::Standard { tag, request_id, raw_varbind_list, .. },
            ) && tag == TAG_REPORT && request_id == outbound.msg_id && decode::varbinds_outcome(
                raw_varbind_list,
            ) == Ok::<Seq<VarbindView>, DecodeFault>(
                seq![report_varbind(counter_oid, counter_value)],
            )
        }),
{
    let varbinds = seq![report_varbind(counter_oid, counter_value)];
    let pdu = report_tlv(outbound.msg_id, counter_oid, counter_value);
    let message = outbound.message(None, None, pdu);
    assert(message.signed(Seq::empty()) == message);
    law_message_round_trip(outbound, None, Seq::empty(), pdu);
    ber_snmp::lemma_scoped_in_message(
        message.header,
        message.usm,
        ScopedView::Plaintext {
            context_engine_id: outbound.engine_id,
            context_name: outbound.context_name,
            raw_pdu: pdu,
        },
    );
    law_notification_round_trip(TAG_REPORT, outbound.msg_id, varbinds);
}

/// A step in encoding agrees with what is prescribed only if it is the same step on the same
/// message, and a refusal only if it gives the prescribed reason.
pub proof fn law_encoding_steps(
    result: Result<V3Encoding, EncodeError>,
    outcome: Result<V3EncodingView, Seq<char>>,
)
    requires
        encoding_agrees(result, outcome),
    ensures
        match result {
            Ok(V3Encoding::Complete(bytes)) => outcome == Ok::<V3EncodingView, Seq<char>>(
                V3EncodingView::Complete(bytes@),
            ),
            Ok(V3Encoding::Sign(pending)) => outcome == Ok::<V3EncodingView, Seq<char>>(
                V3EncodingView::Sign(pending@),
            ),
            Ok(V3Encoding::Encrypt(pending)) => outcome matches Ok(
                V3EncodingView::Encrypt { iv, message },
            ) && iv == pending.spec_iv() && message == pending@,
            Err(error) => outcome == Err::<V3EncodingView, Seq<char>>(error.message@),
        },
{
}

/// Whether a step in encoding leads to a message that is read back with the fields of
/// `outbound`, each under its own name, around the PDU `pdu`.
///
/// A complete message carries neither a code nor a salt. One to be signed has room for a code
/// of `mac.len()` bytes, and carries the code once it is signed. One to be encrypted gives
/// out the scoped PDU around `pdu` as its plaintext and the engine boots, the engine time and
/// the salt as its initialisation vector, and carries the ciphertext, the code and the salt
/// once it is encrypted and signed.
pub open spec fn step_reads(
    step: V3Encoding,
    outbound: OutboundView,
    salt: Option<[u8; 8]>,
    pdu: Seq<u8>,
    mac: Seq<u8>,
    ciphertext: Seq<u8>,
) -> bool {
    match step {
        V3Encoding::Complete(bytes) => reads_as(
            bytes@,
            outbound,
            0,
            Seq::empty(),
            Seq::empty(),
        ) && reads_around(bytes@, outbound, pdu),
        V3Encoding::Sign(pending) => {
            let bytes = pending@.signed(mac).bytes();
            mac.len() == pending@.usm.auth_params.len() && bytes.len() <= usize::MAX ==> reads_as(
                bytes,
                outbound,
                1,
                mac,
                Seq::empty(),
            ) && reads_around(bytes, outbound, pdu)
        },
        V3Encoding::Encrypt(pending) => {
            let bytes = pending@.with_ciphertext(ciphertext).signed(mac).bytes();
            let iv = pending.spec_iv();
            &&& salt matches Some(salt_bytes)
            &&& iv.len() == 16
            &&& integer::be_value(iv.subrange(0, 4)) == outbound.engine_boots
            &&& integer::be_value(iv.subrange(4, 8)) == outbound.engine_time
            &&& iv.skip(8) == salt_bytes@
            &&& pending@.scoped.len() <= usize::MAX ==> ber_snmp::scoped_pdu_outcome(
                pending@.scoped,
            ) == Ok::<(Seq<u8>, Seq<u8>, Seq<u8>), BerFault>(
                (outbound.engine_id, outbound.context_name, pdu),
            )
            &&& mac.len() == pending@.usm.auth_params.len() && bytes.len() <= usize::MAX
                ==> reads_as(bytes, outbound, 3, mac, salt_bytes@)
                && ber_snmp::envelope_outcome(bytes)->Ok_0.scoped_data == ScopedView::Encrypted(
                ciphertext,
            )
        },
    }
}

proof fn lemma_step_reads(
    step: V3Encoding,
    outbound: OutboundView,
    auth: Option<AuthProtocol>,
    salt: Option<[u8; 8]>,
    pdu: Seq<u8>,
    mac: Seq<u8>,
    ciphertext: Seq<u8>,
)
    requires
        outbound.msg_id >= 0,
        envelope_outcome(outbound, auth, salt_view(salt), pdu) == Ok::<V3EncodingView, Seq<char>>(
            step@,
        ),
    ensures
        step_reads(step, outbound, salt, pdu, mac, ciphertext),
{
    match (auth, salt) {
        (None, _) => {
            law_plain_message(outbound, pdu);
            if let V3Encoding::Complete(bytes) = step {
                assert(bytes.len() <= usize::MAX);
            }
        },
        (Some(protocol), None) => {
            if mac.len() == protocol.spec_mac_len() {
                law_signed_message(outbound, protocol, mac, pdu);
            }
        },
        (Some(protocol), Some(bytes)) => {
            let iv = privacy_iv(outbound.engine_boots, outbound.engine_time, bytes@);
            lemma_word_value(outbound.engine_boots);
            lemma_word_value(outbound.engine_time);
            assert(iv.subrange(0, 4) =~= word_bytes(outbound.engine_boots));
            assert(iv.subrange(4, 8) =~= word_bytes(outbound.engine_time));
            assert(iv.skip(8) =~= bytes@);
            law_encrypted_message(
                outbound,
                protocol,
                bytes@,
                zeros(protocol.spec_mac_len()),
                ciphertext,
                pdu,
            );
            if mac.len() == protocol.spec_mac_len() {
                law_encrypted_message(outbound, protocol, bytes@, mac, ciphertext, pdu);
            }
        },
    }
}

/// What [`encode_v3_envelope`] returns leads to a message that is read back with the very
/// arguments of the call. It refuses exactly when an engine counter does not fit in an
/// INTEGER or privacy is asked for without authentication.
pub proof fn law_encode_v3_envelope(
    msg_id: i32,
    engine_id: &[u8],
    user_name: &[u8],
    context_name: &[u8],
    engine_boots: u32,
    engine_time: u32,
    auth: Option<AuthProtocol>,
    salt: Option<[u8; 8]>,
    raw_pdu_bytes: &[u8],
    result: Result<V3Encoding, EncodeError>,
    mac: Seq<u8>,
    ciphertext: Seq<u8>,
)
    requires
        call_ensures(
            encode_v3_envelope,
            (
                msg_id,
                engine_id,
                user_name,
                context_name,
                engine_boots,
                engine_time,
                auth,
                salt,
                raw_pdu_bytes,
            ),
            result,
        ),
    ensures
        result is Err <==> engine_boots > 0x7fff_ffff || engine_time > 0x7fff_ffff || (
        salt is Some && auth is None),
        result matches Ok(step) ==> (msg_id >= 0 ==> step_reads(
            step,
            OutboundView {
                msg_id,
                engine_id: engine_id@,
                user_name: user_name@,
                context_name: context_name@,
                engine_boots,
                engine_time,
            },
            salt,
            raw_pdu_bytes@,
            mac,
            ciphertext,
        )),
        result matches Ok(step) ==> {
            &&& step is Complete <==> auth is None
            &&& step is Sign <==> auth is Some && salt is None
            &&& step is Encrypt <==> salt is Some
        },
{
    let outbound = OutboundView {
        msg_id,
        engine_id: engine_id@,
        user_name: user_name@,
        context_name: context_name@,
        engine_boots,
        engine_time,
    };
    if result is Ok && msg_id >= 0 {
        lemma_step_reads(result->Ok_0, outbound, auth, salt, raw_pdu_bytes@, mac, ciphertext);
    }
}

/// Whether every varbind can be read back.
pub open spec fn wire_varbinds(varbinds: Seq<Varbind>) -> bool {
    forall|i: int|
        0 <= i < varbinds.len() ==> varbind::wire_varbind(
            #[trigger] types::varbind_views(varbinds)[i],
        )
}

/// Whether `bytes` are read back as the response `pdu`, each field under its own name.
pub open spec fn holds_response(bytes: Seq<u8>, pdu: GetResponse) -> bool {
    ber_pdu::pdu_outcome(bytes) matches Ok(
        DecodedPduView::Standard { tag, request_id, error_status, error_index, raw_varbind_list },
    ) && tag == 0xa2 && request_id == pdu.request_id@ && error_status
        == pdu.error_status.spec_code() && error_index == pdu.error_index
        && decode::varbinds_outcome(raw_varbind_list) == Ok::<Seq<VarbindView>, DecodeFault>(
        types::varbind_views(pdu.varbinds@),
    )
}

/// Whether `bytes` are read back as the trap `pdu`, without an error.
pub open spec fn holds_trap(bytes: Seq<u8>, pdu: WireTrapPdu) -> bool {
    ber_pdu::pdu_outcome(bytes) matches Ok(
        DecodedPduView::Standard { tag, request_id, error_status, error_index, raw_varbind_list },
    ) && tag == 0xa7 && request_id == pdu.request_id@ && error_status == 0 && error_index == 0
        && decode::varbinds_outcome(raw_varbind_list) == Ok::<Seq<VarbindView>, DecodeFault>(
        types::varbind_views(pdu.varbinds@),
    )
}

/// What [`encode_v3_response`] returns leads to a message that is read back with the very
/// arguments of the call, around a response that is read back as the one given. It refuses
/// exactly when the error index or an engine counter does not fit in an INTEGER, or privacy
/// is asked for without authentication.
pub proof fn law_encode_v3_response(
    msg_id: i32,
    engine_id: &[u8],
    user_name: &[u8],
    context_name: &[u8],
    engine_boots: u32,
    engine_time: u32,
    auth: Option<AuthProtocol>,
    salt: Option<[u8; 8]>,
    pdu: &GetResponse,
    result: Result<V3Encoding, EncodeError>,
    mac: Seq<u8>,
    ciphertext: Seq<u8>,
)
    requires
        call_ensures(
            encode_v3_response,
            (
                msg_id,
                engine_id,
                user_name,
                context_name,
                engine_boots,
                engine_time,
                auth,
                salt,
                pdu,
            ),
            result,
        ),
    ensures
        result is Err <==> pdu.error_index > 0x7fff_ffff || engine_boots > 0x7fff_ffff
            || engine_time > 0x7fff_ffff || (salt is Some && auth is None),
        result matches Ok(step) ==> (msg_id >= 0 ==> step_reads(
            step,
            OutboundView {
                msg_id,
                engine_id: engine_id@,
                user_name: user_name@,
                context_name: context_name@,
                engine_boots,
                engine_time,
            },
            salt,
            response_tlv(*pdu),
            mac,
            ciphertext,
        )),
        result matches Ok(step) ==> {
            &&& step is Complete <==> auth is None
            &&& step is Sign <==> auth is Some && salt is None
            &&& step is Encrypt <==> salt is Some
        },
        result is Ok && wire_varbinds(pdu.varbinds@) && response_tlv(*pdu).len() <= usize::MAX
            ==> holds_response(response_tlv(*pdu), *pdu),
{
    let outbound = OutboundView {
        msg_id,
        engine_id: engine_id@,
        user_name: user_name@,
        context_name: context_name@,
        engine_boots,
        engine_time,
    };
    if result is Ok && msg_id >= 0 {
        lemma_step_reads(result->Ok_0, outbound, auth, salt, response_tlv(*pdu), mac, ciphertext);
    }
    if result is Ok && wire_varbinds(pdu.varbinds@) && response_tlv(*pdu).len() <= usize::MAX {
        law_response_round_trip(*pdu);
    }
}

/// What [`encode_v3_trap`] returns leads to a message that is read back with the very
/// arguments of the call, around a trap that is read back as the one given. It refuses
/// exactly when an engine counter does not fit in an INTEGER or privacy is asked for without
/// authentication.
pub proof fn law_encode_v3_trap(
    msg_id: i32,
    engine_id: &[u8],
    user_name: &[u8],
    context_name: &[u8],
    engine_boots: u32,
    engine_time: u32,
    auth: Option<AuthProtocol>,
    salt: Option<[u8; 8]>,
    pdu: &WireTrapPdu,
    result: Result<V3Encoding, EncodeError>,
    mac: Seq<u8>,
    ciphertext: Seq<u8>,
)
    requires
        call_ensures(
            encode_v3_trap,
            (
                msg_id,
                engine_id,
                user_name,
                context_name,
                engine_boots,
                engine_time,
                auth,
                salt,
                pdu,
            ),
            result,
        ),
    ensures
        result is Err <==> engine_boots > 0x7fff_ffff || engine_time > 0x7fff_ffff || (
        salt is Some && auth is None),
        result matches Ok(step) ==> (msg_id >= 0 ==> step_reads(
            step,
            OutboundView {
                msg_id,
                engine_id: engine_id@,
                user_name: user_name@,
                context_name: context_name@,
                engine_boots,
                engine_time,
            },
            salt,
            trap_tlv(*pdu),
            mac,
            ciphertext,
        )),
        result matches Ok(step) ==> {
            &&& step is Complete <==> auth is None
            &&& step is Sign <==> auth is Some && salt is None
            &&& step is Encrypt <==> salt is Some
        },
        result is Ok && wire_varbinds(pdu.varbinds@) && trap_tlv(*pdu).len() <= usize::MAX
            ==> holds_trap(trap_tlv(*pdu), *pdu),
{
    let outbound = OutboundView {
        msg_id,
        engine_id: engine_id@,
        user_name: user_name@,
        context_name: context_name@,
        engine_boots,
        engine_time,
    };
    if result is Ok && msg_id >= 0 {
        lemma_step_reads(result->Ok_0, outbound, auth, salt, trap_tlv(*pdu), mac, ciphertext);
    }
    if result is Ok && wire_varbinds(pdu.varbinds@) && trap_tlv(*pdu).len() <= usize::MAX {
        law_trap_round_trip(*pdu);
    }
}

/// What [`encode_v3_report`] returns is read back as a message without security and without a
/// user or a context name, around a report with the message identifier as its request
/// identifier and the counter as its one varbind.
pub proof fn law_encode_v3_report(
    msg_id: i32,
    engine_id: &[u8],
    engine_boots: u32,
    engine_time: u32,
    counter_oid: &Oid,
    counter_value: u32,
    result: Result<Vec<u8>, EncodeError>,
)
    requires
        call_ensures(
            encode_v3_report,
            (msg_id, engine_id, engine_boots, engine_time, counter_oid, counter_value),
            result,
        ),
        crate::codec::oid::valid_arcs(counter_oid@),
        counter_oid@.len() <= 128,
        msg_id >= 0,
    ensures
        result is Err <==> engine_boots > 0x7fff_ffff || engine_time > 0x7fff_ffff,
        result matches Ok(bytes) ==> ({
            let outbound = OutboundView {
                msg_id,
                engine_id: engine_id@,
                user_name: Seq::empty(),
                context_name: Seq::empty(),
                engine_boots,
                engine_time,
            };
            &&& reads_as(bytes@, outbound, 0, Seq::empty(), Seq::empty())
            &&& ber_snmp::envelope_outcome(bytes@)->Ok_0.scoped_data matches
                ScopedView::Plaintext { context_engine_id, context_name, raw_pdu }
            &&& context_engine_id == engine_id@
            &&& context_name.len() == 0
            &&& ber_pdu::pdu_outcome(raw_pdu) matches Ok(
                DecodedPduView::Standard {
                    tag,
                    request_id,
                    error_status,
                    error_index,
                    raw_varbind_list,
                },
            )
            &&& tag == 0xa8
            &&& request_id == msg_id
            &&& error_status == 0
            &&& error_index == 0
            &&& decode::varbinds_outcome(raw_varbind_list) matches Ok(varbinds)
            &&& varbinds.len() == 1
            &&& varbinds[0].oid == counter_oid@
            &&& varbinds[0].value == VarbindValueView::Value(ValueView::Counter32(counter_value))
        }),
{
    let outbound = OutboundView {
        msg_id,
        engine_id: engine_id@,
        user_name: Seq::empty(),
        context_name: Seq::empty(),
        engine_boots,
        engine_time,
    };
    let pdu = report_tlv(msg_id, counter_oid@, counter_value);
    let varbinds = seq![report_varbind(counter_oid@, counter_value)];
    if let Ok(bytes) = result {
        assert(bytes.len() <= usize::MAX);
        law_plain_message(outbound, pdu);
        law_report_round_trip(outbound, counter_oid@, counter_value);
        let message = outbound.message(None, None, pdu);
        ber_snmp::lemma_scoped_in_message(
            message.header,
            message.usm,
            ScopedView::Plaintext {
                context_engine_id: outbound.engine_id,
                context_name: outbound.context_name,
                raw_pdu: pdu,
            },
        );
        law_notification_round_trip(TAG_REPORT, msg_id, varbinds);
    }
}

/// What [`encode_trap`] returns is read as version 1, an empty community string and a trap
/// PDU with the request identifier and the varbinds given. It never refuses.
pub proof fn law_encode_trap(pdu: &WireTrapPdu, result: Result<Vec<u8>, EncodeError>)
    requires
        call_ensures(encode_trap, (pdu,), result),
        wire_varbinds(pdu.varbinds@),
    ensures
        result matches Ok(bytes) && ({
            let whole = (Cursor { rest: bytes@, at: 0 }).sequence();
            &&& whole.used == bytes@.len()
            &&& whole.outcome matches Ok(inner)
            &&& inner.integer().outcome == Ok::<i32, BerFault>(1)
            &&& ({
                let after_version = inner.advance(inner.integer().used);
                let name = after_version.octets();
                let raw = after_version.advance(name.used).rest;
                &&& name.outcome matches Ok(community) && community.len() == 0
                &&& holds_trap(raw, *pdu)
            })
        }),
{
    let bytes = result->Ok_0;
    assert(bytes.len() <= usize::MAX);
    let raw = trap_tlv(*pdu);
    ber_snmp::law_v2c_message(Seq::empty(), raw);
    tlv::lemma_tlv_len(
        TAG_SEQUENCE,
        tlv::integer_tlv(ber_snmp::SNMPV2C_VERSION as int) + tlv::octets_tlv(Seq::empty()) + raw,
    );
    law_trap_round_trip(*pdu);
}

/// What [`encode_response`] returns is read back as a response with the request identifier,
/// the error and the varbinds given. It refuses exactly when the error index does not fit in
/// an INTEGER.
pub proof fn law_encode_response(pdu: &GetResponse, result: Result<Vec<u8>, EncodeError>)
    requires
        call_ensures(encode_response, (pdu,), result),
        wire_varbinds(pdu.varbinds@),
    ensures
        result is Err <==> pdu.error_index > 0x7fff_ffff,
        result matches Ok(bytes) ==> holds_response(bytes@, *pdu),
{
    if let Ok(bytes) = result {
        assert(bytes.len() <= usize::MAX);
        law_response_round_trip(*pdu);
    }
}

} // verus!
