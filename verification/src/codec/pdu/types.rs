//! The PDU types that an SNMP agent exchanges with a manager.

use std::sync::atomic::{AtomicI32, Ordering};
use vstd::prelude::*;
use vstd::std_specs::convert::{FromSpecImpl, TryFromSpecImpl};
use crate::codec::oid;
use crate::codec::oid::Oid;
use crate::codec::value::{Value, ValueView};
use crate::counter::draw;
use crate::text;
use crate::text::push_signed;
use crate::usm::{AuthenticationParams, PrivacySalt};

verus! {

// ----- RequestId ---------------------------------------------------------------

/// A PDU-level request identifier, carried in every inbound and outbound SNMP PDU.
///
/// The manager echoes the `request_id` from the inbound PDU in the corresponding
/// response PDU so it can correlate replies to outstanding requests (RFC 3416 §3).
/// Distinct from [`MessageId`], which identifies the `SNMPv3` message envelope.
#[derive(Copy, Clone, Debug, PartialEq, Eq, Hash, PartialOrd, Ord)]
pub struct RequestId(i32);

impl View for RequestId {
    type V = i32;

    closed spec fn view(&self) -> i32 {
        self.0
    }
}

impl RequestId {
    /// A zero-valued `RequestId`, for messages without an inbound request to echo.
    pub fn zero() -> (id: Self)
        ensures
            id@ == 0,
    {
        RequestId(0)
    }

    /// The decimal text of the identifier.
    pub fn to_string(&self) -> (out: String)
        ensures
            out@ == text::signed_decimal(self@ as int),
    {
        signed_text(self.0)
    }
}

fn signed_text(n: i32) -> (out: String)
    ensures
        out@ == text::signed_decimal(n as int),
{
    let mut out = String::new();
    push_signed(&mut out, n);
    proof {
        assert(out@ =~= text::signed_decimal(n as int));
    }
    out
}

impl FromSpecImpl<i32> for RequestId {
    open spec fn obeys_from_spec() -> bool {
        false
    }

    open spec fn from_spec(v: i32) -> Self {
        arbitrary()
    }
}

impl From<i32> for RequestId {
    fn from(value: i32) -> (id: Self)
        ensures
            id@ == value,
    {
        RequestId(value)
    }
}

impl FromSpecImpl<RequestId> for i32 {
    open spec fn obeys_from_spec() -> bool {
        true
    }

    open spec fn from_spec(v: RequestId) -> Self {
        v@
    }
}

impl From<RequestId> for i32 {
    fn from(id: RequestId) -> (value: Self) {
        id.0
    }
}

// ----- MessageId -----------------------------------------------------------------

/// An `SNMPv3` message-level identifier from `HeaderData.msgID` (RFC 3412 §6.2).
///
/// [`MessageId::next_sequential`] only produces non-negative identifiers. Values
/// obtained via `From<i32>` are unconstrained.
#[derive(Copy, Clone, Debug, PartialEq, Eq, Hash, PartialOrd, Ord)]
pub struct MessageId(i32);

impl View for MessageId {
    type V = i32;

    closed spec fn view(&self) -> i32 {
        self.0
    }
}

/// The identifier drawn from the counter value `raw`: its low 31 bits.
pub open spec fn sequential_id(raw: i32) -> i32 {
    if raw < 0 {
        (raw + 0x8000_0000) as i32
    } else {
        raw
    }
}

/// Consecutive counter values, wrapping around, give consecutive identifiers that run
/// from 0 to `i32::MAX` and then start over.
pub proof fn law_sequential_ids(raw: i32)
    ensures
        0 <= sequential_id(raw),
        sequential_id(raw.wrapping_add(1)) == (if sequential_id(raw) == i32::MAX {
            0
        } else {
            sequential_id(raw) + 1
        }),
{
}

impl MessageId {
    /// The identifier drawn from the counter value `raw`: the sign bit is cleared, so
    /// that it is never negative.
    pub fn from_counter(raw: i32) -> (id: Self)
        ensures
            id@ == sequential_id(raw),
    {
        if raw < 0 {
            MessageId(raw + i32::MAX + 1)
        } else {
            MessageId(raw)
        }
    }

    /// Atomically increments `counter` and returns the next `MessageId`.
    ///
    /// The identifier is [`sequential_id`] of the number that adding one to the counter
    /// gives back. Which number that is depends on the other users of the counter.
    #[must_use]
    pub fn next_sequential(counter: &AtomicI32) -> (id: Self)
        ensures
            exists|raw: i32| #[trigger]
                call_ensures(AtomicI32::fetch_add, (counter, 1i32, Ordering::Relaxed), raw)
                    && id@ == sequential_id(raw),
            id@ >= 0,
    {
        let raw: i32 = draw(AtomicI32::fetch_add, counter, 1i32);
        MessageId::from_counter(raw)
    }

    /// The decimal text of the identifier.
    pub fn to_string(&self) -> (out: String)
        ensures
            out@ == text::signed_decimal(self@ as int),
    {
        signed_text(self.0)
    }
}

impl FromSpecImpl<i32> for MessageId {
    open spec fn obeys_from_spec() -> bool {
        false
    }

    open spec fn from_spec(v: i32) -> Self {
        arbitrary()
    }
}

impl From<i32> for MessageId {
    fn from(value: i32) -> (id: Self)
        ensures
            id@ == value,
    {
        MessageId(value)
    }
}

impl FromSpecImpl<MessageId> for i32 {
    open spec fn obeys_from_spec() -> bool {
        true
    }

    open spec fn from_spec(v: MessageId) -> Self {
        v@
    }
}

impl From<MessageId> for i32 {
    fn from(id: MessageId) -> (value: Self) {
        id.0
    }
}

// ----- VarbindValue ----------------------------------------------------------------

/// The value carried by a single varbind, which may be a concrete `SMIv2` value, an
/// inbound Null placeholder, or one of the three exception sentinels defined in
/// RFC 3416.
#[derive(Debug, PartialEq, Eq)]
pub enum VarbindValue {
    /// A concrete `SMIv2` value.
    Value(Value),
    /// Null placeholder used in inbound Get/GetNext/GetBulk varbinds to indicate "no
    /// value provided yet"; distinct from the `NoSuchObject` response exception.
    Unspecified,
    /// The requested object does not exist in the MIB (response exception).
    NoSuchObject,
    /// The requested object instance does not exist (response exception).
    NoSuchInstance,
    /// GETNEXT/GETBULK has walked past the end of the MIB view (response exception).
    EndOfMibView,
}

/// A [`VarbindValue`] as a mathematical value.
pub enum VarbindValueView {
    /// A concrete value.
    Value(ValueView),
    /// The Null placeholder.
    Unspecified,
    /// `noSuchObject`.
    NoSuchObject,
    /// `noSuchInstance`.
    NoSuchInstance,
    /// `endOfMibView`.
    EndOfMibView,
}

impl VarbindValueView {
    /// Whether a value with this view can exist.
    pub open spec fn well_formed(self) -> bool {
        self matches VarbindValueView::Value(value) ==> value.well_formed()
    }
}

impl View for VarbindValue {
    type V = VarbindValueView;

    open spec fn view(&self) -> VarbindValueView {
        match self {
            VarbindValue::Value(value) => VarbindValueView::Value(value@),
            VarbindValue::Unspecified => VarbindValueView::Unspecified,
            VarbindValue::NoSuchObject => VarbindValueView::NoSuchObject,
            VarbindValue::NoSuchInstance => VarbindValueView::NoSuchInstance,
            VarbindValue::EndOfMibView => VarbindValueView::EndOfMibView,
        }
    }
}

impl Clone for VarbindValue {
    fn clone(&self) -> (copy: Self)
        ensures
            copy@ == self@,
    {
        match self {
            VarbindValue::Value(value) => VarbindValue::Value(value.clone()),
            VarbindValue::Unspecified => VarbindValue::Unspecified,
            VarbindValue::NoSuchObject => VarbindValue::NoSuchObject,
            VarbindValue::NoSuchInstance => VarbindValue::NoSuchInstance,
            VarbindValue::EndOfMibView => VarbindValue::EndOfMibView,
        }
    }
}

// ----- Varbind ---------------------------------------------------------------------

/// A single variable binding (OID + value/exception) in an SNMP PDU.
#[derive(Debug, PartialEq, Eq)]
pub struct Varbind {
    /// The object identifier being bound.
    pub oid: Oid,
    /// The value or exception associated with the OID.
    pub value: VarbindValue,
}

/// A [`Varbind`] as a mathematical value.
pub struct VarbindView {
    /// The arcs of the object identifier being bound.
    pub oid: Seq<u32>,
    /// The value or exception.
    pub value: VarbindValueView,
}

impl VarbindView {
    /// Whether a varbind with this view can exist.
    pub open spec fn well_formed(self) -> bool {
        oid::valid_arcs(self.oid) && self.value.well_formed()
    }
}

impl View for Varbind {
    type V = VarbindView;

    open spec fn view(&self) -> VarbindView {
        VarbindView { oid: self.oid@, value: self.value@ }
    }
}

impl Clone for Varbind {
    fn clone(&self) -> (copy: Self)
        ensures
            copy@ == self@,
    {
        Varbind { oid: self.oid.clone(), value: self.value.clone() }
    }
}

/// The views of a sequence of varbinds.
pub open spec fn varbind_views(varbinds: Seq<Varbind>) -> Seq<VarbindView> {
    Seq::new(varbinds.len(), |i: int| varbinds[i]@)
}

// ----- ErrorStatus -----------------------------------------------------------------

/// SNMP error-status codes as defined in RFC 3416 §3, in the order of their codes.
#[derive(Copy, Clone, Debug, PartialEq, Eq, Hash, Structural)]
pub enum ErrorStatus {
    /// No error occurred.
    NoError,
    /// The response PDU would have been too large.
    TooBig,
    /// No such variable name in this MIB view (`SNMPv1` compat).
    NoSuchName,
    /// The value supplied in a set request is of the wrong type or length.
    BadValue,
    /// A variable is read-only (`SNMPv1` compat).
    ReadOnly,
    /// A general error unrelated to the other categories.
    GenErr,
    /// Access to the requested variable is not allowed.
    NoAccess,
    /// The variable binding value has the wrong ASN.1 type.
    WrongType,
    /// The variable binding value has the wrong length.
    WrongLength,
    /// The variable binding value is incorrectly encoded.
    WrongEncoding,
    /// The variable binding value is not consistent with the variable's definition.
    WrongValue,
    /// The specified variable does not exist and cannot be created.
    NoCreation,
    /// The variable binding is inconsistent with the current state.
    InconsistentValue,
    /// Required resources are unavailable.
    ResourceUnavailable,
    /// A prior commitment could not be undone.
    CommitFailed,
    /// Undo was not possible.
    UndoFailed,
    /// Access was denied for other reasons.
    AuthorizationError,
    /// The variable binding cannot be written.
    NotWritable,
    /// The OID in the variable binding is inconsistent with the current state.
    InconsistentName,
}

impl ErrorStatus {
    /// The code of the status on the wire.
    pub open spec fn spec_code(self) -> i32 {
        match self {
            ErrorStatus::NoError => 0,
            ErrorStatus::TooBig => 1,
            ErrorStatus::NoSuchName => 2,
            ErrorStatus::BadValue => 3,
            ErrorStatus::ReadOnly => 4,
            ErrorStatus::GenErr => 5,
            ErrorStatus::NoAccess => 6,
            ErrorStatus::WrongType => 7,
            ErrorStatus::WrongLength => 8,
            ErrorStatus::WrongEncoding => 9,
            ErrorStatus::WrongValue => 10,
            ErrorStatus::NoCreation => 11,
            ErrorStatus::InconsistentValue => 12,
            ErrorStatus::ResourceUnavailable => 13,
            ErrorStatus::CommitFailed => 14,
            ErrorStatus::UndoFailed => 15,
            ErrorStatus::AuthorizationError => 16,
            ErrorStatus::NotWritable => 17,
            ErrorStatus::InconsistentName => 18,
        }
    }

    /// The RFC name of the status.
    pub open spec fn spec_name(self) -> Seq<char> {
        match self {
            ErrorStatus::NoError => "noError"@,
            ErrorStatus::TooBig => "tooBig"@,
            ErrorStatus::NoSuchName => "noSuchName"@,
            ErrorStatus::BadValue => "badValue"@,
            ErrorStatus::ReadOnly => "readOnly"@,
            ErrorStatus::GenErr => "genErr"@,
            ErrorStatus::NoAccess => "noAccess"@,
            ErrorStatus::WrongType => "wrongType"@,
            ErrorStatus::WrongLength => "wrongLength"@,
            ErrorStatus::WrongEncoding => "wrongEncoding"@,
            ErrorStatus::WrongValue => "wrongValue"@,
            ErrorStatus::NoCreation => "noCreation"@,
            ErrorStatus::InconsistentValue => "inconsistentValue"@,
            ErrorStatus::ResourceUnavailable => "resourceUnavailable"@,
            ErrorStatus::CommitFailed => "commitFailed"@,
            ErrorStatus::UndoFailed => "undoFailed"@,
            ErrorStatus::AuthorizationError => "authorizationError"@,
            ErrorStatus::NotWritable => "notWritable"@,
            ErrorStatus::InconsistentName => "inconsistentName"@,
        }
    }

    /// The code of the status on the wire.
    pub fn code(self) -> (code: i32)
        ensures
            code == self.spec_code(),
            0 <= code <= 18,
    {
        match self {
            ErrorStatus::NoError => 0,
            ErrorStatus::TooBig => 1,
            ErrorStatus::NoSuchName => 2,
            ErrorStatus::BadValue => 3,
            ErrorStatus::ReadOnly => 4,
            ErrorStatus::GenErr => 5,
            ErrorStatus::NoAccess => 6,
            ErrorStatus::WrongType => 7,
            ErrorStatus::WrongLength => 8,
            ErrorStatus::WrongEncoding => 9,
            ErrorStatus::WrongValue => 10,
            ErrorStatus::NoCreation => 11,
            ErrorStatus::InconsistentValue => 12,
            ErrorStatus::ResourceUnavailable => 13,
            ErrorStatus::CommitFailed => 14,
            ErrorStatus::UndoFailed => 15,
            ErrorStatus::AuthorizationError => 16,
            ErrorStatus::NotWritable => 17,
            ErrorStatus::InconsistentName => 18,
        }
    }

    fn name(self) -> (name: &'static str)
        ensures
            name@ == self.spec_name(),
    {
        match self {
            ErrorStatus::NoError => "noError",
            ErrorStatus::TooBig => "tooBig",
            ErrorStatus::NoSuchName => "noSuchName",
            ErrorStatus::BadValue => "badValue",
            ErrorStatus::ReadOnly => "readOnly",
            ErrorStatus::GenErr => "genErr",
            ErrorStatus::NoAccess => "noAccess",
            ErrorStatus::WrongType => "wrongType",
            ErrorStatus::WrongLength => "wrongLength",
            ErrorStatus::WrongEncoding => "wrongEncoding",
            ErrorStatus::WrongValue => "wrongValue",
            ErrorStatus::NoCreation => "noCreation",
            ErrorStatus::InconsistentValue => "inconsistentValue",
            ErrorStatus::ResourceUnavailable => "resourceUnavailable",
            ErrorStatus::CommitFailed => "commitFailed",
            ErrorStatus::UndoFailed => "undoFailed",
            ErrorStatus::AuthorizationError => "authorizationError",
            ErrorStatus::NotWritable => "notWritable",
            ErrorStatus::InconsistentName => "inconsistentName",
        }
    }

    /// Converts a raw RFC 3416 error-status code into an [`ErrorStatus`].
    ///
    /// Returns `None` if `code` is not a defined error-status value.
    #[must_use]
    pub fn from_u32(code: u32) -> (status: Option<Self>)
        ensures
            status is Some <==> code <= 18,
            status matches Some(value) ==> value.spec_code() == code,
    {
        match code {
            0 => Some(ErrorStatus::NoError),
            1 => Some(ErrorStatus::TooBig),
            2 => Some(ErrorStatus::NoSuchName),
            3 => Some(ErrorStatus::BadValue),
            4 => Some(ErrorStatus::ReadOnly),
            5 => Some(ErrorStatus::GenErr),
            6 => Some(ErrorStatus::NoAccess),
            7 => Some(ErrorStatus::WrongType),
            8 => Some(ErrorStatus::WrongLength),
            9 => Some(ErrorStatus::WrongEncoding),
            10 => Some(ErrorStatus::WrongValue),
            11 => Some(ErrorStatus::NoCreation),
            12 => Some(ErrorStatus::InconsistentValue),
            13 => Some(ErrorStatus::ResourceUnavailable),
            14 => Some(ErrorStatus::CommitFailed),
            15 => Some(ErrorStatus::UndoFailed),
            16 => Some(ErrorStatus::AuthorizationError),
            17 => Some(ErrorStatus::NotWritable),
            18 => Some(ErrorStatus::InconsistentName),
            _ => None,
        }
    }

    /// The RFC name of the status, followed by its code in parentheses.
    pub fn to_string(&self) -> (out: String)
        ensures
            out@ == self.spec_name() + "("@ + text::signed_decimal(self.spec_code() as int) + ")"@,
    {
        let mut out = self.name().to_owned();
        out.append("(");
        push_signed(&mut out, self.code());
        out.append(")");
        out
    }
}

/// Different statuses have different codes.
pub proof fn law_error_codes_distinct(a: ErrorStatus, b: ErrorStatus)
    ensures
        a.spec_code() == b.spec_code() ==> a == b,
        0 <= a.spec_code() <= 18,
{
}

impl FromSpecImpl<ErrorStatus> for i32 {
    open spec fn obeys_from_spec() -> bool {
        true
    }

    open spec fn from_spec(v: ErrorStatus) -> Self {
        v.spec_code()
    }
}

impl From<ErrorStatus> for i32 {
    fn from(status: ErrorStatus) -> (code: Self) {
        status.code()
    }
}

/// Error returned when an `i32` does not correspond to a defined [`ErrorStatus`]
/// variant.
#[derive(Debug, Clone, Copy, PartialEq, Eq)]
pub struct InvalidErrorStatus(i32);

impl View for InvalidErrorStatus {
    type V = i32;

    closed spec fn view(&self) -> i32 {
        self.0
    }
}

impl InvalidErrorStatus {
    /// Returns the invalid error-status code that was rejected.
    #[must_use]
    pub fn code(self) -> (code: i32)
        ensures
            code == self@,
    {
        self.0
    }

    /// The message of the error.
    pub fn to_string(&self) -> (out: String)
        ensures
            out@ == "invalid SNMP error-status code: "@ + text::signed_decimal(self@ as int),
    {
        let mut out = "invalid SNMP error-status code: ".to_owned();
        push_signed(&mut out, self.0);
        out
    }
}

impl TryFromSpecImpl<i32> for ErrorStatus {
    open spec fn obeys_try_from_spec() -> bool {
        false
    }

    open spec fn try_from_spec(v: i32) -> Result<Self, InvalidErrorStatus> {
        arbitrary()
    }
}

impl TryFrom<i32> for ErrorStatus {
    type Error = InvalidErrorStatus;

    fn try_from(code: i32) -> (result: Result<Self, InvalidErrorStatus>)
        ensures
            match result {
                Ok(status) => status.spec_code() == code,
                Err(error) => !(0 <= code <= 18) && error@ == code,
            },
    {
        if code < 0 {
            return Err(InvalidErrorStatus(code));
        }
        match ErrorStatus::from_u32(code as u32) {
            Some(status) => Ok(status),
            None => Err(InvalidErrorStatus(code)),
        }
    }
}

// ----- Inbound PDUs ----------------------------------------------------------------

/// An `SNMPv2` `GetRequest` PDU (inbound).
///
/// On the wire all varbind values are Null; they are decoded as
/// [`VarbindValue::Unspecified`] as a placeholder until the agent populates the
/// response.
#[derive(Clone, Debug, PartialEq, Eq)]
pub struct GetRequest {
    /// PDU request identifier, echoed in the response.
    pub request_id: RequestId,
    /// Variable bindings.
    pub varbinds: Vec<Varbind>,
}

/// An `SNMPv2` `GetNextRequest` PDU (inbound).
#[derive(Clone, Debug, PartialEq, Eq)]
pub struct GetNextRequest {
    /// PDU request identifier, echoed in the response.
    pub request_id: RequestId,
    /// Variable bindings identifying the OIDs whose lexicographic successors are
    /// requested.
    pub varbinds: Vec<Varbind>,
}

/// An `SNMPv2` `GetBulkRequest` PDU (inbound).
///
/// `non_repeaters` and `max_repetitions` are unchecked wire values: validate or cap
/// them before use.
#[derive(Clone, Debug, PartialEq, Eq)]
pub struct GetBulkRequest {
    /// PDU request identifier, echoed in the response.
    pub request_id: RequestId,
    /// Number of varbinds at the start of the list to treat as `GetNext`.
    pub non_repeaters: u32,
    /// Maximum number of repetitions to return for each repeating variable.
    pub max_repetitions: u32,
    /// Variable bindings specifying the starting OIDs for the bulk walk.
    pub varbinds: Vec<Varbind>,
}

/// An `SNMPv2` `SetRequest` PDU (inbound).
#[derive(Clone, Debug, PartialEq, Eq)]
pub struct SetRequest {
    /// PDU request identifier, echoed in the response.
    pub request_id: RequestId,
    /// Variable bindings containing the OID/value pairs to set.
    pub varbinds: Vec<Varbind>,
}

/// Union of all PDU types that an SNMP agent may receive from a manager.
#[derive(Clone, Debug, PartialEq, Eq)]
pub enum InboundPdu {
    /// A [`GetRequest`].
    GetRequest(GetRequest),
    /// A [`GetNextRequest`].
    GetNextRequest(GetNextRequest),
    /// A [`GetBulkRequest`].
    GetBulkRequest(GetBulkRequest),
    /// A [`SetRequest`].
    SetRequest(SetRequest),
}

/// An [`InboundPdu`] as a mathematical value.
pub enum InboundView {
    /// A GET.
    GetRequest { request_id: i32, varbinds: Seq<VarbindView> },
    /// A GETNEXT.
    GetNextRequest { request_id: i32, varbinds: Seq<VarbindView> },
    /// A GETBULK.
    GetBulkRequest {
        request_id: i32,
        non_repeaters: u32,
        max_repetitions: u32,
        varbinds: Seq<VarbindView>,
    },
    /// A SET.
    SetRequest { request_id: i32, varbinds: Seq<VarbindView> },
}

impl View for InboundPdu {
    type V = InboundView;

    open spec fn view(&self) -> InboundView {
        match self {
            InboundPdu::GetRequest(pdu) => InboundView::GetRequest {
                request_id: pdu.request_id@,
                varbinds: varbind_views(pdu.varbinds@),
            },
            InboundPdu::GetNextRequest(pdu) => InboundView::GetNextRequest {
                request_id: pdu.request_id@,
                varbinds: varbind_views(pdu.varbinds@),
            },
            InboundPdu::GetBulkRequest(pdu) => InboundView::GetBulkRequest {
                request_id: pdu.request_id@,
                non_repeaters: pdu.non_repeaters,
                max_repetitions: pdu.max_repetitions,
                varbinds: varbind_views(pdu.varbinds@),
            },
            InboundPdu::SetRequest(pdu) => InboundView::SetRequest {
                request_id: pdu.request_id@,
                varbinds: varbind_views(pdu.varbinds@),
            },
        }
    }
}

/// The inner PDU content of an `SNMPv3` message.
#[derive(Clone, Debug, PartialEq, Eq)]
pub enum V3ScopedData {
    /// A decoded cleartext PDU ready for dispatch (noAuthNoPriv or authNoPriv).
    Plaintext(InboundPdu),
    /// Raw ciphertext from an authPriv message; requires decryption before dispatch.
    Encrypted(Vec<u8>),
}

/// A [`V3ScopedData`] as a mathematical value.
pub enum V3ScopedView {
    /// A cleartext PDU.
    Plaintext(InboundView),
    /// Ciphertext.
    Encrypted(Seq<u8>),
}

impl View for V3ScopedData {
    type V = V3ScopedView;

    open spec fn view(&self) -> V3ScopedView {
        match self {
            V3ScopedData::Plaintext(pdu) => V3ScopedView::Plaintext(pdu@),
            V3ScopedData::Encrypted(bytes) => V3ScopedView::Encrypted(bytes@),
        }
    }
}

/// The decoded contents of a BER-encoded `ScopedPdu`.
#[derive(Debug, PartialEq, Eq)]
pub struct DecodedScopedPdu {
    /// `contextEngineID` extracted from the `ScopedPdu`.
    pub context_engine_id: Vec<u8>,
    /// `contextName` extracted from the `ScopedPdu`.
    pub context_name: Vec<u8>,
    /// The decoded inbound PDU.
    pub pdu: InboundPdu,
}

/// USM security parameters extracted from the inbound message header.
#[derive(Clone, Debug, PartialEq, Eq)]
pub struct UsmSecurityFields {
    /// `msgAuthoritativeEngineID`. Empty for engine-ID discovery probes.
    pub auth_engine_id: Vec<u8>,
    /// `msgAuthoritativeEngineBoots`.
    pub auth_engine_boots: u32,
    /// `msgAuthoritativeEngineTime`.
    pub auth_engine_time: u32,
    /// Message flags byte: bit 0 = authFlag, bit 1 = privFlag, bit 2 = reportableFlag.
    pub security_flags: u8,
    /// `msgAuthenticationParameters`: `None` where the field is empty on the wire.
    pub auth_params: Option<AuthenticationParams>,
    /// `msgPrivacyParameters`: `None` where the field is not exactly 8 bytes on the
    /// wire.
    pub priv_params: Option<PrivacySalt>,
}

/// A decoded inbound `SNMPv3` message: the message-level fields, plus the inner PDU or
/// the encrypted payload.
#[derive(Clone, Debug, PartialEq, Eq)]
pub struct V3InboundMessage<'a> {
    /// Message ID from `HeaderData`; echoed in the `SNMPv3` response.
    pub msg_id: MessageId,
    /// Maximum message size the sender can accept, at least 484.
    pub max_size: i32,
    /// Security model from `HeaderData`.
    pub security_model: SecurityModel,
    /// Engine ID from the `ScopedPdu`; the authoritative engine ID for encrypted
    /// messages pending decryption.
    pub engine_id: Vec<u8>,
    /// Context name from the `ScopedPdu`; empty for encrypted messages pending
    /// decryption.
    pub context_name: Vec<u8>,
    /// Security name from USM security parameters; echoed in the response.
    pub user_name: Vec<u8>,
    /// The inner PDU or encrypted payload.
    pub scoped_data: V3ScopedData,
    /// USM security parameters extracted from the message header.
    pub usm: UsmSecurityFields,
    /// The raw BER bytes of the complete message as received.
    pub raw_message: &'a [u8],
    /// Byte offset of `msgAuthenticationParameters` within `raw_message`, or `None`
    /// where that field is empty.
    pub auth_params_offset: Option<usize>,
}

/// [`UsmSecurityFields`] as a mathematical value.
pub struct UsmSecurityView {
    /// `msgAuthoritativeEngineID`.
    pub auth_engine_id: Seq<u8>,
    /// `msgAuthoritativeEngineBoots`.
    pub auth_engine_boots: u32,
    /// `msgAuthoritativeEngineTime`.
    pub auth_engine_time: u32,
    /// Message flags byte.
    pub security_flags: u8,
    /// `msgAuthenticationParameters`.
    pub auth_params: Option<Seq<u8>>,
    /// `msgPrivacyParameters`.
    pub priv_params: Option<Seq<u8>>,
}

impl View for UsmSecurityFields {
    type V = UsmSecurityView;

    open spec fn view(&self) -> UsmSecurityView {
        UsmSecurityView {
            auth_engine_id: self.auth_engine_id@,
            auth_engine_boots: self.auth_engine_boots,
            auth_engine_time: self.auth_engine_time,
            security_flags: self.security_flags,
            auth_params: match self.auth_params {
                Some(params) => Some(params@),
                None => None,
            },
            priv_params: match self.priv_params {
                Some(salt) => Some(salt@),
                None => None,
            },
        }
    }
}

/// [`V3InboundMessage`] as a mathematical value.
pub struct V3InboundView {
    /// `msgID`.
    pub msg_id: i32,
    /// `msgMaxSize`.
    pub max_size: i32,
    /// `msgSecurityModel`.
    pub security_model: i32,
    /// The engine ID of the scoped PDU.
    pub engine_id: Seq<u8>,
    /// The context name of the scoped PDU.
    pub context_name: Seq<u8>,
    /// `msgUserName`.
    pub user_name: Seq<u8>,
    /// The inner PDU or encrypted payload.
    pub scoped_data: V3ScopedView,
    /// The other USM security parameters.
    pub usm: UsmSecurityView,
    /// The message as received.
    pub raw_message: Seq<u8>,
    /// Where `msgAuthenticationParameters` stand in the message.
    pub auth_params_offset: Option<usize>,
}

impl<'a> View for V3InboundMessage<'a> {
    type V = V3InboundView;

    open spec fn view(&self) -> V3InboundView {
        V3InboundView {
            msg_id: self.msg_id@,
            max_size: self.max_size,
            security_model: self.security_model@,
            engine_id: self.engine_id@,
            context_name: self.context_name@,
            user_name: self.user_name@,
            scoped_data: self.scoped_data@,
            usm: self.usm@,
            raw_message: self.raw_message@,
            auth_params_offset: self.auth_params_offset,
        }
    }
}

// ----- Outbound PDUs ---------------------------------------------------------------

/// An `SNMPv2` Response PDU (outbound), used to answer Get/GetNext/GetBulk/Set requests.
#[derive(Clone, Debug, PartialEq, Eq)]
pub struct GetResponse {
    /// Request identifier copied from the corresponding inbound PDU.
    pub request_id: RequestId,
    /// The error status for this response.
    pub error_status: ErrorStatus,
    /// 1-based index into `varbinds` of the first varbind that caused an error, or `0`
    /// when `error_status` is `NoError`.
    pub error_index: u32,
    /// Variable bindings containing the response values or exception sentinels.
    pub varbinds: Vec<Varbind>,
}

/// An `SNMPv2`-Trap-PDU (outbound).
///
/// The trap PDU carries the same structure as a response PDU but has zero
/// `error_status` and `error_index` on the wire.
#[derive(Clone, Debug, PartialEq, Eq)]
pub struct WireTrapPdu {
    /// Request identifier for correlating notifications.
    pub request_id: RequestId,
    /// Variable bindings describing the trap payload.
    pub varbinds: Vec<Varbind>,
}

// ----- Errors ----------------------------------------------------------------------

/// Structured category of a [`DecodeError`].
#[derive(Copy, Clone, Debug, PartialEq, Eq, Structural)]
pub enum DecodeErrorKind {
    /// BER decode failure.
    Ber,
    /// PDU type received that is not a recognised inbound type.
    UnsupportedPduType,
    /// An OID in a varbind could not be converted.
    InvalidOid,
    /// The SNMP message version is not the expected value.
    WrongVersion,
}

impl DecodeErrorKind {
    /// The text of the kind.
    pub open spec fn text(self) -> Seq<char> {
        match self {
            DecodeErrorKind::Ber => "BER decode failure"@,
            DecodeErrorKind::UnsupportedPduType => "unsupported PDU type"@,
            DecodeErrorKind::InvalidOid => "invalid OID"@,
            DecodeErrorKind::WrongVersion => "wrong SNMP version"@,
        }
    }

    fn name(self) -> (name: &'static str)
        ensures
            name@ == self.text(),
    {
        match self {
            DecodeErrorKind::Ber => "BER decode failure",
            DecodeErrorKind::UnsupportedPduType => "unsupported PDU type",
            DecodeErrorKind::InvalidOid => "invalid OID",
            DecodeErrorKind::WrongVersion => "wrong SNMP version",
        }
    }

    /// The text of the kind.
    pub fn to_string(&self) -> (out: String)
        ensures
            out@ == self.text(),
    {
        self.name().to_owned()
    }
}

/// Error returned when BER-decoding an inbound SNMP PDU fails.
#[derive(Debug)]
pub struct DecodeError {
    kind: DecodeErrorKind,
    /// Human-readable description of what went wrong.
    pub message: String,
}

/// A [`DecodeError`] as a mathematical value.
pub struct DecodeFault {
    /// The kind of the error.
    pub kind: DecodeErrorKind,
    /// The message of the error.
    pub message: Seq<char>,
}

impl View for DecodeError {
    type V = DecodeFault;

    closed spec fn view(&self) -> DecodeFault {
        DecodeFault { kind: self.kind, message: self.message@ }
    }
}

impl DecodeError {
    /// An error of the given kind.
    pub fn new(kind: DecodeErrorKind, message: &str) -> (error: Self)
        ensures
            error@ == (DecodeFault { kind, message: message@ }),
    {
        DecodeError { kind, message: message.to_owned() }
    }

    /// Returns the structured kind of this decode error.
    #[must_use]
    pub fn kind(&self) -> (kind: &DecodeErrorKind)
        ensures
            *kind == self@.kind,
    {
        &self.kind
    }

    /// The kind and the message of the error.
    pub fn to_string(&self) -> (out: String)
        ensures
            out@ == "SNMP decode error ("@ + self@.kind.text() + "): "@ + self@.message,
    {
        let mut out = "SNMP decode error (".to_owned();
        out.append(self.kind.name());
        out.append("): ");
        out.append(self.message.as_str());
        out
    }
}

/// Error returned when BER-encoding an outbound SNMP PDU fails.
#[derive(Debug)]
pub struct EncodeError {
    /// Human-readable description of what went wrong.
    pub message: String,
}

impl EncodeError {
    /// An error with the given message.
    pub fn new(message: &str) -> (error: Self)
        ensures
            error.message@ == message@,
    {
        EncodeError { message: message.to_owned() }
    }

    /// The message of the error.
    pub fn to_string(&self) -> (out: String)
        ensures
            out@ == "SNMP encode error: "@ + self.message@,
    {
        let mut out = "SNMP encode error: ".to_owned();
        out.append(self.message.as_str());
        out
    }
}

// ----- SecurityModel ---------------------------------------------------------------

/// The `msgSecurityModel` value from an `SNMPv3` `HeaderData`.
///
/// The only value this agent supports is [`usm`](Self::usm), but the original wire
/// value is kept for diagnostic purposes.
#[derive(Copy, Clone, Debug, PartialEq, Eq)]
pub struct SecurityModel(i32);

impl View for SecurityModel {
    type V = i32;

    closed spec fn view(&self) -> i32 {
        self.0
    }
}

impl SecurityModel {
    /// User-Based Security Model (RFC 3414).
    pub fn usm() -> (model: Self)
        ensures
            model@ == 3,
    {
        SecurityModel(3)
    }

    /// Wrap a raw wire value.
    #[must_use]
    pub fn from_wire(value: i32) -> (model: Self)
        ensures
            model@ == value,
    {
        SecurityModel(value)
    }

    /// Returns `true` when this is the USM security model.
    #[must_use]
    pub fn is_usm(self) -> (usm: bool)
        ensures
            usm == (self@ == 3),
    {
        self.0 == 3
    }

    /// The name of the model, with its number.
    pub fn to_string(&self) -> (out: String)
        ensures
            out@ == (if self@ == 3 {
                "USM(3)"@
            } else {
                "unknown("@ + text::signed_decimal(self@ as int) + ")"@
            }),
    {
        if self.is_usm() {
            "USM(3)".to_owned()
        } else {
            let mut out = "unknown(".to_owned();
            push_signed(&mut out, self.0);
            out.append(")");
            out
        }
    }
}

// ----- Laws --------------------------------------------------------------------------

/// The identifier drawn from a counter value is that value without its sign bit.
pub proof fn law_sequential_id_bits(raw: i32)
    ensures
        sequential_id(raw) == raw as int % 0x8000_0000,
        raw >= 0 ==> sequential_id(raw) == raw,
{
}

/// The mathematical value of a sequence of varbinds has the OID and the value of each of
/// them, in order.
pub proof fn law_varbind_views(varbinds: Seq<Varbind>)
    ensures
        varbind_views(varbinds).len() == varbinds.len(),
        forall|i: int|
            0 <= i < varbinds.len() ==> (#[trigger] varbind_views(varbinds)[i]).oid
                == varbinds[i].oid@ && varbind_views(varbinds)[i].value == varbinds[i].value@,
        forall|i: int|
            0 <= i < varbinds.len() ==> match varbinds[i].value {
                VarbindValue::Value(value) => (#[trigger] varbind_views(varbinds)[i]).value
                    == VarbindValueView::Value(value@),
                VarbindValue::Unspecified => varbind_views(varbinds)[i].value is Unspecified,
                VarbindValue::NoSuchObject => varbind_views(varbinds)[i].value is NoSuchObject,
                VarbindValue::NoSuchInstance => varbind_views(varbinds)[i].value is NoSuchInstance,
                VarbindValue::EndOfMibView => varbind_views(varbinds)[i].value is EndOfMibView,
            },
{
}

/// The mathematical value of a request holds each of its fields under its own name.
pub proof fn law_inbound_view(pdu: InboundPdu)
    ensures
        match pdu {
            InboundPdu::GetRequest(own) => pdu@ matches InboundView::GetRequest {
                request_id,
                varbinds,
            } && request_id == own.request_id@ && varbinds == varbind_views(own.varbinds@),
            InboundPdu::GetNextRequest(own) => pdu@ matches InboundView::GetNextRequest {
                request_id,
                varbinds,
            } && request_id == own.request_id@ && varbinds == varbind_views(own.varbinds@),
            InboundPdu::GetBulkRequest(own) => pdu@ matches InboundView::GetBulkRequest {
                request_id,
                non_repeaters,
                max_repetitions,
                varbinds,
            } && request_id == own.request_id@ && non_repeaters == own.non_repeaters
                && max_repetitions == own.max_repetitions && varbinds == varbind_views(
                own.varbinds@,
            ),
            InboundPdu::SetRequest(own) => pdu@ matches InboundView::SetRequest {
                request_id,
                varbinds,
            } && request_id == own.request_id@ && varbinds == varbind_views(own.varbinds@),
        },
{
}

/// The mathematical value of a message holds each of its fields under its own name.
pub proof fn law_message_view(message: V3InboundMessage)
    ensures
        message@.msg_id == message.msg_id@,
        message@.max_size == message.max_size,
        message@.security_model == message.security_model@,
        message@.engine_id == message.engine_id@,
        message@.context_name == message.context_name@,
        message@.user_name == message.user_name@,
        message@.raw_message == message.raw_message@,
        message@.auth_params_offset == message.auth_params_offset,
        message@.usm.auth_engine_id == message.usm.auth_engine_id@,
        message@.usm.auth_engine_boots == message.usm.auth_engine_boots,
        message@.usm.auth_engine_time == message.usm.auth_engine_time,
        message@.usm.security_flags == message.usm.security_flags,
        match message.usm.auth_params {
            Some(params) => message@.usm.auth_params == Some(params@),
            None => message@.usm.auth_params is None,
        },
        match message.usm.priv_params {
            Some(salt) => message@.usm.priv_params == Some(salt@),
            None => message@.usm.priv_params is None,
        },
        match message.scoped_data {
            V3ScopedData::Plaintext(pdu) => message@.scoped_data == V3ScopedView::Plaintext(pdu@),
            V3ScopedData::Encrypted(bytes) => message@.scoped_data == V3ScopedView::Encrypted(
                bytes@,
            ),
        },
{
}

} // verus!
