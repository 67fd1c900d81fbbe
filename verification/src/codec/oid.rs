//! SNMP object identifiers: structure, order and dotted-decimal text.

use std::cmp::Ordering;
use std::str::FromStr;
use vstd::prelude::*;
use vstd::std_specs::cmp::{
    PartialEqSpec, PartialEqSpecImpl, PartialOrdSpec, PartialOrdSpecImpl,
};
use vstd::std_specs::convert::TryFromSpecImpl;
use crate::text;
use crate::text::push_decimal;

verus! {

// ----- Structure -------------------------------------------------------------

/// The structural rules of an OID: two or more arcs, a first arc of at most 2, and a
/// second arc of at most 39 under the first arcs 0 and 1.
pub open spec fn valid_arcs(arcs: Seq<u32>) -> bool {
    &&& arcs.len() >= 2
    &&& arcs[0] <= 2
    &&& arcs[0] <= 1 ==> arcs[1] <= 39
}

/// The structural rule that `arcs` break first, if any.
pub open spec fn structure_outcome(arcs: Seq<u32>) -> Result<Seq<u32>, OidFault> {
    if arcs.len() < 2 {
        Err(OidFault::TooFewComponents(arcs.len()))
    } else if arcs[0] > 2 {
        Err(OidFault::InvalidFirstArc(arcs[0]))
    } else if arcs[0] <= 1 && arcs[1] > 39 {
        Err(OidFault::InvalidSecondArc { first: arcs[0], second: arcs[1] })
    } else {
        Ok(arcs)
    }
}

/// An SNMP Object Identifier represented as a sequence of unsigned 32-bit components.
///
/// OIDs are compared lexicographically, component by component, with shorter prefixes
/// sorting before longer ones (e.g. `1.3.6` < `1.3.6.1`). Every value satisfies
/// [`valid_arcs`].
#[derive(Debug, Eq, Ord, Hash)]
pub struct Oid(Vec<u32>);

impl View for Oid {
    type V = Seq<u32>;

    closed spec fn view(&self) -> Seq<u32> {
        self.0@
    }
}

impl Oid {
    #[verifier::type_invariant]
    spec fn well_formed(self) -> bool {
        valid_arcs(self.0@)
    }

    /// Creates an `Oid` from a slice of component values that satisfy the structural
    /// rules.
    #[must_use]
    pub fn from_slice(components: &[u32]) -> (oid: Self)
        requires
            valid_arcs(components@),
        ensures
            oid@ == components@,
    {
        Oid(vstd::slice::slice_to_vec(components))
    }

    /// Returns the OID components as a slice.
    #[must_use]
    pub fn as_slice(&self) -> (arcs: &[u32])
        ensures
            arcs@ == self@,
            valid_arcs(self@),
    {
        proof {
            use_type_invariant(self);
        }
        self.0.as_slice()
    }

    /// Creates an `Oid` from a vector of component values, or reports the structural
    /// rule that they break.
    pub fn from_arcs(components: Vec<u32>) -> (result: Result<Self, ParseOidError>)
        ensures
            parse_agrees(result, structure_outcome(components@)),
    {
        match validate_oid_components(components.as_slice()) {
            Ok(()) => Ok(Oid(components)),
            Err(kind) => Err(ParseOidError { kind }),
        }
    }

    /// Parses a dotted-decimal OID.
    pub fn parse_dotted(s: &str) -> (result: Result<Self, ParseOidError>)
        ensures
            parse_agrees(result, dotted_outcome(s@)),
    {
        match parse_components(s) {
            Ok(components) => Oid::from_arcs(components),
            Err(kind) => Err(ParseOidError { kind }),
        }
    }

    /// The dotted-decimal text of the OID.
    pub fn to_string(&self) -> (out: String)
        ensures
            out@ == dotted(self@),
    {
        let arcs = self.as_slice();
        let mut out = String::new();
        push_decimal(&mut out, arcs[0] as u64);
        let mut i: usize = 1;
        while i < arcs.len()
            invariant
                1 <= i <= arcs@.len(),
                out@ + dotted_tail(arcs@.skip(i as int)) == dotted(arcs@),
            decreases arcs@.len() - i,
        {
            let ghost before = out@;
            let ghost rest = arcs@.skip(i as int);
            out.append(".");
            push_decimal(&mut out, arcs[i] as u64);
            proof {
                assert(rest.skip(1) =~= arcs@.skip(i as int + 1));
                assert(out@ + dotted_tail(rest.skip(1)) =~= before + dotted_tail(rest));
            }
            i += 1;
        }
        proof {
            assert(out@ + dotted_tail(arcs@.skip(i as int)) =~= out@);
        }
        out
    }
}

impl Clone for Oid {
    fn clone(&self) -> (copy: Self)
        ensures
            copy@ == self@,
    {
        Oid::from_slice(self.as_slice())
    }
}

impl TryFromSpecImpl<Vec<u32>> for Oid {
    open spec fn obeys_try_from_spec() -> bool {
        false
    }

    open spec fn try_from_spec(v: Vec<u32>) -> Result<Self, ParseOidError> {
        arbitrary()
    }
}

impl TryFrom<Vec<u32>> for Oid {
    type Error = ParseOidError;

    /// Same as [`Oid::from_arcs`].
    fn try_from(components: Vec<u32>) -> (result: Result<Self, ParseOidError>)
        ensures
            parse_agrees(result, structure_outcome(components@)),
    {
        Oid::from_arcs(components)
    }
}

impl FromStr for Oid {
    type Err = ParseOidError;

    /// Same as [`Oid::parse_dotted`].
    fn from_str(s: &str) -> (result: Result<Self, ParseOidError>)
        ensures
            parse_agrees(result, dotted_outcome(s@)),
    {
        Oid::parse_dotted(s)
    }
}

// ----- Order -----------------------------------------------------------------

/// Whether `a` sorts before `b` component by component, a proper prefix first.
pub open spec fn lex_less(a: Seq<u32>, b: Seq<u32>) -> bool
    decreases a.len(),
{
    if b.len() == 0 {
        false
    } else if a.len() == 0 {
        true
    } else if a[0] != b[0] {
        a[0] < b[0]
    } else {
        lex_less(a.skip(1), b.skip(1))
    }
}

/// Of two different arc sequences exactly one sorts before the other, and none sorts
/// before itself.
pub proof fn law_order_total(a: Seq<u32>, b: Seq<u32>)
    ensures
        !(lex_less(a, b) && lex_less(b, a)),
        lex_less(a, b) || lex_less(b, a) || a == b,
        a == b ==> !lex_less(a, b),
    decreases a.len(),
{
    if a.len() > 0 && b.len() > 0 && a[0] == b[0] {
        law_order_total(a.skip(1), b.skip(1));
        if a.skip(1) == b.skip(1) {
            assert(a =~= seq![a[0]] + a.skip(1));
            assert(b =~= seq![b[0]] + b.skip(1));
        }
    } else if a.len() == 0 && b.len() == 0 {
        assert(a =~= b);
    }
}

/// The order is transitive.
pub proof fn law_order_transitive(a: Seq<u32>, b: Seq<u32>, c: Seq<u32>)
    requires
        lex_less(a, b),
        lex_less(b, c),
    ensures
        lex_less(a, c),
    decreases a.len(),
{
    if a.len() > 0 && a[0] == b[0] && b[0] == c[0] {
        law_order_transitive(a.skip(1), b.skip(1), c.skip(1));
    }
}

/// A proper prefix sorts before every longer sequence that starts with it.
pub proof fn law_prefix_first(a: Seq<u32>, more: Seq<u32>)
    requires
        more.len() > 0,
    ensures
        lex_less(a, a + more),
    decreases a.len(),
{
    if a.len() > 0 {
        law_prefix_first(a.skip(1), more);
        assert((a + more).skip(1) =~= a.skip(1) + more);
    }
}

/// At the first position where two arc sequences differ, the one with the numerically
/// smaller arc sorts first, whatever follows.
pub proof fn law_smaller_arc_first(prefix: Seq<u32>, x: u32, y: u32, s: Seq<u32>, t: Seq<u32>)
    requires
        x < y,
    ensures
        lex_less(prefix + seq![x] + s, prefix + seq![y] + t),
        !lex_less(prefix + seq![y] + t, prefix + seq![x] + s),
    decreases prefix.len(),
{
    let a = prefix + seq![x] + s;
    let b = prefix + seq![y] + t;
    if prefix.len() > 0 {
        law_smaller_arc_first(prefix.skip(1), x, y, s, t);
        assert(a.skip(1) =~= prefix.skip(1) + seq![x] + s);
        assert(b.skip(1) =~= prefix.skip(1) + seq![y] + t);
    }
}

/// Whether `a` sorts before `b`.
pub(crate) fn precedes(a: &[u32], b: &[u32]) -> (less: bool)
    ensures
        less == lex_less(a@, b@),
{
    let mut i: usize = 0;
    proof {
        assert(a@.skip(0) =~= a@);
        assert(b@.skip(0) =~= b@);
    }
    while i < a.len() && i < b.len() && a[i] == b[i]
        invariant
            i <= a@.len(),
            i <= b@.len(),
            lex_less(a@, b@) == lex_less(a@.skip(i as int), b@.skip(i as int)),
        decreases a@.len() - i,
    {
        proof {
            assert(a@.skip(i as int).skip(1) =~= a@.skip(i as int + 1));
            assert(b@.skip(i as int).skip(1) =~= b@.skip(i as int + 1));
        }
        i += 1;
    }
    if i == b.len() {
        false
    } else if i == a.len() {
        true
    } else {
        a[i] < b[i]
    }
}

fn same_arcs(a: &[u32], b: &[u32]) -> (same: bool)
    ensures
        same == (a@ == b@),
{
    if a.len() != b.len() {
        return false;
    }
    let mut i: usize = 0;
    while i < a.len()
        invariant
            i <= a@.len(),
            a@.len() == b@.len(),
            a@.take(i as int) == b@.take(i as int),
        decreases a@.len() - i,
    {
        if a[i] != b[i] {
            return false;
        }
        proof {
            assert(a@.take(i as int + 1) =~= a@.take(i as int).push(a@[i as int]));
            assert(b@.take(i as int + 1) =~= b@.take(i as int).push(b@[i as int]));
        }
        i += 1;
    }
    proof {
        assert(a@.take(a@.len() as int) =~= a@);
        assert(b@.take(b@.len() as int) =~= b@);
    }
    true
}

impl PartialEqSpecImpl for Oid {
    open spec fn obeys_eq_spec() -> bool {
        true
    }

    open spec fn eq_spec(&self, other: &Self) -> bool {
        self@ == other@
    }
}

impl PartialEq for Oid {
    fn eq(&self, other: &Self) -> (same: bool) {
        same_arcs(self.as_slice(), other.as_slice())
    }
}

impl PartialOrdSpecImpl for Oid {
    open spec fn obeys_partial_cmp_spec() -> bool {
        true
    }

    open spec fn partial_cmp_spec(&self, other: &Self) -> Option<Ordering> {
        if lex_less(self@, other@) {
            Some(Ordering::Less)
        } else if lex_less(other@, self@) {
            Some(Ordering::Greater)
        } else {
            Some(Ordering::Equal)
        }
    }
}

impl PartialOrd for Oid {
    fn partial_cmp(&self, other: &Self) -> (order: Option<Ordering>) {
        if precedes(self.as_slice(), other.as_slice()) {
            Some(Ordering::Less)
        } else if precedes(other.as_slice(), self.as_slice()) {
            Some(Ordering::Greater)
        } else {
            Some(Ordering::Equal)
        }
    }
}

// ----- Text ------------------------------------------------------------------

/// `.` and the decimal text of each arc, in order.
pub open spec fn dotted_tail(arcs: Seq<u32>) -> Seq<char>
    decreases arcs.len(),
{
    if arcs.len() == 0 {
        Seq::empty()
    } else {
        "."@ + text::decimal(arcs[0] as nat) + dotted_tail(arcs.skip(1))
    }
}

/// The dotted-decimal text of `arcs`.
pub open spec fn dotted(arcs: Seq<u32>) -> Seq<char> {
    text::decimal(arcs[0] as nat) + dotted_tail(arcs.skip(1))
}

/// Whether `c` is an ASCII decimal digit.
pub open spec fn is_digit(c: char) -> bool {
    '0' <= c <= '9'
}

/// The number of decimal digits that `s` starts with.
pub open spec fn digit_run(s: Seq<char>) -> nat
    decreases s.len(),
{
    if s.len() == 0 || !is_digit(s[0]) {
        0
    } else {
        1 + digit_run(s.skip(1))
    }
}

/// The number that the decimal digits `s` denote.
pub open spec fn digits_value(s: Seq<char>) -> nat
    decreases s.len(),
{
    if s.len() == 0 {
        0
    } else {
        (digits_value(s.drop_last()) * 10 + (s.last() as nat - 48)) as nat
    }
}

/// What a component is read as: its decimal digits, after an optional plus sign, as a
/// number that fits in `u32`.
pub open spec fn number_outcome(part: Seq<char>) -> Result<u32, ParseArcError> {
    if part.len() == 0 {
        Err(ParseArcError::Empty)
    } else {
        let digits = if part[0] == '+' && part.len() > 1 {
            part.skip(1)
        } else {
            part
        };
        let run = digit_run(digits) as int;
        if digits_value(digits.take(run)) > u32::MAX {
            Err(ParseArcError::TooLarge)
        } else if run < digits.len() {
            Err(ParseArcError::InvalidDigit)
        } else {
            Ok(digits_value(digits) as u32)
        }
    }
}

/// What a component is read as; one with a leading zero is refused.
pub open spec fn arc_outcome(part: Seq<char>) -> Result<u32, OidFault> {
    match number_outcome(part) {
        Err(source) => Err(OidFault::InvalidComponent { part, source }),
        Ok(value) => if part.len() > 1 && part[0] == '0' {
            Err(OidFault::LeadingZero { part })
        } else {
            Ok(value)
        },
    }
}

/// The position of the first dot in `s`, or the length of `s`.
pub open spec fn dot_index(s: Seq<char>) -> nat
    decreases s.len(),
{
    if s.len() == 0 || s[0] == '.' {
        0
    } else {
        1 + dot_index(s.skip(1))
    }
}

/// `done` followed by what the dot-separated components of `s` are read as, or the
/// first of them that is refused.
pub open spec fn arcs_outcome(done: Seq<u32>, s: Seq<char>) -> Result<Seq<u32>, OidFault>
    decreases s.len(),
{
    let end = dot_index(s);
    match arc_outcome(s.take(end as int)) {
        Err(fault) => Err(fault),
        Ok(arc) => if end >= s.len() {
            Ok(done.push(arc))
        } else {
            arcs_outcome(done.push(arc), s.skip(end as int + 1))
        },
    }
}

/// Whether two dots follow each other somewhere in `s`.
pub open spec fn has_double_dot(s: Seq<char>) -> bool {
    exists|i: int| 0 <= i && i + 1 < s.len() && #[trigger] s[i] == '.' && s[i + 1] == '.'
}

/// What a dotted-decimal text is read as, structural rules aside.
pub open spec fn components_outcome(s: Seq<char>) -> Result<Seq<u32>, OidFault> {
    if s.len() == 0 {
        Err(OidFault::EmptyString)
    } else if s[0] == '.' {
        Err(OidFault::LeadingDot)
    } else if s.last() == '.' {
        Err(OidFault::TrailingDot)
    } else if has_double_dot(s) {
        Err(OidFault::ConsecutiveDots)
    } else {
        arcs_outcome(Seq::empty(), s)
    }
}

/// What a dotted-decimal text is read as.
pub open spec fn dotted_outcome(s: Seq<char>) -> Result<Seq<u32>, OidFault> {
    match components_outcome(s) {
        Err(fault) => Err(fault),
        Ok(arcs) => structure_outcome(arcs),
    }
}

// ----- Errors ----------------------------------------------------------------

/// Why a component is no number.
#[derive(Copy, Clone, Debug, PartialEq, Eq, Structural)]
pub enum ParseArcError {
    /// There are no characters.
    Empty,
    /// A character is no decimal digit.
    InvalidDigit,
    /// The number does not fit in `u32`.
    TooLarge,
}

impl ParseArcError {
    /// The text of the error.
    pub open spec fn text(self) -> Seq<char> {
        match self {
            ParseArcError::Empty => "cannot parse integer from empty string"@,
            ParseArcError::InvalidDigit => "invalid digit found in string"@,
            ParseArcError::TooLarge => "number too large to fit in target type"@,
        }
    }

    /// The text of the error.
    pub fn message(self) -> (text: &'static str)
        ensures
            text@ == self.text(),
    {
        match self {
            ParseArcError::Empty => "cannot parse integer from empty string",
            ParseArcError::InvalidDigit => "invalid digit found in string",
            ParseArcError::TooLarge => "number too large to fit in target type",
        }
    }
}

/// The first thing wrong with an OID, as a mathematical value.
pub enum OidFault {
    /// The text is empty.
    EmptyString,
    /// The text starts with a dot.
    LeadingDot,
    /// The text ends with a dot.
    TrailingDot,
    /// The text holds two consecutive dots.
    ConsecutiveDots,
    /// A component has a leading zero.
    LeadingZero { part: Seq<char> },
    /// There are fewer than two components.
    TooFewComponents(nat),
    /// The first arc is not 0, 1 or 2.
    InvalidFirstArc(u32),
    /// The second arc is above 39 under the first arc 0 or 1.
    InvalidSecondArc { first: u32, second: u32 },
    /// A component is no `u32`.
    InvalidComponent { part: Seq<char>, source: ParseArcError },
}

impl OidFault {
    /// The message that reports this fault.
    pub open spec fn text(self) -> Seq<char> {
        match self {
            OidFault::EmptyString => "invalid OID: empty string"@,
            OidFault::LeadingDot => "invalid OID: leading dot"@,
            OidFault::TrailingDot => "invalid OID: trailing dot"@,
            OidFault::ConsecutiveDots => "invalid OID: consecutive dots"@,
            OidFault::LeadingZero { part } => leading_zero_text(debug_text(part)),
            OidFault::TooFewComponents(n) =>
                "invalid OID: an OID must have at least two components, got "@ + text::decimal(n),
            OidFault::InvalidFirstArc(v) =>
                "invalid OID: first OID component must be 0, 1, or 2, got "@ + text::decimal(v as nat),
            OidFault::InvalidSecondArc { first, second } =>
                "invalid OID: second OID component must be ≤ 39 when first is "@ + text::decimal(
                first as nat,
            ) + ", got "@ + text::decimal(second as nat),
            OidFault::InvalidComponent { part, source } => invalid_component_text(
                debug_text(part),
                source,
            ),
        }
    }
}

/// The message on a component with a leading zero, around the quoted component.
pub open spec fn leading_zero_text(quoted: Seq<char>) -> Seq<char> {
    "invalid OID: component "@ + quoted + " has a leading zero"@
}

/// The message on a component that is no number, around the quoted component.
pub open spec fn invalid_component_text(quoted: Seq<char>, source: ParseArcError) -> Seq<char> {
    "invalid OID: invalid component "@ + quoted + ": "@ + source.text()
}

/// The message on a component with a leading zero, around the quoted component.
pub fn leading_zero_message(quoted: &str) -> (out: String)
    ensures
        out@ == leading_zero_text(quoted@),
{
    let mut out = "invalid OID: component ".to_owned();
    out.append(quoted);
    out.append(" has a leading zero");
    out
}

/// The message on a component that is no number, around the quoted component.
pub fn invalid_component_message(quoted: &str, source: ParseArcError) -> (out: String)
    ensures
        out@ == invalid_component_text(quoted@, source),
{
    let mut out = "invalid OID: invalid component ".to_owned();
    out.append(quoted);
    out.append(": ");
    out.append(source.message());
    out
}

/// What the `Debug` formatting of a string with the characters `s` produces: the
/// characters between double quotes, with escapes.
pub uninterp spec fn debug_text(s: Seq<char>) -> Seq<char>;

/// Quotes `s` by the `Debug` formatting of `str` in the standard library.
///
/// Taken on trust: the text depends on the characters of `s` alone. Which characters
/// are escaped, and how, is not stated.
#[verifier::external_body]
fn debug_quoted(s: &str) -> (out: String)
    ensures
        out@ == debug_text(s@),
{
    format!("{:?}", s)
}

#[derive(Debug)]
enum OidErrorKind {
    EmptyString,
    LeadingDot,
    TrailingDot,
    ConsecutiveDots,
    LeadingZero { part: String },
    TooFewComponents(usize),
    InvalidFirstArc(u32),
    InvalidSecondArc { first: u32, second: u32 },
    InvalidComponent { part: String, source: ParseArcError },
}

impl OidErrorKind {
    spec fn fault(self) -> OidFault {
        match self {
            OidErrorKind::EmptyString => OidFault::EmptyString,
            OidErrorKind::LeadingDot => OidFault::LeadingDot,
            OidErrorKind::TrailingDot => OidFault::TrailingDot,
            OidErrorKind::ConsecutiveDots => OidFault::ConsecutiveDots,
            OidErrorKind::LeadingZero { part } => OidFault::LeadingZero { part: part@ },
            OidErrorKind::TooFewComponents(n) => OidFault::TooFewComponents(n as nat),
            OidErrorKind::InvalidFirstArc(v) => OidFault::InvalidFirstArc(v),
            OidErrorKind::InvalidSecondArc { first, second } => OidFault::InvalidSecondArc {
                first,
                second,
            },
            OidErrorKind::InvalidComponent { part, source } => OidFault::InvalidComponent {
                part: part@,
                source,
            },
        }
    }
}

/// Error returned when an OID is malformed.
#[derive(Debug)]
pub struct ParseOidError {
    kind: OidErrorKind,
}

impl View for ParseOidError {
    type V = OidFault;

    closed spec fn view(&self) -> OidFault {
        self.kind.fault()
    }
}

/// Whether `result` is what `outcome` prescribes: the same arcs, or the same fault.
pub open spec fn parse_agrees(
    result: Result<Oid, ParseOidError>,
    outcome: Result<Seq<u32>, OidFault>,
) -> bool {
    match (result, outcome) {
        (Ok(oid), Ok(arcs)) => oid@ == arcs,
        (Err(error), Err(fault)) => error@ == fault,
        _ => false,
    }
}

/// A fieldless mirror of the kinds of OID errors that callers can match on without
/// inspecting error message strings.
///
/// Obtain a value via [`ParseOidError::category`].
#[derive(Copy, Clone, Debug, PartialEq, Eq, Structural)]
pub enum OidErrorCategory {
    /// The input string was empty.
    EmptyString,
    /// The input string started with a dot.
    LeadingDot,
    /// The input string ended with a dot.
    TrailingDot,
    /// The input string contained two consecutive dots (`..`).
    ConsecutiveDots,
    /// A component had a leading zero (e.g. `"06"`).
    LeadingZero,
    /// The OID had fewer than two components.
    TooFewComponents,
    /// The first arc was not `0`, `1`, or `2`.
    InvalidFirstArc,
    /// The second arc was `> 39` when the first arc was `0` or `1`.
    InvalidSecondArc,
    /// A component could not be parsed as a `u32`.
    InvalidComponent,
}

impl OidFault {
    /// The category of the fault.
    pub open spec fn category(self) -> OidErrorCategory {
        match self {
            OidFault::EmptyString => OidErrorCategory::EmptyString,
            OidFault::LeadingDot => OidErrorCategory::LeadingDot,
            OidFault::TrailingDot => OidErrorCategory::TrailingDot,
            OidFault::ConsecutiveDots => OidErrorCategory::ConsecutiveDots,
            OidFault::LeadingZero { .. } => OidErrorCategory::LeadingZero,
            OidFault::TooFewComponents(_) => OidErrorCategory::TooFewComponents,
            OidFault::InvalidFirstArc(_) => OidErrorCategory::InvalidFirstArc,
            OidFault::InvalidSecondArc { .. } => OidErrorCategory::InvalidSecondArc,
            OidFault::InvalidComponent { .. } => OidErrorCategory::InvalidComponent,
        }
    }
}

impl ParseOidError {
    /// Returns the [`OidErrorCategory`] for this error, allowing callers to
    /// distinguish error kinds programmatically without string matching.
    #[must_use]
    pub fn category(&self) -> (category: OidErrorCategory)
        ensures
            category == self@.category(),
    {
        match &self.kind {
            OidErrorKind::EmptyString => OidErrorCategory::EmptyString,
            OidErrorKind::LeadingDot => OidErrorCategory::LeadingDot,
            OidErrorKind::TrailingDot => OidErrorCategory::TrailingDot,
            OidErrorKind::ConsecutiveDots => OidErrorCategory::ConsecutiveDots,
            OidErrorKind::LeadingZero { .. } => OidErrorCategory::LeadingZero,
            OidErrorKind::TooFewComponents(_) => OidErrorCategory::TooFewComponents,
            OidErrorKind::InvalidFirstArc(_) => OidErrorCategory::InvalidFirstArc,
            OidErrorKind::InvalidSecondArc { .. } => OidErrorCategory::InvalidSecondArc,
            OidErrorKind::InvalidComponent { .. } => OidErrorCategory::InvalidComponent,
        }
    }

    /// Why a component is no number, where that is the error.
    pub fn source(&self) -> (source: Option<ParseArcError>)
        ensures
            source == (match self@ {
                OidFault::InvalidComponent { source, .. } => Some(source),
                _ => None,
            }),
    {
        match &self.kind {
            OidErrorKind::InvalidComponent { source, .. } => Some(*source),
            _ => None,
        }
    }

    /// The message of the error.
    pub fn to_string(&self) -> (out: String)
        ensures
            out@ == self@.text(),
    {
        match &self.kind {
            OidErrorKind::EmptyString => "invalid OID: empty string".to_owned(),
            OidErrorKind::LeadingDot => "invalid OID: leading dot".to_owned(),
            OidErrorKind::TrailingDot => "invalid OID: trailing dot".to_owned(),
            OidErrorKind::ConsecutiveDots => "invalid OID: consecutive dots".to_owned(),
            OidErrorKind::LeadingZero { part } => {
                let quoted = debug_quoted(part.as_str());
                leading_zero_message(quoted.as_str())
            },
            OidErrorKind::TooFewComponents(n) => {
                let mut out =
                    "invalid OID: an OID must have at least two components, got ".to_owned();
                push_decimal(&mut out, *n as u64);
                out
            },
            OidErrorKind::InvalidFirstArc(v) => {
                let mut out =
                    "invalid OID: first OID component must be 0, 1, or 2, got ".to_owned();
                push_decimal(&mut out, *v as u64);
                out
            },
            OidErrorKind::InvalidSecondArc { first, second } => {
                let mut out =
                    "invalid OID: second OID component must be ≤ 39 when first is ".to_owned();
                push_decimal(&mut out, *first as u64);
                out.append(", got ");
                push_decimal(&mut out, *second as u64);
                out
            },
            OidErrorKind::InvalidComponent { part, source } => {
                let quoted = debug_quoted(part.as_str());
                invalid_component_message(quoted.as_str(), *source)
            },
        }
    }
}

// ----- Parsing ---------------------------------------------------------------

fn validate_oid_components(components: &[u32]) -> (result: Result<(), OidErrorKind>)
    ensures
        match (result, structure_outcome(components@)) {
            (Ok(()), Ok(arcs)) => arcs == components@ && valid_arcs(arcs),
            (Err(kind), Err(fault)) => kind.fault() == fault,
            _ => false,
        },
{
    if components.len() < 2 {
        return Err(OidErrorKind::TooFewComponents(components.len()));
    }
    let first: u32 = components[0];
    let second: u32 = components[1];
    if first > 2 {
        return Err(OidErrorKind::InvalidFirstArc(first));
    }
    if first <= 1 && second > 39 {
        return Err(OidErrorKind::InvalidSecondArc { first, second });
    }
    Ok(())
}

fn to_chars(s: &str) -> (chars: Vec<char>)
    ensures
        chars@ == s@,
{
    let mut chars: Vec<char> = Vec::new();
    for c in it: s.chars()
        invariant
            chars@ == it.seq().take(it.index()),
    {
        chars.push(c);
    }
    chars
}

fn parse_components(s: &str) -> (result: Result<Vec<u32>, OidErrorKind>)
    ensures
        match (result, components_outcome(s@)) {
            (Ok(values), Ok(arcs)) => values@ == arcs,
            (Err(kind), Err(fault)) => kind.fault() == fault,
            _ => false,
        },
{
    let chars = to_chars(s);
    let n: usize = chars.len();
    if n == 0 {
        return Err(OidErrorKind::EmptyString);
    }
    if chars[0] == '.' {
        return Err(OidErrorKind::LeadingDot);
    }
    if chars[n - 1] == '.' {
        return Err(OidErrorKind::TrailingDot);
    }
    let mut i: usize = 0;
    while i < n - 1
        invariant
            n == chars@.len(),
            n >= 1,
            i <= n - 1,
            chars@ == s@,
            s@[0] != '.',
            s@.last() != '.',
            forall|j: int| 0 <= j < i ==> !(#[trigger] s@[j] == '.' && s@[j + 1] == '.'),
        decreases n - i,
    {
        if chars[i] == '.' && chars[i + 1] == '.' {
            proof {
                assert(s@[i as int] == '.' && s@[i as int + 1] == '.');
            }
            return Err(OidErrorKind::ConsecutiveDots);
        }
        i += 1;
    }
    let mut values: Vec<u32> = Vec::new();
    let mut start: usize = 0;
    proof {
        assert(s@.skip(0) =~= s@);
        assert(values@ =~= Seq::<u32>::empty());
    }
    loop
        invariant
            n == chars@.len(),
            start <= n,
            chars@ == s@,
            arcs_outcome(values@, s@.skip(start as int)) == components_outcome(s@),
        decreases n - start,
    {
        let mut end: usize = start;
        while end < n && chars[end] != '.'
            invariant
                n == chars@.len(),
                start <= end <= n,
                chars@ == s@,
                dot_index(s@.skip(start as int)) == end - start + dot_index(s@.skip(end as int)),
            decreases n - end,
        {
            proof {
                assert(s@.skip(end as int).skip(1) =~= s@.skip(end as int + 1));
            }
            end += 1;
        }
        let part = s.substring_char(start, end);
        proof {
            assert(part@ =~= s@.skip(start as int).take(end - start));
        }
        match parse_arc(part) {
            Err(kind) => {
                return Err(kind);
            },
            Ok(value) => {
                values.push(value);
                if end == n {
                    return Ok(values);
                }
                proof {
                    assert(s@.skip(start as int).skip(end - start + 1) =~= s@.skip(
                        end as int + 1,
                    ));
                }
                start = end + 1;
            },
        }
    }
}

fn parse_arc(part: &str) -> (result: Result<u32, OidErrorKind>)
    ensures
        match (result, arc_outcome(part@)) {
            (Ok(value), Ok(arc)) => value == arc,
            (Err(kind), Err(fault)) => kind.fault() == fault,
            _ => false,
        },
{
    match parse_number(part) {
        Err(source) => Err(OidErrorKind::InvalidComponent { part: part.to_owned(), source }),
        Ok(value) => if part.unicode_len() > 1 && part.get_char(0) == '0' {
            Err(OidErrorKind::LeadingZero { part: part.to_owned() })
        } else {
            Ok(value)
        },
    }
}

fn parse_number(part: &str) -> (result: Result<u32, ParseArcError>)
    ensures
        result == number_outcome(part@),
{
    let chars = to_chars(part);
    if chars.len() == 0 {
        return Err(ParseArcError::Empty);
    }
    let start: usize = if chars[0] == '+' && chars.len() > 1 {
        1
    } else {
        0
    };
    let ghost digits = part@.skip(start as int);
    proof {
        assert(start == 0 ==> digits =~= part@);
        assert(digits.skip(0) =~= digits);
        assert(digits.take(0) =~= Seq::<char>::empty());
    }
    let mut value: u64 = 0;
    let mut i: usize = start;
    while i < chars.len() && '0' <= chars[i] && chars[i] <= '9'
        invariant
            start <= i <= chars@.len(),
            chars@ == part@,
            digits == part@.skip(start as int),
            number_outcome(part@) == ({
                let run = digit_run(digits) as int;
                if digits_value(digits.take(run)) > u32::MAX {
                    Err::<u32, ParseArcError>(ParseArcError::TooLarge)
                } else if run < digits.len() {
                    Err(ParseArcError::InvalidDigit)
                } else {
                    Ok(digits_value(digits) as u32)
                }
            }),
            digit_run(digits) == i - start + digit_run(digits.skip(i - start)),
            value == digits_value(digits.take(i - start)),
            value <= u32::MAX,
        decreases chars@.len() - i,
    {
        let digit: u64 = (chars[i] as u32 - 48) as u64;
        proof {
            let k = i - start;
            assert(digits.skip(k).skip(1) =~= digits.skip(k + 1));
            assert(digits.take(k + 1).drop_last() =~= digits.take(k));
            lemma_digits_value_grows(digits, (k + 1) as nat, digit_run(digits));
        }
        value = value * 10 + digit;
        if value > u32::MAX as u64 {
            return Err(ParseArcError::TooLarge);
        }
        i += 1;
    }
    proof {
        assert(digit_run(digits.skip(i - start)) == 0);
        if i == chars@.len() {
            assert(digits.take(digits.len() as int) =~= digits);
        }
    }
    if i < chars.len() {
        Err(ParseArcError::InvalidDigit)
    } else {
        Ok(value as u32)
    }
}

proof fn lemma_digit_run_bound(s: Seq<char>)
    ensures
        digit_run(s) <= s.len(),
        forall|i: int| 0 <= i < digit_run(s) ==> is_digit(#[trigger] s[i]),
    decreases s.len(),
{
    if s.len() > 0 && is_digit(s[0]) {
        lemma_digit_run_bound(s.skip(1));
        assert forall|i: int| 0 <= i < digit_run(s) implies is_digit(#[trigger] s[i]) by {
            if i > 0 {
                assert(s.skip(1)[i - 1] == s[i]);
            }
        }
    }
}

proof fn lemma_digits_value_grows(s: Seq<char>, i: nat, j: nat)
    requires
        i <= j <= digit_run(s),
    ensures
        digits_value(s.take(i as int)) <= digits_value(s.take(j as int)),
    decreases j,
{
    lemma_digit_run_bound(s);
    if i < j {
        lemma_digits_value_grows(s, i, (j - 1) as nat);
        assert(s.take(j as int).drop_last() =~= s.take(j - 1));
        assert(is_digit(s[j - 1]));
    }
}

// ----- Reading back the text --------------------------------------------------

/// Whether `s` holds decimal digits only.
spec fn all_digits(s: Seq<char>) -> bool {
    forall|i: int| 0 <= i < s.len() ==> is_digit(#[trigger] s[i])
}

proof fn lemma_decimal(n: nat)
    ensures
        text::decimal(n).len() >= 1,
        all_digits(text::decimal(n)),
        digits_value(text::decimal(n)) == n,
        n > 0 ==> text::decimal(n)[0] != '0',
        n == 0 ==> text::decimal(n).len() == 1,
    decreases n,
{
    reveal_with_fuel(digits_value, 2);
    if n >= 10 {
        lemma_decimal(n / 10);
        assert(text::decimal(n).drop_last() =~= text::decimal(n / 10));
    }
}

proof fn lemma_all_digits_run(s: Seq<char>)
    requires
        all_digits(s),
    ensures
        digit_run(s) == s.len(),
    decreases s.len(),
{
    if s.len() > 0 {
        assert(is_digit(s[0]));
        assert forall|i: int| 0 <= i < s.skip(1).len() implies is_digit(
            #[trigger] s.skip(1)[i],
        ) by {
            assert(is_digit(s[i + 1]));
        }
        lemma_all_digits_run(s.skip(1));
    }
}

proof fn lemma_dot_index(s: Seq<char>, rest: Seq<char>)
    requires
        all_digits(s),
        rest.len() == 0 || rest[0] == '.',
    ensures
        dot_index(s + rest) == s.len(),
    decreases s.len(),
{
    if s.len() == 0 {
        assert(s + rest =~= rest);
    } else {
        assert(is_digit(s[0]));
        assert((s + rest)[0] == s[0]);
        assert forall|i: int| 0 <= i < s.skip(1).len() implies is_digit(
            #[trigger] s.skip(1)[i],
        ) by {
            assert(is_digit(s[i + 1]));
        }
        lemma_dot_index(s.skip(1), rest);
        assert((s + rest).skip(1) =~= s.skip(1) + rest);
    }
}

proof fn lemma_decimal_arc(n: u32)
    ensures
        arc_outcome(text::decimal(n as nat)) == Ok::<u32, OidFault>(n),
{
    let d = text::decimal(n as nat);
    lemma_decimal(n as nat);
    lemma_all_digits_run(d);
    assert(is_digit(d[0]));
    assert(d.take(d.len() as int) =~= d);
}

/// Whether `s` starts and ends with a digit and holds no two consecutive dots.
spec fn dotted_shape(s: Seq<char>) -> bool {
    &&& s.len() >= 1
    &&& is_digit(s[0])
    &&& is_digit(s.last())
    &&& !has_double_dot(s)
}

proof fn lemma_dotted_shape(arcs: Seq<u32>)
    requires
        arcs.len() >= 1,
    ensures
        dotted_shape(dotted(arcs)),
        arcs.len() >= 2 ==> dotted(arcs) == text::decimal(arcs[0] as nat) + "."@ + dotted(arcs.skip(1)),
        arcs.len() == 1 ==> dotted(arcs) == text::decimal(arcs[0] as nat),
    decreases arcs.len(),
{
    reveal_strlit(".");
    let head = text::decimal(arcs[0] as nat);
    lemma_decimal(arcs[0] as nat);
    assert(is_digit(head[0]));
    assert(is_digit(head.last()));
    if arcs.len() == 1 {
        assert(dotted(arcs) =~= head);
        assert forall|i: int| 0 <= i && i + 1 < head.len() implies !(#[trigger] head[i] == '.'
            && head[i + 1] == '.') by {
            assert(is_digit(head[i]));
        }
    } else {
        let rest = dotted(arcs.skip(1));
        lemma_dotted_shape(arcs.skip(1));
        let whole = dotted(arcs);
        assert(whole =~= head + "."@ + rest);
        assert(whole.last() == rest.last());
        assert forall|i: int| 0 <= i && i + 1 < whole.len() implies !(#[trigger] whole[i] == '.'
            && whole[i + 1] == '.') by {
            if i < head.len() {
                assert(is_digit(head[i]));
            } else if i == head.len() {
                assert(whole[i + 1] == rest[0]);
            } else {
                let k = i - head.len() - 1;
                assert(whole[i] == rest[k]);
                assert(whole[i + 1] == rest[k + 1]);
            }
        }
    }
}

proof fn lemma_first_component(arcs: Seq<u32>)
    requires
        arcs.len() >= 1,
    ensures
        ({
            let whole = dotted(arcs);
            let end = dot_index(whole) as int;
            &&& arc_outcome(whole.take(end)) == Ok::<u32, OidFault>(arcs[0])
            &&& arcs.len() == 1 ==> end == whole.len()
            &&& arcs.len() >= 2 ==> end < whole.len() && whole.skip(end + 1) == dotted(arcs.skip(1))
        }),
{
    reveal_strlit(".");
    let head = text::decimal(arcs[0] as nat);
    let whole = dotted(arcs);
    lemma_dotted_shape(arcs);
    lemma_decimal(arcs[0] as nat);
    lemma_decimal_arc(arcs[0]);
    let rest = if arcs.len() == 1 {
        Seq::empty()
    } else {
        "."@ + dotted(arcs.skip(1))
    };
    assert(whole =~= head + rest);
    lemma_dot_index(head, rest);
    assert(whole.take(head.len() as int) =~= head);
    if arcs.len() >= 2 {
        assert(whole.skip(head.len() as int + 1) =~= dotted(arcs.skip(1)));
    }
}

proof fn lemma_dotted_arcs(done: Seq<u32>, arcs: Seq<u32>)
    requires
        arcs.len() >= 1,
    ensures
        arcs_outcome(done, dotted(arcs)) == Ok::<Seq<u32>, OidFault>(done + arcs),
    decreases arcs.len(),
{
    lemma_first_component(arcs);
    if arcs.len() == 1 {
        assert(done.push(arcs[0]) =~= done + arcs);
    } else {
        lemma_dotted_arcs(done.push(arcs[0]), arcs.skip(1));
        assert(done.push(arcs[0]) + arcs.skip(1) =~= done + arcs);
    }
}

/// The dotted-decimal text of an OID parses back to the same OID.
pub proof fn law_dotted_round_trip(arcs: Seq<u32>)
    requires
        valid_arcs(arcs),
    ensures
        dotted_outcome(dotted(arcs)) == Ok::<Seq<u32>, OidFault>(arcs),
{
    lemma_dotted_shape(arcs);
    lemma_dotted_arcs(Seq::empty(), arcs);
    assert(Seq::<u32>::empty() + arcs =~= arcs);
}

/// What parses is a valid OID.
pub proof fn law_parsed_is_valid(s: Seq<char>)
    ensures
        dotted_outcome(s) matches Ok(arcs) ==> valid_arcs(arcs),
{
}

proof fn lemma_digits_canonical(s: Seq<char>)
    requires
        s.len() >= 1,
        all_digits(s),
        s.len() == 1 || s[0] != '0',
    ensures
        text::decimal(digits_value(s)) == s,
        s[0] != '0' ==> digits_value(s) >= 1,
    decreases s.len(),
{
    reveal_with_fuel(digits_value, 2);
    let front = s.drop_last();
    assert(is_digit(s[0]));
    assert(is_digit(s[s.len() - 1]));
    if s.len() == 1 {
        assert(front =~= Seq::<char>::empty());
        assert(text::decimal(digits_value(s)) =~= s);
    } else {
        assert forall|i: int| 0 <= i < front.len() implies is_digit(#[trigger] front[i]) by {
            assert(is_digit(s[i]));
        }
        lemma_digits_canonical(front);
        let n = digits_value(s);
        assert(n / 10 == digits_value(front));
        assert(text::decimal(n) =~= s);
    }
}

proof fn lemma_arc_canonical(part: Seq<char>)
    requires
        forall|i: int| 0 <= i < part.len() ==> #[trigger] part[i] != '+',
    ensures
        arc_outcome(part) matches Ok(arc) ==> text::decimal(arc as nat) == part,
{
    if arc_outcome(part) is Ok {
        lemma_digit_run_bound(part);
        assert(part[0] != '+');
        assert(part.take(part.len() as int) =~= part);
        lemma_digits_canonical(part);
    }
}

proof fn lemma_dot_found(s: Seq<char>)
    ensures
        dot_index(s) <= s.len(),
        dot_index(s) < s.len() ==> s[dot_index(s) as int] == '.',
    decreases s.len(),
{
    if s.len() > 0 && s[0] != '.' {
        lemma_dot_found(s.skip(1));
    }
}

proof fn lemma_arcs_canonical(done: Seq<u32>, s: Seq<char>)
    requires
        forall|i: int| 0 <= i < s.len() ==> #[trigger] s[i] != '+',
    ensures
        arcs_outcome(done, s) matches Ok(arcs) ==> arcs.len() > done.len() && arcs.take(
            done.len() as int,
        ) == done && dotted(arcs.skip(done.len() as int)) == s,
    decreases s.len(),
{
    if let Ok(arcs) = arcs_outcome(done, s) {
        let end = dot_index(s) as int;
        let part = s.take(end);
        lemma_dot_found(s);
        assert forall|i: int| 0 <= i < part.len() implies #[trigger] part[i] != '+' by {
            assert(s[i] != '+');
        }
        lemma_arc_canonical(part);
        let arc = arc_outcome(part)->Ok_0;
        let own = arcs.skip(done.len() as int);
        if end >= s.len() {
            assert(part =~= s);
            assert(arcs.take(done.len() as int) =~= done);
            assert(own =~= seq![arc]);
            assert(own.skip(1) =~= Seq::<u32>::empty());
            assert(dotted(own) =~= s);
        } else {
            reveal_strlit(".");
            let rest = s.skip(end + 1);
            let longer = done.push(arc);
            assert forall|i: int| 0 <= i < rest.len() implies #[trigger] rest[i] != '+' by {
                assert(s[i + end + 1] != '+');
            }
            lemma_arcs_canonical(longer, rest);
            assert(arcs.take(longer.len() as int).drop_last() =~= arcs.take(done.len() as int));
            assert(longer.drop_last() =~= done);
            assert(own[0] == arcs.take(longer.len() as int)[done.len() as int]);
            assert(own.skip(1) =~= arcs.skip(longer.len() as int));
            assert(dotted_tail(own.skip(1)) =~= "."@ + dotted(own.skip(1)));
            assert(s =~= part + "."@ + rest);
            assert(dotted(own) =~= s);
        }
    }
}

/// The only text without a plus sign that parses to an OID is the dotted-decimal text of
/// that OID.
pub proof fn law_dotted_canonical(s: Seq<char>)
    requires
        forall|i: int| 0 <= i < s.len() ==> #[trigger] s[i] != '+',
    ensures
        dotted_outcome(s) matches Ok(arcs) ==> dotted(arcs) == s,
{
    lemma_arcs_canonical(Seq::empty(), s);
    if let Ok(arcs) = dotted_outcome(s) {
        assert(arcs.skip(0) =~= arcs);
    }
}

/// Arcs are accepted as they are exactly when there are at least two of them, the first is
/// 0, 1 or 2, and the second is at most 39 unless the first is 2. Otherwise the error names
/// the first rule that is broken and the arcs that break it.
pub proof fn law_structure(arcs: Seq<u32>)
    ensures
        match structure_outcome(arcs) {
            Ok(accepted) => accepted == arcs && arcs.len() >= 2 && (arcs[0] == 2 || (arcs[0] < 2
                && arcs[1] < 40)),
            Err(OidFault::TooFewComponents(count)) => arcs.len() < 2 && count == arcs.len(),
            Err(OidFault::InvalidFirstArc(first)) => arcs.len() >= 2 && first == arcs[0] && first
                > 2,
            Err(OidFault::InvalidSecondArc { first, second }) => arcs.len() >= 2 && first == arcs[0]
                && second == arcs[1] && first < 2 && second >= 40,
            Err(_) => false,
        },
        valid_arcs(arcs) <==> structure_outcome(arcs) is Ok,
{
}

/// The text of the arcs stands between dots, in order.
pub proof fn law_dotted(arcs: Seq<u32>, next: u32)
    requires
        arcs.len() >= 1,
    ensures
        arcs.len() == 1 ==> dotted(arcs) == text::decimal(arcs[0] as nat),
        dotted(arcs.push(next)) == dotted(arcs) + seq!['.'] + text::decimal(next as nat),
    decreases arcs.len(),
{
    reveal_strlit(".");
    assert("."@ =~= seq!['.']);
    lemma_dotted_shape(arcs);
    let longer = arcs.push(next);
    lemma_dotted_shape(longer);
    if arcs.len() == 1 {
        assert(longer.skip(1) =~= seq![next]);
        lemma_dotted_shape(seq![next]);
        assert(dotted(longer) =~= dotted(arcs) + seq!['.'] + text::decimal(next as nat));
    } else {
        law_dotted(arcs.skip(1), next);
        assert(longer.skip(1) =~= arcs.skip(1).push(next));
        assert(dotted(longer) =~= dotted(arcs) + seq!['.'] + text::decimal(next as nat));
    }
}

proof fn lemma_proper_prefix(a: Seq<u32>, b: Seq<u32>)
    requires
        a.is_prefix_of(b),
        a != b,
    ensures
        lex_less(a, b),
{
    let more = b.skip(a.len() as int);
    assert(a + more =~= b);
    if more.len() == 0 {
        assert(a =~= b);
    }
    law_prefix_first(a, more);
}

/// Two OIDs compare as their arcs sort: the one with the numerically smaller arc at the
/// first position where they differ is less, a proper prefix is less than what continues
/// it, and only OIDs with the same arcs are equal.
pub proof fn law_comparison(a: Oid, b: Oid)
    ensures
        PartialEqSpec::eq_spec(&a, &b) <==> a@ == b@,
        PartialOrdSpec::partial_cmp_spec(&a, &b) == Some(Ordering::Equal) <==> a@ == b@,
        PartialOrdSpec::partial_cmp_spec(&a, &b) == Some(Ordering::Less) <==> lex_less(a@, b@),
        PartialOrdSpec::partial_cmp_spec(&a, &b) == Some(Ordering::Greater) <==> lex_less(b@, a@),
        forall|i: int|
            #![trigger a@[i]]
            0 <= i < a@.len() && i < b@.len() && a@.take(i) == b@.take(i) && a@[i] < b@[i]
                ==> PartialOrdSpec::partial_cmp_spec(&a, &b) == Some(Ordering::Less) && PartialOrdSpec::partial_cmp_spec(&b, &a) == Some(
                Ordering::Greater,
            ),
        a@.is_prefix_of(b@) && a@ != b@ ==> PartialOrdSpec::partial_cmp_spec(&a, &b) == Some(Ordering::Less)
            && PartialOrdSpec::partial_cmp_spec(&b, &a) == Some(Ordering::Greater),
{
    law_order_total(a@, b@);
    assert forall|i: int|
        #![trigger a@[i]]
        0 <= i < a@.len() && i < b@.len() && a@.take(i) == b@.take(i) && a@[i] < b@[i]
        implies lex_less(a@, b@) by {
        law_smaller_arc_first(a@.take(i), a@[i], b@[i], a@.skip(i + 1), b@.skip(i + 1));
        assert(a@.take(i) + seq![a@[i]] + a@.skip(i + 1) =~= a@);
        assert(b@.take(i) + seq![b@[i]] + b@.skip(i + 1) =~= b@);
    }
    if a@.is_prefix_of(b@) && a@ != b@ {
        lemma_proper_prefix(a@, b@);
    }
}

/// A result agrees with what is prescribed only if it holds the same arcs or the same fault.
pub proof fn law_parse_results(
    result: Result<Oid, ParseOidError>,
    outcome: Result<Seq<u32>, OidFault>,
)
    requires
        parse_agrees(result, outcome),
    ensures
        match result {
            Ok(oid) => outcome == Ok::<Seq<u32>, OidFault>(oid@),
            Err(error) => outcome == Err::<Seq<u32>, OidFault>(error@),
        },
{
}

/// The text that [`Oid::to_string`] gives for an OID is parsed by [`Oid::parse_dotted`] as
/// the same OID, and a text that is parsed is, unless it holds a plus sign, what
/// [`Oid::to_string`] gives back.
pub proof fn law_text_of_oid(
    oid: &Oid,
    shown: String,
    s: &str,
    parsed: Result<Oid, ParseOidError>,
)
    requires
        call_ensures(Oid::to_string, (oid,), shown),
        call_ensures(Oid::parse_dotted, (s,), parsed),
        valid_arcs(oid@),
    ensures
        s@ == shown@ ==> (parsed matches Ok(back) && back@ == oid@),
        parsed matches Ok(back) ==> (back@ == oid@ && (forall|i: int|
            0 <= i < s@.len() ==> #[trigger] s@[i] != '+') ==> s@ == shown@),
{
    law_dotted_round_trip(oid@);
    if parsed is Ok && parsed->Ok_0@ == oid@ && (forall|i: int|
        0 <= i < s@.len() ==> #[trigger] s@[i] != '+') {
        law_dotted_canonical(s@);
    }
}

} // verus!
