//! The MIB store: values keyed by OID, in lexicographic OID order.
//!
//! The store answers point lookups (GET) and asks for the next OID (GETNEXT and GETBULK).
//! An entry is permanent once it is set: there is no way to remove one.

use vstd::prelude::*;
use crate::codec::oid;
use crate::codec::oid::{precedes, Oid};
use crate::codec::value::{Value, ValueView};

verus! {

// ----- Model -------------------------------------------------------------------------

/// Whether `key` is the smallest key of `entries` that is greater than `start`.
pub open spec fn is_next(
    entries: Map<Seq<u32>, ValueView>,
    start: Seq<u32>,
    key: Seq<u32>,
) -> bool {
    &&& entries.dom().contains(key)
    &&& oid::lex_less(start, key)
    &&& forall|other: Seq<u32>| #[trigger]
        entries.dom().contains(other) && oid::lex_less(start, other) ==> other == key
            || oid::lex_less(key, other)
}

/// The keys of `entries` that are greater than `start`.
pub open spec fn later_keys(entries: Map<Seq<u32>, ValueView>, start: Seq<u32>) -> Set<Seq<u32>> {
    entries.dom().filter(|key: Seq<u32>| oid::lex_less(start, key))
}

spec fn has_key(entries: Seq<(Oid, Value)>, key: Seq<u32>) -> bool {
    exists|i: int| 0 <= i < entries.len() && (#[trigger] entries[i]).0@ == key
}

spec fn entry_map(entries: Seq<(Oid, Value)>) -> Map<Seq<u32>, ValueView> {
    Map::new(
        |key: Seq<u32>| has_key(entries, key),
        |key: Seq<u32>|
            entries[choose|i: int| 0 <= i < entries.len() && (#[trigger] entries[i]).0@ == key].1@,
    )
}

spec fn sorted(entries: Seq<(Oid, Value)>) -> bool {
    forall|i: int, j: int|
        0 <= i < j < entries.len() ==> oid::lex_less(
            (#[trigger] entries[i]).0@,
            (#[trigger] entries[j]).0@,
        )
}

proof fn lemma_entry(entries: Seq<(Oid, Value)>, i: int)
    requires
        sorted(entries),
        0 <= i < entries.len(),
    ensures
        entry_map(entries).dom().contains(entries[i].0@),
        entry_map(entries)[entries[i].0@] == entries[i].1@,
{
    let key = entries[i].0@;
    let j = choose|j: int| 0 <= j < entries.len() && (#[trigger] entries[j]).0@ == key;
    oid::law_order_total(key, key);
    assert(has_key(entries, key));
    if i < j {
        assert(oid::lex_less(entries[i].0@, entries[j].0@));
    } else if j < i {
        assert(oid::lex_less(entries[j].0@, entries[i].0@));
    }
}

// ----- The store ---------------------------------------------------------------------

/// An OID-keyed value store that preserves lexicographic ordering.
///
/// Its view is the map from the arcs of each OID to the value that is bound to it.
///
/// No way to remove an entry is offered: once an OID is set it is permanent.
pub struct Store {
    entries: Vec<(Oid, Value)>,
}

impl View for Store {
    type V = Map<Seq<u32>, ValueView>;

    closed spec fn view(&self) -> Map<Seq<u32>, ValueView> {
        entry_map(self.entries@)
    }
}

impl Store {
    #[verifier::type_invariant]
    spec fn ordered(self) -> bool {
        sorted(self.entries@)
    }

    /// Creates an empty `Store`.
    #[must_use]
    pub fn new() -> (store: Self)
        ensures
            store@ == Map::<Seq<u32>, ValueView>::empty(),
    {
        let store = Store { entries: Vec::new() };
        proof {
            assert(store@ =~= Map::<Seq<u32>, ValueView>::empty());
        }
        store
    }

    /// The number of entries whose OID is at most `oid` if `inclusive`, and below `oid`
    /// otherwise: they are the first ones.
    fn position(&self, oid: &Oid, inclusive: bool) -> (at: usize)
        ensures
            at <= self.entries@.len(),
            forall|i: int|
                0 <= i < at ==> oid::lex_less((#[trigger] self.entries@[i]).0@, oid@) || (inclusive
                    && self.entries@[i].0@ == oid@),
            forall|i: int|
                at <= i < self.entries@.len() ==> oid::lex_less(
                    oid@,
                    (#[trigger] self.entries@[i]).0@,
                ) || (!inclusive && self.entries@[i].0@ == oid@),
    {
        proof {
            use_type_invariant(self);
        }
        let mut low: usize = 0;
        let mut high: usize = self.entries.len();
        while low < high
            invariant
                low <= high <= self.entries@.len(),
                sorted(self.entries@),
                forall|i: int|
                    0 <= i < low ==> oid::lex_less((#[trigger] self.entries@[i]).0@, oid@) || (
                    inclusive && self.entries@[i].0@ == oid@),
                forall|i: int|
                    high <= i < self.entries@.len() ==> oid::lex_less(
                        oid@,
                        (#[trigger] self.entries@[i]).0@,
                    ) || (!inclusive && self.entries@[i].0@ == oid@),
            decreases high - low,
        {
            let middle: usize = low + (high - low) / 2;
            let key = &self.entries[middle].0;
            let first_part = if inclusive {
                !precedes(oid.as_slice(), key.as_slice())
            } else {
                precedes(key.as_slice(), oid.as_slice())
            };
            proof {
                let at_middle = self.entries@[middle as int].0@;
                oid::law_order_total(at_middle, oid@);
                oid::law_order_total(oid@, oid@);
                assert forall|i: int| 0 <= i < middle && oid::lex_less(at_middle, oid@)
                    implies oid::lex_less((#[trigger] self.entries@[i]).0@, oid@) by {
                    oid::law_order_transitive(self.entries@[i].0@, at_middle, oid@);
                }
                assert forall|i: int|
                    middle < i < self.entries@.len() && oid::lex_less(oid@, at_middle)
                    implies oid::lex_less(oid@, (#[trigger] self.entries@[i]).0@) by {
                    oid::law_order_transitive(oid@, at_middle, self.entries@[i].0@);
                }
                assert forall|i: int| 0 <= i < middle implies oid::lex_less(
                    (#[trigger] self.entries@[i]).0@,
                    at_middle,
                ) by {}
                assert forall|i: int| middle < i < self.entries@.len() implies oid::lex_less(
                    at_middle,
                    (#[trigger] self.entries@[i]).0@,
                ) by {}
            }
            if first_part {
                low = middle + 1;
            } else {
                high = middle;
            }
        }
        low
    }

    /// Inserts or updates the value bound to `oid`.
    ///
    /// If `oid` is already present, its value is replaced. If it is absent, a new entry
    /// is created. All other entries stay as they are.
    pub fn set(&mut self, oid: Oid, value: Value)
        ensures
            final(self)@ == old(self)@.insert(oid@, value@),
    {
        let at: usize = self.position(&oid, false);
        let ghost before = self.entries@;
        let ghost key = oid@;
        proof {
            use_type_invariant(&*self);
            oid::law_order_total(key, key);
        }
        let mut entries: Vec<(Oid, Value)> = Vec::new();
        std::mem::swap(&mut entries, &mut self.entries);
        let present = at < entries.len() && !precedes(
            oid.as_slice(),
            entries[at].0.as_slice(),
        );
        if present {
            entries[at] = (oid, value);
        } else {
            entries.insert(at, (oid, value));
        }
        proof {
            if present {
                lemma_replaced(before, at as int, entries@[at as int]);
            } else {
                assert forall|i: int| at <= i < before.len() implies oid::lex_less(
                    key,
                    (#[trigger] before[i]).0@,
                ) by {
                    if i > at {
                        assert(oid::lex_less(before[at as int].0@, before[i].0@));
                        oid::law_order_transitive(key, before[at as int].0@, before[i].0@);
                    }
                }
                lemma_inserted(before, at as int, entries@[at as int]);
            }
        }
        self.entries = entries;
    }

    /// Returns the value bound to `oid`, or `None` if no entry exists.
    ///
    /// Corresponds to the SNMP GET operation.
    #[must_use]
    pub fn get(&self, oid: &Oid) -> (value: Option<&Value>)
        ensures
            match value {
                Some(bound) => self@.dom().contains(oid@) && bound@ == self@[oid@],
                None => !self@.dom().contains(oid@),
            },
    {
        proof {
            use_type_invariant(self);
            oid::law_order_total(oid@, oid@);
        }
        let at: usize = self.position(oid, false);
        if at < self.entries.len() && !precedes(oid.as_slice(), self.entries[at].0.as_slice()) {
            proof {
                lemma_entry(self.entries@, at as int);
                assert(self.entries@[at as int].0@ == oid@);
            }
            Some(&self.entries[at].1)
        } else {
            proof {
                let entries = self.entries@;
                if has_key(entries, oid@) {
                    let i = choose|i: int|
                        0 <= i < entries.len() && (#[trigger] entries[i]).0@ == oid@;
                    assert(i > at);
                    assert(oid::lex_less(entries[at as int].0@, entries[i].0@));
                    oid::law_order_transitive(oid@, entries[at as int].0@, entries[i].0@);
                }
            }
            None
        }
    }

    /// Returns the entry with the smallest OID strictly greater than `oid`.
    ///
    /// Returns `None` if `oid` is greater than or equal to every key in the store.
    /// Corresponds to the SNMP GETNEXT operation.
    #[must_use]
    pub fn next(&self, oid: &Oid) -> (entry: Option<(&Oid, &Value)>)
        ensures
            match entry {
                Some((key, bound)) => is_next(self@, oid@, key@) && bound@ == self@[key@],
                None => later_keys(self@, oid@) == Set::<Seq<u32>>::empty(),
            },
    {
        proof {
            use_type_invariant(self);
        }
        let at: usize = self.position(oid, true);
        if at < self.entries.len() {
            proof {
                let entries = self.entries@;
                let key = entries[at as int].0@;
                lemma_entry(entries, at as int);
                assert forall|other: Seq<u32>| #[trigger]
                    self@.dom().contains(other) && oid::lex_less(oid@, other) implies other == key
                    || oid::lex_less(key, other) by {
                    let i = choose|i: int|
                        0 <= i < entries.len() && (#[trigger] entries[i]).0@ == other;
                    assert(has_key(entries, other));
                    oid::law_order_total(oid@, other);
                    if i > at {
                        assert(oid::lex_less(entries[at as int].0@, entries[i].0@));
                    }
                }
            }
            Some((&self.entries[at].0, &self.entries[at].1))
        } else {
            proof {
                let entries = self.entries@;
                assert forall|other: Seq<u32>| !(#[trigger] later_keys(self@, oid@).contains(other)) by {
                    if self@.dom().contains(other) {
                        let i = choose|i: int|
                            0 <= i < entries.len() && (#[trigger] entries[i]).0@ == other;
                        assert(has_key(entries, other));
                        oid::law_order_total(oid@, other);
                    }
                }
                assert(later_keys(self@, oid@) =~= Set::<Seq<u32>>::empty());
            }
            None
        }
    }
}

impl Default for Store {
    fn default() -> (store: Self)
        ensures
            store@ == Map::<Seq<u32>, ValueView>::empty(),
    {
        Self::new()
    }
}

proof fn lemma_replaced(entries: Seq<(Oid, Value)>, at: int, entry: (Oid, Value))
    requires
        sorted(entries),
        0 <= at < entries.len(),
        entries[at].0@ == entry.0@,
    ensures
        sorted(entries.update(at, entry)),
        entry_map(entries.update(at, entry)) == entry_map(entries).insert(entry.0@, entry.1@),
{
    let changed = entries.update(at, entry);
    let before = entry_map(entries);
    let after = entry_map(changed);
    assert(sorted(changed)) by {
        assert forall|i: int, j: int| 0 <= i < j < changed.len() implies oid::lex_less(
            (#[trigger] changed[i]).0@,
            (#[trigger] changed[j]).0@,
        ) by {
            assert(oid::lex_less(entries[i].0@, entries[j].0@));
        }
    }
    assert forall|key: Seq<u32>| #[trigger]
        after.dom().contains(key) == before.insert(entry.0@, entry.1@).dom().contains(key) by {
        if has_key(entries, key) {
            let i = choose|i: int| 0 <= i < entries.len() && (#[trigger] entries[i]).0@ == key;
            assert(changed[i].0@ == key);
        }
        if has_key(changed, key) {
            let i = choose|i: int| 0 <= i < changed.len() && (#[trigger] changed[i]).0@ == key;
            assert(entries[i].0@ == key);
        }
        assert(changed[at].0@ == entry.0@);
    }
    assert forall|key: Seq<u32>| after.dom().contains(key) implies #[trigger] after[key]
        == before.insert(entry.0@, entry.1@)[key] by {
        assert(has_key(changed, key));
        let i = choose|i: int| 0 <= i < changed.len() && (#[trigger] changed[i]).0@ == key;
        lemma_entry(changed, i);
        lemma_entry(entries, i);
        lemma_entry(changed, at);
        if i == at {
            assert(key == entry.0@);
        } else {
            oid::law_order_total(key, entry.0@);
            if i < at {
                assert(oid::lex_less(entries[i].0@, entries[at].0@));
            } else {
                assert(oid::lex_less(entries[at].0@, entries[i].0@));
            }
        }
    }
    assert(after =~= before.insert(entry.0@, entry.1@));
}

proof fn lemma_inserted(entries: Seq<(Oid, Value)>, at: int, entry: (Oid, Value))
    requires
        sorted(entries),
        0 <= at <= entries.len(),
        forall|i: int| 0 <= i < at ==> oid::lex_less((#[trigger] entries[i]).0@, entry.0@),
        forall|i: int|
            at <= i < entries.len() ==> oid::lex_less(entry.0@, (#[trigger] entries[i]).0@),
    ensures
        sorted(entries.insert(at, entry)),
        entry_map(entries.insert(at, entry)) == entry_map(entries).insert(entry.0@, entry.1@),
{
    let changed = entries.insert(at, entry);
    let before = entry_map(entries);
    let after = entry_map(changed);
    assert(sorted(changed)) by {
        assert forall|i: int, j: int| 0 <= i < j < changed.len() implies oid::lex_less(
            (#[trigger] changed[i]).0@,
            (#[trigger] changed[j]).0@,
        ) by {
            let old_i = if i < at { i } else { i - 1 };
            let old_j = if j < at { j } else { j - 1 };
            if i != at {
                assert(changed[i] == entries[old_i]);
            }
            if j != at {
                assert(changed[j] == entries[old_j]);
            }
        }
    }
    assert forall|key: Seq<u32>| #[trigger]
        after.dom().contains(key) == before.insert(entry.0@, entry.1@).dom().contains(key) by {
        if has_key(entries, key) {
            let i = choose|i: int| 0 <= i < entries.len() && (#[trigger] entries[i]).0@ == key;
            assert(changed[if i < at { i } else { i + 1 }].0@ == key);
        }
        if has_key(changed, key) {
            let i = choose|i: int| 0 <= i < changed.len() && (#[trigger] changed[i]).0@ == key;
            if i != at {
                assert(entries[if i < at { i } else { i - 1 }].0@ == key);
            }
        }
        assert(changed[at].0@ == entry.0@);
    }
    assert forall|key: Seq<u32>| after.dom().contains(key) implies #[trigger] after[key]
        == before.insert(entry.0@, entry.1@)[key] by {
        assert(has_key(changed, key));
        let i = choose|i: int| 0 <= i < changed.len() && (#[trigger] changed[i]).0@ == key;
        lemma_entry(changed, i);
        oid::law_order_total(key, entry.0@);
        if i == at {
            assert(key == entry.0@);
        } else {
            let old_i = if i < at { i } else { i - 1 };
            lemma_entry(entries, old_i);
            assert(changed[i] == entries[old_i]);
        }
    }
    assert(after =~= before.insert(entry.0@, entry.1@));
}

// ----- Laws --------------------------------------------------------------------------

/// A value that was set is the one bound to its OID, every other OID keeps what it was
/// bound to, and nothing is ever unbound.
pub proof fn law_set_then_get(
    entries: Map<Seq<u32>, ValueView>,
    key: Seq<u32>,
    value: ValueView,
    other: Seq<u32>,
)
    ensures
        entries.insert(key, value).dom().contains(key),
        entries.insert(key, value)[key] == value,
        other != key ==> entries.insert(key, value).dom().contains(other)
            == entries.dom().contains(other),
        other != key && entries.dom().contains(other) ==> entries.insert(key, value)[other]
            == entries[other],
        entries.dom().subset_of(entries.insert(key, value).dom()),
{
}

/// There is at most one next key.
pub proof fn law_next_unique(
    entries: Map<Seq<u32>, ValueView>,
    start: Seq<u32>,
    a: Seq<u32>,
    b: Seq<u32>,
)
    requires
        is_next(entries, start, a),
        is_next(entries, start, b),
    ensures
        a == b,
{
    oid::law_order_total(a, b);
}

/// Going from a key to the next one leaves exactly that one behind. A walk by `next`
/// therefore visits every later key once, in ascending order, and ends after the last.
pub proof fn law_walk_visits_each_once(
    entries: Map<Seq<u32>, ValueView>,
    start: Seq<u32>,
    key: Seq<u32>,
)
    requires
        is_next(entries, start, key),
    ensures
        later_keys(entries, start).contains(key),
        later_keys(entries, key) == later_keys(entries, start).remove(key),
{
    assert forall|other: Seq<u32>| #[trigger]
        later_keys(entries, key).contains(other) == later_keys(entries, start).remove(key).contains(
            other,
        ) by {
        oid::law_order_total(key, other);
        if entries.dom().contains(other) && oid::lex_less(key, other) {
            oid::law_order_transitive(start, key, other);
        }
    }
    assert(later_keys(entries, key) =~= later_keys(entries, start).remove(key));
}

/// The next key is the same from every OID between the start and that key, whether or
/// not the store holds it.
pub proof fn law_next_between(
    entries: Map<Seq<u32>, ValueView>,
    start: Seq<u32>,
    between: Seq<u32>,
    key: Seq<u32>,
)
    requires
        is_next(entries, start, key),
        oid::lex_less(start, between),
        oid::lex_less(between, key),
    ensures
        is_next(entries, between, key),
        !entries.dom().contains(between),
{
    oid::law_order_total(between, key);
    assert forall|other: Seq<u32>| #[trigger]
        entries.dom().contains(other) && oid::lex_less(between, other) implies other == key
        || oid::lex_less(key, other) by {
        oid::law_order_transitive(start, between, other);
    }
}

/// The later keys are those that sort behind the start, and there is a next key exactly when
/// there is a later one: no later key is passed over.
pub proof fn law_next_is_least(
    entries: Map<Seq<u32>, ValueView>,
    start: Seq<u32>,
    key: Seq<u32>,
    other: Seq<u32>,
)
    ensures
        later_keys(entries, start).contains(other) <==> entries.dom().contains(other)
            && oid::lex_less(start, other),
        is_next(entries, start, key) ==> entries.dom().contains(key) && oid::lex_less(start, key),
        is_next(entries, start, key) && oid::lex_less(start, other) && oid::lex_less(other, key)
            ==> !entries.dom().contains(other),
        entries.dom().contains(key) && oid::lex_less(start, key) && (forall|k: Seq<u32>|
            oid::lex_less(start, k) && oid::lex_less(k, key) ==> !#[trigger] entries.dom().contains(
                k,
            )) ==> is_next(entries, start, key),
{
    oid::law_order_total(key, other);
    if entries.dom().contains(key) && oid::lex_less(start, key) && (forall|k: Seq<u32>|
        oid::lex_less(start, k) && oid::lex_less(k, key) ==> !#[trigger] entries.dom().contains(k)) {
        assert forall|k: Seq<u32>| #[trigger]
            entries.dom().contains(k) && oid::lex_less(start, k) implies k == key
            || oid::lex_less(key, k) by {
            oid::law_order_total(key, k);
        }
    }
}

/// A key that is set between the start and what was the next key is the next key from then
/// on; one that is set before the start or behind the next key changes nothing.
pub proof fn law_next_after_set(
    entries: Map<Seq<u32>, ValueView>,
    start: Seq<u32>,
    next: Seq<u32>,
    key: Seq<u32>,
    value: ValueView,
)
    requires
        is_next(entries, start, next),
    ensures
        oid::lex_less(start, key) && oid::lex_less(key, next) ==> is_next(
            entries.insert(key, value),
            start,
            key,
        ),
        !oid::lex_less(start, key) || !oid::lex_less(key, next) ==> is_next(
            entries.insert(key, value),
            start,
            next,
        ),
{
    let after = entries.insert(key, value);
    oid::law_order_total(key, next);
    oid::law_order_total(start, key);
    if oid::lex_less(start, key) && oid::lex_less(key, next) {
        assert forall|other: Seq<u32>| #[trigger]
            after.dom().contains(other) && oid::lex_less(start, other) implies other == key
            || oid::lex_less(key, other) by {
            if other != key {
                assert(entries.dom().contains(other));
                if other != next {
                    oid::law_order_transitive(key, next, other);
                }
            }
        }
    } else {
        assert forall|other: Seq<u32>| #[trigger]
            after.dom().contains(other) && oid::lex_less(start, other) implies other == next
            || oid::lex_less(next, other) by {
            if other != key {
                assert(entries.dom().contains(other));
            }
        }
    }
}

} // verus!
