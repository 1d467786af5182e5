//! A map keyed by names, kept in the order of names.
//!
//! The entries lie in a vector, strictly ascending by the spelling of their
//! names, so that no name occurs twice and the map is walked in the same order
//! whatever the order in which it was filled.

use vstd::prelude::*;
use crate::order::compare;
use crate::order::lemma_precedes_asymmetric;
use crate::order::lemma_precedes_irreflexive;
use crate::order::lemma_precedes_total;
use crate::order::lemma_precedes_transitive;
use crate::order::precedes;
use crate::order::Rank;

verus! {

/// A name backed by a string: the key of a `NameMap`.
pub trait Name: Sized {
    /// The characters of the name.
    spec fn spelling(&self) -> Seq<char>;

    /// The name as text.
    fn as_str(&self) -> (text: &str)
        ensures
            text@ == self.spelling(),
    ;

    /// A second name with the same spelling.
    fn duplicate(&self) -> (copy: Self)
        ensures
            copy.spelling() == self.spelling(),
    ;
}

/// The entries stand in the order of their names, each name before the next.
pub open spec fn ascending<V>(entries: Seq<(Seq<char>, V)>) -> bool {
    forall|i: int, j: int|
        0 <= i < j < entries.len() ==> precedes(#[trigger] entries[i].0, #[trigger] entries[j].0)
}

/// `at` splits the entries into those whose names come before `name` and
/// those whose names do not.
pub open spec fn fits_at<V>(entries: Seq<(Seq<char>, V)>, name: Seq<char>, at: int) -> bool {
    &&& 0 <= at <= entries.len()
    &&& forall|i: int| 0 <= i < at ==> precedes(#[trigger] entries[i].0, name)
    &&& forall|i: int| at <= i < entries.len() ==> !precedes(#[trigger] entries[i].0, name)
}

/// The place of `name` among the entries: the number of entries whose names
/// come before it.
pub open spec fn slot<V>(entries: Seq<(Seq<char>, V)>, name: Seq<char>) -> int {
    choose|at: int| fits_at(entries, name, at)
}

/// Whether an entry with the name `name` lies at the place of that name.
pub open spec fn holds<V>(entries: Seq<(Seq<char>, V)>, name: Seq<char>) -> bool {
    let at = slot(entries, name);
    0 <= at < entries.len() && entries[at].0 == name
}

/// The value stored under `name`, if there is one.
pub open spec fn lookup<V>(entries: Seq<(Seq<char>, V)>, name: Seq<char>) -> Option<V> {
    if holds(entries, name) {
        Some(entries[slot(entries, name)].1)
    } else {
        None
    }
}

/// The entries after `value` was stored under `name`: the entry of that name
/// replaced, or a new entry put at the place of the name.
pub open spec fn with_entry<V>(entries: Seq<(Seq<char>, V)>, name: Seq<char>, value: V) -> Seq<
    (Seq<char>, V),
> {
    let at = slot(entries, name);
    if holds(entries, name) {
        entries.update(at, (name, value))
    } else {
        entries.insert(at, (name, value))
    }
}

/// The entries of a vector, each key taken by its spelling.
pub open spec fn named<K: Name, V>(entries: Seq<(K, V)>) -> Seq<(Seq<char>, V)> {
    entries.map_values(|entry: (K, V)| (entry.0.spelling(), entry.1))
}

/// At most one position splits the entries around a name.
pub proof fn lemma_fit_is_unique<V>(entries: Seq<(Seq<char>, V)>, name: Seq<char>, at: int)
    requires
        fits_at(entries, name, at),
    ensures
        slot(entries, name) == at,
{
    let other = slot(entries, name);
    assert(fits_at(entries, name, other));
    if other < at {
        assert(precedes(entries[other].0, name));
    } else if at < other {
        assert(precedes(entries[at].0, name));
    }
}

/// In ascending entries every name has a place.
pub proof fn lemma_fit_exists<V>(entries: Seq<(Seq<char>, V)>, name: Seq<char>)
    requires
        ascending(entries),
    ensures
        fits_at(entries, name, slot(entries, name)),
    decreases entries.len(),
{
    if entries.len() == 0 {
        assert(fits_at(entries, name, 0));
    } else {
        let last = entries.len() - 1;
        let front = entries.drop_last();
        assert(ascending(front)) by {
            assert forall|i: int, j: int| 0 <= i < j < front.len() implies precedes(
                #[trigger] front[i].0,
                #[trigger] front[j].0,
            ) by {
                assert(front[i] == entries[i] && front[j] == entries[j]);
            }
        }
        lemma_fit_exists(front, name);
        let at = slot(front, name);
        if precedes(entries[last].0, name) {
            assert(fits_at(entries, name, last + 1)) by {
                assert forall|i: int| 0 <= i < last + 1 implies precedes(
                    #[trigger] entries[i].0,
                    name,
                ) by {
                    if i < last {
                        lemma_precedes_transitive(entries[i].0, entries[last].0, name);
                    }
                }
            }
        } else {
            assert(fits_at(entries, name, at)) by {
                assert forall|i: int| 0 <= i < at implies precedes(
                    #[trigger] entries[i].0,
                    name,
                ) by {
                    assert(front[i] == entries[i]);
                }
                assert forall|i: int| at <= i < entries.len() implies !precedes(
                    #[trigger] entries[i].0,
                    name,
                ) by {
                    if i < last {
                        assert(front[i] == entries[i]);
                    }
                }
            }
        }
    }
}

/// In ascending entries, the entry at position `at` is the one that `lookup`
/// finds under its name, and its position is the place of its name.
pub proof fn lemma_entry_is_found<V>(entries: Seq<(Seq<char>, V)>, at: int)
    requires
        ascending(entries),
        0 <= at < entries.len(),
    ensures
        slot(entries, entries[at].0) == at,
        holds(entries, entries[at].0),
        lookup(entries, entries[at].0) == Some(entries[at].1),
{
    let name = entries[at].0;
    assert(fits_at(entries, name, at)) by {
        lemma_precedes_irreflexive(name);
        assert forall|i: int| at <= i < entries.len() implies !precedes(
            #[trigger] entries[i].0,
            name,
        ) by {
            if at < i {
                lemma_precedes_asymmetric(name, entries[i].0);
            }
        }
    }
    lemma_fit_is_unique(entries, name, at);
}

/// In ascending entries a name is held exactly if some entry bears it, and
/// only the entry at the place of the name bears it.
pub proof fn lemma_holds_iff_present<V>(entries: Seq<(Seq<char>, V)>, name: Seq<char>)
    requires
        ascending(entries),
    ensures
        holds(entries, name) <==> exists|i: int|
            0 <= i < entries.len() && #[trigger] entries[i].0 == name,
        forall|i: int|
            0 <= i < entries.len() && #[trigger] entries[i].0 == name ==> i == slot(entries, name),
{
    assert forall|i: int| 0 <= i < entries.len() && #[trigger] entries[i].0 == name implies i
        == slot(entries, name) && holds(entries, name) by {
        lemma_entry_is_found(entries, i);
    }
    if holds(entries, name) {
        let at = slot(entries, name);
        assert(0 <= at < entries.len() && entries[at].0 == name);
    }
}

/// A new entry put at the place of its name leaves the entries ascending.
pub proof fn lemma_insert_keeps_order<V>(
    entries: Seq<(Seq<char>, V)>,
    name: Seq<char>,
    value: V,
    at: int,
)
    requires
        ascending(entries),
        fits_at(entries, name, at),
        at < entries.len() ==> entries[at].0 != name,
    ensures
        ascending(entries.insert(at, (name, value))),
{
    let after = entries.insert(at, (name, value));
    assert forall|i: int, j: int| 0 <= i < j < after.len() implies precedes(
        #[trigger] after[i].0,
        #[trigger] after[j].0,
    ) by {
        if j == at {
            assert(after[i] == entries[i]);
        } else if i == at {
            let next = entries[j - 1].0;
            assert(after[j] == entries[j - 1]);
            let first = entries[at].0;
            lemma_precedes_total(name, first);
            if at < j - 1 {
                lemma_precedes_transitive(name, first, next);
            }
        } else if j < at {
            assert(after[i] == entries[i] && after[j] == entries[j]);
        } else if i < at {
            assert(after[i] == entries[i] && after[j] == entries[j - 1]);
        } else {
            assert(after[i] == entries[i - 1] && after[j] == entries[j - 1]);
        }
    }
}

/// Storing a value under a name leaves ascending entries ascending, and the
/// value is then the one found under that name.
pub proof fn lemma_with_entry<V>(entries: Seq<(Seq<char>, V)>, name: Seq<char>, value: V)
    requires
        ascending(entries),
    ensures
        ascending(with_entry(entries, name, value)),
        lookup(with_entry(entries, name, value), name) == Some(value),
{
    let at = slot(entries, name);
    let after = with_entry(entries, name, value);
    lemma_fit_exists(entries, name);
    if holds(entries, name) {
        assert forall|i: int, j: int| 0 <= i < j < after.len() implies precedes(
            #[trigger] after[i].0,
            #[trigger] after[j].0,
        ) by {
            assert(after[i].0 == entries[i].0);
            assert(after[j].0 == entries[j].0);
        }
    } else {
        lemma_insert_keeps_order(entries, name, value, at);
    }
    assert(after[at] == (name, value));
    lemma_entry_is_found(after, at);
}

/// Storing a value under a name leaves what is found under every other name
/// as it was.
pub proof fn lemma_with_entry_keeps_others<V>(
    entries: Seq<(Seq<char>, V)>,
    name: Seq<char>,
    value: V,
    other: Seq<char>,
)
    requires
        ascending(entries),
        other != name,
    ensures
        lookup(with_entry(entries, name, value), other) == lookup(entries, other),
{
    let at = slot(entries, name);
    let after = with_entry(entries, name, value);
    lemma_with_entry(entries, name, value);
    lemma_fit_exists(entries, name);
    lemma_holds_iff_present(entries, other);
    lemma_holds_iff_present(after, other);
    if holds(entries, other) {
        let i = slot(entries, other);
        lemma_entry_is_found(entries, i);
        let moved = if holds(entries, name) || i < at {
            i
        } else {
            i + 1
        };
        assert(after[moved] == entries[i]);
        lemma_entry_is_found(after, moved);
    } else if holds(after, other) {
        let j = slot(after, other);
        let back = if holds(entries, name) || j < at {
            j
        } else {
            j - 1
        };
        assert(after[at].0 == name);
        assert(entries[back] == after[j]);
    }
}

/// Entries with the same names in the same order give every name the same
/// place, whatever their values are.
pub proof fn lemma_same_names<V, W>(
    left: Seq<(Seq<char>, V)>,
    right: Seq<(Seq<char>, W)>,
    name: Seq<char>,
)
    requires
        ascending(left),
        left.len() == right.len(),
        forall|i: int| 0 <= i < left.len() ==> (#[trigger] left[i]).0 == right[i].0,
    ensures
        ascending(right),
        slot(left, name) == slot(right, name),
        holds(left, name) == holds(right, name),
{
    assert forall|i: int, j: int| 0 <= i < j < right.len() implies precedes(
        #[trigger] right[i].0,
        #[trigger] right[j].0,
    ) by {
        assert(left[i].0 == right[i].0);
        assert(left[j].0 == right[j].0);
    }
    lemma_fit_exists(left, name);
    let at = slot(left, name);
    assert(fits_at(right, name, at)) by {
        assert forall|i: int| 0 <= i < at implies precedes(#[trigger] right[i].0, name) by {
            assert(left[i].0 == right[i].0);
        }
        assert forall|i: int| at <= i < right.len() implies !precedes(
            #[trigger] right[i].0,
            name,
        ) by {
            assert(left[i].0 == right[i].0);
        }
    }
    lemma_fit_is_unique(right, name, at);
    if 0 <= at < left.len() {
        assert(left[at].0 == right[at].0);
    }
}

/// A map from names to values, in the order of names.
#[derive(Debug, PartialEq, Eq)]
pub struct NameMap<K: Name, V> {
    entries: Vec<(K, V)>,
}

impl<K: Name, V> View for NameMap<K, V> {
    type V = Seq<(Seq<char>, V)>;

    /// The entries of the map, each with the spelling of its name, in the
    /// order of the names.
    closed spec fn view(&self) -> Seq<(Seq<char>, V)> {
        named(self.entries@)
    }
}

impl<K: Name, V> NameMap<K, V> {
    #[verifier::type_invariant]
    spec fn in_order(self) -> bool {
        ascending(named(self.entries@))
    }

    /// A map without entries.
    pub fn new() -> (map: Self)
        ensures
            map@ == Seq::<(Seq<char>, V)>::empty(),
    {
        let map = NameMap { entries: Vec::new() };
        assert(map@ =~= Seq::<(Seq<char>, V)>::empty());
        map
    }

    /// The number of entries.
    pub fn len(&self) -> (count: usize)
        ensures
            count == self@.len(),
    {
        self.entries.len()
    }

    /// The entries, which always stand in the order of their names.
    pub fn entries(&self) -> (entries: &[(K, V)])
        ensures
            named(entries@) == self@,
            entries@.len() == self@.len(),
            forall|i: int|
                0 <= i < entries@.len() ==> self@[i] == (
                    (#[trigger] entries@[i]).0.spelling(),
                    entries@[i].1,
                ),
            ascending(self@),
    {
        proof {
            use_type_invariant(self);
        }
        self.entries.as_slice()
    }

    /// The place of `name` among the entries.
    fn find_slot(&self, name: &str) -> (at: usize)
        ensures
            at == slot(self@, name@),
            fits_at(self@, name@, at as int),
            ascending(self@),
    {
        proof {
            use_type_invariant(self);
        }
        let ghost all = named(self.entries@);
        let mut low: usize = 0;
        let mut high: usize = self.entries.len();
        while low < high
            invariant
                low <= high <= all.len(),
                all == named(self.entries@),
                ascending(all),
                forall|i: int| 0 <= i < low ==> precedes(#[trigger] all[i].0, name@),
                forall|i: int| high <= i < all.len() ==> !precedes(#[trigger] all[i].0, name@),
            decreases high - low,
        {
            let middle: usize = low + (high - low) / 2;
            let here = self.entries[middle].0.as_str();
            assert(here@ == all[middle as int].0);
            match compare(here, name) {
                Rank::Before => {
                    proof {
                        assert forall|i: int| 0 <= i < middle + 1 implies precedes(
                            #[trigger] all[i].0,
                            name@,
                        ) by {
                            if i < middle {
                                lemma_precedes_transitive(all[i].0, here@, name@);
                            }
                        }
                    }
                    low = middle + 1;
                },
                _ => {
                    proof {
                        assert forall|i: int| middle <= i < all.len() implies !precedes(
                            #[trigger] all[i].0,
                            name@,
                        ) by {
                            if middle < i && precedes(all[i].0, name@) {
                                lemma_precedes_transitive(here@, all[i].0, name@);
                            }
                        }
                    }
                    high = middle;
                },
            }
        }
        proof {
            lemma_fit_is_unique(all, name@, low as int);
        }
        low
    }

    /// The value stored under `key`, if there is one.
    pub fn get(&self, key: &K) -> (found: Option<&V>)
        ensures
            match found {
                Some(value) => lookup(self@, key.spelling()) == Some(*value),
                None => lookup(self@, key.spelling()) is None,
            },
            ascending(self@),
    {
        let name = key.as_str();
        let at: usize = self.find_slot(name);
        if at < self.entries.len() {
            let entry = &self.entries[at];
            assert(self@[at as int] == (entry.0.spelling(), entry.1));
            match compare(entry.0.as_str(), name) {
                Rank::Same => Some(&entry.1),
                _ => None,
            }
        } else {
            None
        }
    }

    /// Stores `value` under `key`, and gives back the value that was stored
    /// under that name before, if there was one.
    pub fn insert(&mut self, key: K, value: V) -> (replaced: Option<V>)
        ensures
            final(self)@ == with_entry(old(self)@, key.spelling(), value),
            replaced == lookup(old(self)@, key.spelling()),
            ascending(final(self)@),
    {
        let at: usize = self.find_slot(key.as_str());
        let ghost before = self@;
        let ghost name = key.spelling();
        let mut present = false;
        if at < self.entries.len() {
            let entry = &self.entries[at];
            assert(self@[at as int] == (entry.0.spelling(), entry.1));
            match compare(entry.0.as_str(), key.as_str()) {
                Rank::Same => {
                    present = true;
                },
                _ => {},
            }
        }
        let mut entries: Vec<(K, V)> = Vec::new();
        assert(named(entries@) =~= Seq::<(Seq<char>, V)>::empty());
        core::mem::swap(&mut self.entries, &mut entries);
        assert(named(entries@) == before);
        let replaced = if present {
            let old_entry = entries.remove(at);
            assert(old_entry.1 == before[at as int].1);
            Some(old_entry.1)
        } else {
            None
        };
        entries.insert(at, (key, value));
        proof {
            lemma_with_entry(before, name, value);
            assert(named(entries@) =~= with_entry(before, name, value));
        }
        self.entries = entries;
        replaced
    }
}

impl<K: Name, V: Clone> Clone for NameMap<K, V> {
    /// A map with the same names, each with a clone of its value.
    fn clone(&self) -> (copy: Self)
        ensures
            copy@.len() == self@.len(),
            forall|i: int|
                0 <= i < self@.len() ==> (#[trigger] copy@[i]).0 == self@[i].0 && cloned(
                    self@[i].1,
                    copy@[i].1,
                ),
    {
        proof {
            use_type_invariant(self);
        }
        let mut entries: Vec<(K, V)> = Vec::new();
        let mut i: usize = 0;
        while i < self.entries.len()
            invariant
                i <= self.entries@.len(),
                entries@.len() == i,
                forall|j: int|
                    0 <= j < i ==> (#[trigger] entries@[j]).0.spelling()
                        == self.entries@[j].0.spelling() && cloned(
                        self.entries@[j].1,
                        entries@[j].1,
                    ),
            decreases self.entries@.len() - i,
        {
            let name = self.entries[i].0.duplicate();
            let value = self.entries[i].1.clone();
            entries.push((name, value));
            i += 1;
        }
        proof {
            let before = named(self.entries@);
            let after = named(entries@);
            assert forall|a: int, b: int| 0 <= a < b < after.len() implies precedes(
                #[trigger] after[a].0,
                #[trigger] after[b].0,
            ) by {
                assert(after[a].0 == before[a].0);
                assert(after[b].0 == before[b].0);
            }
        }
        NameMap { entries }
    }
}

} // verus!
