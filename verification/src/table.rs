//! A table from names to values that keeps its entries in the order in which their names
//! first came in.
use vstd::prelude::*;

use crate::text::same_text;

verus! {

/// No name stands in two entries of `entries`.
pub open spec fn distinct_names<V>(entries: Seq<(Seq<char>, V)>) -> bool {
    forall|i: int, j: int|
        #![trigger entries[i], entries[j]]
        0 <= i < j < entries.len() ==> entries[i].0 != entries[j].0
}

/// The position of the first entry under `name`, or the number of entries where there is
/// none.
pub open spec fn position_of<V>(entries: Seq<(Seq<char>, V)>, name: Seq<char>) -> int
    decreases entries.len(),
{
    if entries.len() == 0 || entries.first().0 == name {
        0
    } else {
        1 + position_of(entries.drop_first(), name)
    }
}

/// The value that `entries` hold under `name`.
pub open spec fn lookup<V>(entries: Seq<(Seq<char>, V)>, name: Seq<char>) -> Option<V> {
    let i = position_of(entries, name);
    if i < entries.len() {
        Some(entries[i].1)
    } else {
        None
    }
}

/// `entries` with `value` under `name`: in the place of the value that stood there, or in a
/// new last entry.
pub open spec fn with_entry<V>(
    entries: Seq<(Seq<char>, V)>,
    name: Seq<char>,
    value: V,
) -> Seq<(Seq<char>, V)> {
    let i = position_of(entries, name);
    if i < entries.len() {
        entries.update(i, (name, value))
    } else {
        entries.push((name, value))
    }
}

/// The position lies among the entries exactly when the name does, and no earlier entry has
/// that name.
pub proof fn lemma_position_of<V>(entries: Seq<(Seq<char>, V)>, name: Seq<char>)
    ensures
        0 <= position_of(entries, name) <= entries.len(),
        position_of(entries, name) < entries.len() ==> entries[position_of(entries, name)].0
            == name,
        forall|j: int| 0 <= j < position_of(entries, name) ==> entries[j].0 != name,
    decreases entries.len(),
{
    if entries.len() > 0 && entries.first().0 != name {
        let rest = entries.drop_first();
        lemma_position_of(rest, name);
        assert forall|j: int| 0 <= j < position_of(entries, name) implies entries[j].0 != name by {
            if j > 0 {
                assert(entries[j] == rest[j - 1]);
            }
        }
    }
}

/// The position is the only one with those properties.
pub proof fn lemma_position_of_unique<V>(entries: Seq<(Seq<char>, V)>, name: Seq<char>, i: int)
    requires
        0 <= i <= entries.len(),
        i < entries.len() ==> entries[i].0 == name,
        forall|j: int| 0 <= j < i ==> entries[j].0 != name,
    ensures
        position_of(entries, name) == i,
{
    lemma_position_of(entries, name);
    let p = position_of(entries, name);
    if p < i {
        assert(entries[p].0 != name);
    }
    if i < p {
        assert(entries[i].0 != name);
    }
}

/// A value that was put under a name is what the name gives, and every other name gives
/// what it gave before.
pub proof fn law_lookup_after_insert<V>(
    entries: Seq<(Seq<char>, V)>,
    name: Seq<char>,
    value: V,
    other: Seq<char>,
)
    ensures
        lookup(with_entry(entries, name, value), other) == if other == name {
            Some(value)
        } else {
            lookup(entries, other)
        },
{
    let after = with_entry(entries, name, value);
    let i = position_of(entries, name);
    lemma_position_of(entries, name);
    lemma_position_of(entries, other);
    let p = position_of(entries, other);
    if other == name {
        lemma_position_of_unique(after, name, i);
    } else if p < entries.len() {
        lemma_position_of_unique(after, other, p);
    } else {
        lemma_position_of_unique(after, other, after.len() as int);
    }
}

/// Putting a value under a name keeps the names distinct.
pub proof fn lemma_with_entry_distinct<V>(
    entries: Seq<(Seq<char>, V)>,
    name: Seq<char>,
    value: V,
)
    requires
        distinct_names(entries),
    ensures
        distinct_names(with_entry(entries, name, value)),
{
    lemma_position_of(entries, name);
    let after = with_entry(entries, name, value);
    let p = position_of(entries, name);
    assert forall|i: int, j: int|
        #![trigger after[i], after[j]]
        0 <= i < j < after.len() implies after[i].0 != after[j].0 by {
        if p < entries.len() {
            assert(after[i].0 == entries[i].0);
            assert(after[j].0 == entries[j].0);
        } else if j < entries.len() {
            assert(after[i] == entries[i]);
            assert(after[j] == entries[j]);
        } else {
            assert(after[i] == entries[i]);
        }
    }
}

/// Values by name, no name twice.
pub struct NameTable<V> {
    entries: Vec<(String, V)>,
}

impl<V> NameTable<V> {
    #[verifier::type_invariant]
    spec fn names_are_distinct(self) -> bool {
        distinct_names(self@)
    }
}

impl<V> View for NameTable<V> {
    type V = Seq<(Seq<char>, V)>;

    closed spec fn view(&self) -> Seq<(Seq<char>, V)> {
        Seq::new(self.entries@.len(), |i: int| (self.entries@[i].0@, self.entries@[i].1))
    }
}

impl<V> NameTable<V> {
    /// An empty table.
    pub fn new() -> (r: Self)
        ensures
            r@ == Seq::<(Seq<char>, V)>::empty(),
    {
        let r: NameTable<V> = NameTable { entries: Vec::new() };
        assert(r@ =~= Seq::<(Seq<char>, V)>::empty());
        r
    }

    /// The number of entries. No two of them have one name.
    pub fn len(&self) -> (r: usize)
        ensures
            r == self@.len(),
            distinct_names(self@),
    {
        proof {
            use_type_invariant(self);
        }
        self.entries.len()
    }

    /// The name of the entry at `i`.
    pub fn name_at(&self, i: usize) -> (r: &str)
        requires
            i < self@.len(),
        ensures
            r@ == self@[i as int].0,
    {
        self.entries[i].0.as_str()
    }

    /// The value of the entry at `i`.
    pub fn value_at(&self, i: usize) -> (r: &V)
        requires
            i < self@.len(),
        ensures
            *r == self@[i as int].1,
    {
        &self.entries[i].1
    }

    /// Where the entry under `name` stands; the number of entries where there is none.
    fn find(&self, name: &str) -> (r: usize)
        ensures
            r == position_of(self@, name@),
            r <= self@.len(),
    {
        let mut i: usize = 0;
        while i < self.entries.len() && !same_text(self.entries[i].0.as_str(), name)
            invariant
                i <= self.entries@.len(),
                self@.len() == self.entries@.len(),
                forall|j: int| 0 <= j < i ==> (#[trigger] self@[j]).0 != name@,
            decreases self.entries@.len() - i,
        {
            assert(self@[i as int].0 != name@);
            i = i + 1;
        }
        proof {
            lemma_position_of_unique(self@, name@, i as int);
        }
        i
    }

    /// The value under `name`.
    pub fn get(&self, name: &str) -> (r: Option<&V>)
        ensures
            match r {
                Some(v) => lookup(self@, name@) == Some(*v),
                None => lookup(self@, name@) is None,
            },
    {
        let i: usize = self.find(name);
        if i < self.entries.len() {
            Some(&self.entries[i].1)
        } else {
            None
        }
    }

    /// Puts `value` under `name`.
    pub fn insert(&mut self, name: String, value: V)
        ensures
            final(self)@ == with_entry(old(self)@, name@, value),
            distinct_names(final(self)@),
    {
        proof {
            use_type_invariant(&*self);
            lemma_with_entry_distinct(self@, name@, value);
        }
        let ghost before = self@;
        let i: usize = self.find(name.as_str());
        let mut entries: Vec<(String, V)> = Vec::new();
        std::mem::swap(&mut entries, &mut self.entries);
        if i < entries.len() {
            entries.set(i, (name, value));
        } else {
            entries.push((name, value));
        }
        let ghost after = NameTable { entries }@;
        assert(after =~= with_entry(before, name@, value));
        self.entries = entries;
    }
}

/// A name gives the value of its entry, and a name without an entry gives nothing.
pub proof fn law_a_name_gives_its_entry<V>(entries: Seq<(Seq<char>, V)>, name: Seq<char>, i: int)
    requires
        distinct_names(entries),
    ensures
        0 <= i < entries.len() && entries[i].0 == name ==> lookup(entries, name) == Some(
            entries[i].1,
        ),
        lookup(entries, name) is None ==> !(0 <= i < entries.len() && entries[i].0 == name),
        (forall|j: int| 0 <= j < entries.len() ==> (#[trigger] entries[j]).0 != name) ==> lookup(
            entries,
            name,
        ) is None,
{
    lemma_position_of(entries, name);
    if 0 <= i < entries.len() && entries[i].0 == name {
        lemma_position_of_unique(entries, name, i);
    }
}

/// Putting a value under a name keeps every other entry where it is, and adds one entry at
/// the end exactly where the name is new.
pub proof fn law_an_insertion_keeps_the_order<V>(
    entries: Seq<(Seq<char>, V)>,
    name: Seq<char>,
    value: V,
    i: int,
)
    requires
        0 <= i < entries.len(),
    ensures
        with_entry(entries, name, value)[i].0 == entries[i].0,
        entries[i].0 != name ==> with_entry(entries, name, value)[i] == entries[i],
        with_entry(entries, name, value).len() == entries.len() + if lookup(entries, name) is None {
            1int
        } else {
            0
        },
{
    lemma_position_of(entries, name);
}

} // verus!
