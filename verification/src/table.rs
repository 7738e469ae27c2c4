//! Lookup tables: small maps whose keys are texts and byte strings, and whose
//! entries can be walked.
use crate::bytes::same_bytes;
use vstd::prelude::*;

verus! {

/// A type that tables are keyed by.
pub trait Key: Sized {
    /// What two equal keys have in common.
    type Id;

    /// The identity of the key.
    spec fn id(&self) -> Self::Id;

    /// Whether two keys are equal.
    fn same(&self, other: &Self) -> (same: bool)
        ensures
            same == (self.id() == other.id()),
    ;
}

impl Key for usize {
    type Id = usize;

    open spec fn id(&self) -> usize {
        *self
    }

    fn same(&self, other: &Self) -> (same: bool) {
        *self == *other
    }
}

impl Key for String {
    type Id = Seq<char>;

    open spec fn id(&self) -> Seq<char> {
        self@
    }

    fn same(&self, other: &Self) -> (same: bool) {
        *self == *other
    }
}

impl Key for (String, u32) {
    type Id = (Seq<char>, u32);

    open spec fn id(&self) -> (Seq<char>, u32) {
        (self.0@, self.1)
    }

    fn same(&self, other: &Self) -> (same: bool) {
        self.0 == other.0 && self.1 == other.1
    }
}

impl Key for Vec<u8> {
    type Id = Seq<u8>;

    open spec fn id(&self) -> Seq<u8> {
        self@
    }

    fn same(&self, other: &Self) -> (same: bool) {
        same_bytes(self.as_slice(), other.as_slice())
    }
}

/// A map that holds at most one value for each key.
#[derive(Debug)]
pub struct Table<K: Key, V> {
    entries: Vec<(K, V)>,
}

/// Where `id` stands among the entries.
spec fn holds<K: Key, V>(entries: Seq<(K, V)>, id: K::Id, i: int) -> bool {
    0 <= i < entries.len() && entries[i].0.id() == id
}

/// What a list of entries maps each key to.
pub open spec fn mapping<K: Key, V>(entries: Seq<(K, V)>) -> Map<K::Id, V> {
    Map::new(
        |id: K::Id| exists|i: int| 0 <= i < entries.len() && #[trigger] entries[i].0.id() == id,
        |id: K::Id|
            entries[choose|i: int|
                0 <= i < entries.len() && #[trigger] entries[i].0.id() == id].1,
    )
}

/// No two entries have the same key.
pub open spec fn distinct_keys<K: Key, V>(entries: Seq<(K, V)>) -> bool {
    forall|i: int, j: int|
        0 <= i < j < entries.len() ==> #[trigger] entries[i].0.id() != #[trigger] entries[j].0.id()
}

impl<K: Key, V> View for Table<K, V> {
    type V = Map<K::Id, V>;

    closed spec fn view(&self) -> Map<K::Id, V> {
        mapping(self.entries@)
    }
}

impl<K: Key, V> Table<K, V> {
    #[verifier::type_invariant]
    spec fn unique(self) -> bool {
        distinct_keys(self.entries@)
    }

    /// An empty table.
    pub fn new() -> (table: Self)
        ensures
            table@ == Map::<K::Id, V>::empty(),
    {
        let table = Table { entries: Vec::new() };
        assert(table@ =~= Map::<K::Id, V>::empty());
        table
    }

    fn position(&self, key: &K) -> (found: Option<usize>)
        ensures
            match found {
                Some(i) => holds(self.entries@, key.id(), i as int),
                None => !self@.contains_key(key.id()),
            },
    {
        let mut i: usize = 0;
        while i < self.entries.len()
            invariant
                i <= self.entries@.len(),
                forall|j: int| 0 <= j < i ==> #[trigger] self.entries@[j].0.id() != key.id(),
            decreases self.entries@.len() - i,
        {
            if self.entries[i].0.same(key) {
                return Some(i);
            }
            i = i + 1;
        }
        None
    }

    /// The value for `key`.
    pub fn get(&self, key: &K) -> (value: Option<&V>)
        ensures
            match value {
                Some(value) => self@.contains_key(key.id()) && *value == self@[key.id()],
                None => !self@.contains_key(key.id()),
            },
    {
        proof {
            use_type_invariant(self);
        }
        match self.position(key) {
            Some(i) => {
                proof {
                    lemma_mapping_at(self.entries@, i as int);
                }
                Some(&self.entries[i].1)
            },
            None => None,
        }
    }

    /// Map `key` to `value`, returning the value that it replaces.
    pub fn insert(&mut self, key: K, value: V) -> (replaced: Option<V>)
        ensures
            final(self)@ == old(self)@.insert(key.id(), value),
            replaced == (if old(self)@.contains_key(key.id()) {
                Some(old(self)@[key.id()])
            } else {
                None
            }),
    {
        let replaced = self.remove(&key);
        proof {
            use_type_invariant(&*self);
        }
        let ghost removed = self@;
        let ghost entries = self.entries@;
        let mut rest: Vec<(K, V)> = Vec::new();
        core::mem::swap(&mut rest, &mut self.entries);
        rest.push((key, value));
        proof {
            assert(rest@ == entries.push((key, value)));
            assert forall|i: int| 0 <= i < entries.len() implies #[trigger] entries[i].0.id()
                != key.id() by {
                assert(removed.contains_key(entries[i].0.id()));
            }
            assert(distinct_keys(rest@));
            lemma_mapping_push(entries, (key, value));
        }
        self.entries = rest;
        assert(self@ =~= old(self)@.insert(key.id(), value));
        replaced
    }

    /// Take the value for `key` out of the table.
    pub fn remove(&mut self, key: &K) -> (removed: Option<V>)
        ensures
            final(self)@ == old(self)@.remove(key.id()),
            removed == (if old(self)@.contains_key(key.id()) {
                Some(old(self)@[key.id()])
            } else {
                None
            }),
    {
        proof {
            use_type_invariant(&*self);
        }
        match self.position(key) {
            Some(i) => {
                let ghost entries = self.entries@;
                let mut rest: Vec<(K, V)> = Vec::new();
                core::mem::swap(&mut rest, &mut self.entries);
                let (_, value) = rest.swap_remove(i);
                proof {
                    lemma_mapping_at(entries, i as int);
                    lemma_mapping_swap_remove(entries, i as int);
                }
                self.entries = rest;
                Some(value)
            },
            None => {
                assert(self@ =~= old(self)@.remove(key.id()));
                None
            },
        }
    }

    /// Take everything out of the table. The entries come in no particular
    /// order.
    pub fn drain(&mut self) -> (entries: Vec<(K, V)>)
        ensures
            final(self)@ == Map::<K::Id, V>::empty(),
            distinct_keys(entries@),
            mapping(entries@) == old(self)@,
    {
        proof {
            use_type_invariant(&*self);
        }
        let mut entries: Vec<(K, V)> = Vec::new();
        core::mem::swap(&mut entries, &mut self.entries);
        assert(self@ =~= Map::<K::Id, V>::empty());
        entries
    }

    /// The entries of the table, in no particular order.
    pub fn entries(&self) -> (entries: &Vec<(K, V)>)
        ensures
            distinct_keys(entries@),
            mapping(entries@) == self@,
    {
        proof {
            use_type_invariant(self);
        }
        &self.entries
    }
}

/// Each entry is found under its key.
pub proof fn lemma_mapping_at<K: Key, V>(entries: Seq<(K, V)>, i: int)
    requires
        distinct_keys(entries),
        0 <= i < entries.len(),
    ensures
        mapping(entries).contains_key(entries[i].0.id()),
        mapping(entries)[entries[i].0.id()] == entries[i].1,
{
    let id = entries[i].0.id();
    let j = choose|j: int| 0 <= j < entries.len() && #[trigger] entries[j].0.id() == id;
    assert(i == j);
}

proof fn lemma_mapping_push<K: Key, V>(entries: Seq<(K, V)>, entry: (K, V))
    requires
        distinct_keys(entries),
        distinct_keys(entries.push(entry)),
    ensures
        mapping(entries.push(entry)) == mapping(entries).insert(entry.0.id(), entry.1),
{
    let after = entries.push(entry);
    assert forall|id: K::Id| #[trigger]
        mapping(after).contains_key(id) == mapping(entries).insert(
            entry.0.id(),
            entry.1,
        ).contains_key(id) && (mapping(after).contains_key(id) ==> mapping(after)[id] == mapping(
        entries,
    ).insert(entry.0.id(), entry.1)[id]) by {
        assert(after[entries.len() as int] == entry);
        lemma_mapping_at(after, entries.len() as int);
        if mapping(entries).contains_key(id) {
            let i = choose|i: int| 0 <= i < entries.len() && #[trigger] entries[i].0.id() == id;
            assert(after[i] == entries[i]);
            lemma_mapping_at(after, i);
            lemma_mapping_at(entries, i);
            assert(after[i].0.id() != after[entries.len() as int].0.id());
        }
        if mapping(after).contains_key(id) {
            let i = choose|i: int| 0 <= i < after.len() && #[trigger] after[i].0.id() == id;
            if i < entries.len() {
                assert(after[i] == entries[i]);
            }
        }
    }
    assert(mapping(after) =~= mapping(entries).insert(entry.0.id(), entry.1));
}

proof fn lemma_mapping_swap_remove<K: Key, V>(entries: Seq<(K, V)>, at: int)
    requires
        distinct_keys(entries),
        0 <= at < entries.len(),
    ensures
        ({
            let after = entries.update(at, entries.last()).drop_last();
            &&& distinct_keys(after)
            &&& mapping(after) == mapping(entries).remove(entries[at].0.id())
        }),
{
    let after = entries.update(at, entries.last()).drop_last();
    let last = entries.len() - 1;
    let gone = entries[at].0.id();
    assert forall|i: int| 0 <= i < after.len() implies #[trigger] after[i] == entries[if i == at {
        last
    } else {
        i
    }] by {}
    assert forall|i: int, j: int| 0 <= i < j < after.len() implies #[trigger] after[i].0.id()
        != #[trigger] after[j].0.id() by {
        let si = if i == at { last } else { i };
        let sj = if j == at { last } else { j };
        assert(entries[si].0.id() != entries[sj].0.id());
    }
    assert forall|id: K::Id| #[trigger]
        mapping(after).contains_key(id) == mapping(entries).remove(gone).contains_key(id) && (
    mapping(after).contains_key(id) ==> mapping(after)[id] == mapping(entries).remove(
        gone,
    )[id]) by {
        if mapping(after).contains_key(id) {
            let i = choose|i: int| 0 <= i < after.len() && #[trigger] after[i].0.id() == id;
            let s = if i == at { last } else { i };
            assert(entries[s].0.id() == id);
            assert(s != at);
            assert(entries[s].0.id() != entries[at].0.id());
            lemma_mapping_at(after, i);
            lemma_mapping_at(entries, s);
        }
        if mapping(entries).contains_key(id) && id != gone {
            let s = choose|i: int| 0 <= i < entries.len() && #[trigger] entries[i].0.id() == id;
            let i = if s == last { at } else { s };
            assert(after[i].0.id() == id);
        }
    }
    assert(mapping(after) =~= mapping(entries).remove(gone));
}

/// What was put under a key is found under it, every other key is as it was,
/// and what stood there before is handed back; taking it out again leaves the
/// key without a value, and hands it back.
pub proof fn law_tables_hold_what_is_put<K: Key, V>(
    table: &mut Table<K, V>,
    key: K,
    value: V,
    earlier: Option<&V>,
    replaced: Option<V>,
    again: &mut Table<K, V>,
    removed: Option<V>,
    other: K,
    other_before: Option<&V>,
    other_put: Option<&V>,
    other_after: Option<&V>,
)
    requires
        call_ensures(Table::<K, V>::get, (&*old(table), &key), earlier),
        call_ensures(Table::<K, V>::get, (&*old(table), &other), other_before),
        call_ensures(Table::<K, V>::insert, (table, key, value), replaced),
        call_ensures(Table::<K, V>::get, (&*final(table), &other), other_put),
        old(again)@ == final(table)@,
        call_ensures(Table::<K, V>::remove, (again, &key), removed),
        call_ensures(Table::<K, V>::get, (&*final(again), &other), other_after),
    ensures
        replaced is Some <==> earlier is Some,
        earlier matches Some(held) ==> replaced == Some(*held),
        removed == Some(value),
        other.id() == key.id() ==> (other_put matches Some(found) && *found == value)
            && other_after is None,
        other.id() != key.id() ==> other_put == other_before && other_after == other_before,
{
}

/// A list of entries without a key in common has as many keys as entries.
pub proof fn lemma_mapping_len<K: Key, V>(entries: Seq<(K, V)>)
    requires
        distinct_keys(entries),
    ensures
        mapping(entries).dom().finite(),
        mapping(entries).dom().len() == entries.len(),
    decreases entries.len(),
{
    if entries.len() == 0 {
        assert(mapping(entries).dom() =~= Set::empty());
    } else {
        let front = entries.drop_last();
        let last = entries.last();
        assert(front.push(last) =~= entries);
        assert(distinct_keys(front)) by {
            assert forall|i: int, j: int| 0 <= i < j < front.len() implies #[trigger] front[i].0.id()
                != #[trigger] front[j].0.id() by {
                assert(entries[i].0.id() != entries[j].0.id());
            }
        }
        lemma_mapping_len(front);
        lemma_mapping_push(front, last);
        assert(!mapping(front).contains_key(last.0.id())) by {
            if mapping(front).contains_key(last.0.id()) {
                let i = choose|i: int|
                    0 <= i < front.len() && #[trigger] front[i].0.id() == last.0.id();
                assert(entries[i].0.id() != entries[entries.len() - 1].0.id());
            }
        }
        assert(mapping(entries).dom() =~= mapping(front).dom().insert(last.0.id()));
    }
}

/// The entries of a table, whether they are only shown or taken out, are what
/// its keys map to, each key once; taking them out leaves no key behind.
pub proof fn law_tables_show_their_entries<K: Key, V>(
    table: Table<K, V>,
    shown: &Vec<(K, V)>,
    emptied: &mut Table<K, V>,
    taken: Vec<(K, V)>,
    made: Table<K, V>,
    key: K,
    found: Option<&V>,
    i: int,
    j: int,
)
    requires
        call_ensures(Table::<K, V>::entries, (&table,), shown),
        *old(emptied) == table,
        call_ensures(Table::<K, V>::drain, (emptied,), taken),
        call_ensures(Table::<K, V>::new, (), made),
        call_ensures(Table::<K, V>::get, (&table, &key), found),
        0 <= i < j < shown@.len(),
    ensures
        shown@[i].0.id() != shown@[j].0.id(),
        shown@[i].0.id() == key.id() ==> (found matches Some(value) && *value == shown@[i].1),
        (forall|k: int| 0 <= k < shown@.len() ==> #[trigger] shown@[k].0.id() != key.id())
            ==> found is None,
        taken@.len() == shown@.len(),
        !final(emptied)@.contains_key(key.id()),
        !made@.contains_key(key.id()),
{
    lemma_mapping_at(shown@, i);
    lemma_mapping_len(shown@);
    lemma_mapping_len(taken@);
}

} // verus!
