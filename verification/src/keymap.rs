//! A map with text keys, kept in key order.
use vstd::prelude::*;
use crate::text;

verus! {

/// A map from text to `V`. Its entries are kept in the order of their keys,
/// and no key occurs twice.
#[derive(Debug, PartialEq)]
pub struct KeyMap<V> {
    entries: Vec<(String, V)>,
}

/// Whether the keys of `entries` are in strictly ascending order.
pub open spec fn keys_ascend<V>(entries: Seq<(String, V)>) -> bool {
    forall|i: int, j: int|
        0 <= i < j < entries.len() ==> text::text_less(
            #[trigger] entries[i].0@,
            #[trigger] entries[j].0@,
        )
}

/// Whether `key` is a key of `entries`.
pub open spec fn has_key<V>(entries: Seq<(String, V)>, key: Seq<char>) -> bool {
    exists|i: int| 0 <= i < entries.len() && (#[trigger] entries[i]).0@ == key
}

/// The position of `key` in `entries`.
pub open spec fn key_index<V>(entries: Seq<(String, V)>, key: Seq<char>) -> int {
    choose|i: int| 0 <= i < entries.len() && (#[trigger] entries[i]).0@ == key
}

/// The map that a list of entries stands for.
pub open spec fn entry_map<V>(entries: Seq<(String, V)>) -> Map<Seq<char>, V> {
    Map::new(|key: Seq<char>| has_key(entries, key), |key: Seq<char>| entries[key_index(entries, key)].1)
}

proof fn key_index_is<V>(entries: Seq<(String, V)>, i: int)
    requires
        keys_ascend(entries),
        0 <= i < entries.len(),
    ensures
        has_key(entries, entries[i].0@),
        key_index(entries, entries[i].0@) == i,
{
    let key = entries[i].0@;
    let k = key_index(entries, key);
    assert(entries[i].0@ == key);
    assert(0 <= k < entries.len() && entries[k].0@ == key);
    text::text_less_irreflexive(key);
}

impl<V> View for KeyMap<V> {
    type V = Map<Seq<char>, V>;

    open spec fn view(&self) -> Map<Seq<char>, V> {
        entry_map(self.in_order())
    }
}

impl<V> KeyMap<V> {
    #[verifier::type_invariant]
    closed spec fn well_formed(self) -> bool {
        keys_ascend(self.entries@)
    }

    /// The entries in key order.
    pub closed spec fn in_order(self) -> Seq<(String, V)> {
        self.entries@
    }

    /// The empty map.
    pub fn new() -> (map: Self)
        ensures
            map@ == Map::<Seq<char>, V>::empty(),
            map.in_order() == Seq::<(String, V)>::empty(),
    {
        let map = KeyMap { entries: Vec::new() };
        assert(map@ =~= Map::<Seq<char>, V>::empty());
        map
    }

    /// The number of entries.
    pub fn len(&self) -> (n: usize)
        ensures
            n == self.in_order().len(),
            keys_ascend(self.in_order()),
    {
        proof {
            use_type_invariant(self);
        }
        self.entries.len()
    }

    /// The entry at position `i` of the key order.
    pub fn entry(&self, i: usize) -> (entry: &(String, V))
        requires
            i < self.in_order().len(),
        ensures
            *entry == self.in_order()[i as int],
            self@.contains_key(entry.0@),
            self@[entry.0@] == entry.1,
    {
        proof {
            use_type_invariant(self);
            key_index_is(self.entries@, i as int);
        }
        &self.entries[i]
    }

    /// The first position whose key is not before `key`.
    fn position(&self, key: &str) -> (at: usize)
        ensures
            at <= self.in_order().len(),
            forall|i: int| 0 <= i < at ==> text::text_less(#[trigger] self.in_order()[i].0@, key@),
            at < self.in_order().len() ==> !text::text_less(self.in_order()[at as int].0@, key@),
    {
        let mut at: usize = 0;
        while at < self.entries.len() && text::comes_before(self.entries[at].0.as_str(), key)
            invariant
                at <= self.entries.len(),
                forall|i: int| 0 <= i < at ==> text::text_less(#[trigger] self.entries@[i].0@, key@),
            decreases self.entries.len() - at,
        {
            at += 1;
        }
        at
    }

    /// The value stored for `key`.
    pub fn get(&self, key: &str) -> (value: Option<&V>)
        ensures
            match value {
                Some(v) => self@.contains_key(key@) && self@[key@] == *v,
                None => !self@.contains_key(key@),
            },
    {
        proof {
            use_type_invariant(self);
        }
        let at = self.position(key);
        if at < self.entries.len() && text::same_text(self.entries[at].0.as_str(), key) {
            proof {
                key_index_is(self.entries@, at as int);
            }
            Some(&self.entries[at].1)
        } else {
            proof {
                if has_key(self.entries@, key@) {
                    let k = key_index(self.entries@, key@);
                    text::text_less_irreflexive(key@);
                    if at < self.entries.len() {
                        text::text_less_total(self.entries@[at as int].0@, key@);
                    }
                }
            }
            None
        }
    }

    /// Store `value` for `key`, in place of an earlier value.
    pub fn insert(&mut self, key: String, value: V)
        ensures
            final(self)@ == old(self)@.insert(key@, value),
    {
        proof {
            use_type_invariant(&*self);
        }
        let at = self.position(key.as_str());
        let mut entries: Vec<(String, V)> = Vec::new();
        std::mem::swap(&mut entries, &mut self.entries);
        let ghost before = entries@;
        if at < entries.len() && text::same_text(entries[at].0.as_str(), key.as_str()) {
            entries[at] = (key, value);
            assert(entries@ == before.update(at as int, (key, value)));
            proof {
                update_keeps_order(before, at as int, key, value);
            }
        } else {
            entries.insert(at, (key, value));
            assert(entries@ == before.insert(at as int, (key, value)));
            proof {
                insert_keeps_order(before, at as int, key, value);
            }
        }
        self.entries = entries;
    }
}

impl<V: Clone> Clone for KeyMap<V> {
    fn clone(&self) -> (copy: Self)
        ensures
            copy.in_order().len() == self.in_order().len(),
            forall|i: int|
                0 <= i < self.in_order().len() ==> (#[trigger] copy.in_order()[i]).0
                    == self.in_order()[i].0 && cloned(self.in_order()[i].1, copy.in_order()[i].1),
            copy.in_order() == self.in_order() ==> copy@ == self@,
    {
        proof {
            use_type_invariant(self);
        }
        let mut entries: Vec<(String, V)> = Vec::new();
        let mut i: usize = 0;
        while i < self.entries.len()
            invariant
                i <= self.entries.len(),
                entries.len() == i,
                forall|k: int|
                    0 <= k < i ==> (#[trigger] entries@[k]).0 == self.entries@[k].0 && cloned(
                        self.entries@[k].1,
                        entries@[k].1,
                    ),
            decreases self.entries.len() - i,
        {
            entries.push((self.entries[i].0.clone(), self.entries[i].1.clone()));
            i += 1;
        }
        proof {
            assert forall|a: int, b: int| 0 <= a < b < entries.len() implies text::text_less(
                #[trigger] entries@[a].0@,
                #[trigger] entries@[b].0@,
            ) by {
                assert(text::text_less(self.entries@[a].0@, self.entries@[b].0@));
            }
        }
        KeyMap { entries }
    }
}

impl<V> Default for KeyMap<V> {
    fn default() -> (map: Self)
        ensures
            map@ == Map::<Seq<char>, V>::empty(),
            map.in_order() == Seq::<(String, V)>::empty(),
    {
        KeyMap::new()
    }
}

/// The map of one entry more.
pub proof fn one_entry_more<V, W>(entries: Seq<(String, V)>, n: int, f: spec_fn(V) -> W)
    requires
        keys_ascend(entries),
        0 <= n < entries.len(),
    ensures
        entry_map(entries.take(n + 1)).map_values(f) == entry_map(entries.take(n)).map_values(
            f,
        ).insert(entries[n].0@, f(entries[n].1)),
{
    let before = entries.take(n);
    let (key, value) = entries[n];
    assert forall|i: int| 0 <= i < n implies text::text_less(#[trigger] before[i].0@, key@) by {
        assert(text::text_less(entries[i].0@, entries[n].0@));
    }
    assert(keys_ascend(before)) by {
        assert forall|i: int, j: int| 0 <= i < j < before.len() implies text::text_less(
            #[trigger] before[i].0@,
            #[trigger] before[j].0@,
        ) by {
            assert(text::text_less(entries[i].0@, entries[j].0@));
        }
    }
    insert_keeps_order(before, n, key, value);
    assert(before.insert(n, (key, value)) =~= entries.take(n + 1));
    assert(entry_map(entries.take(n + 1)).map_values(f) =~= entry_map(before).map_values(f).insert(
        key@,
        f(value),
    ));
}

/// The map of no entries.
pub proof fn no_entries<V, W>(entries: Seq<(String, V)>, f: spec_fn(V) -> W)
    ensures
        entry_map(entries.take(0)).map_values(f) == Map::<Seq<char>, W>::empty(),
        entries.take(entries.len() as int) == entries,
{
    assert(entry_map(entries.take(0)).map_values(f) =~= Map::<Seq<char>, W>::empty());
    assert(entries.take(entries.len() as int) =~= entries);
}

proof fn update_keeps_order<V>(before: Seq<(String, V)>, at: int, key: String, value: V)
    requires
        keys_ascend(before),
        0 <= at < before.len(),
        before[at].0@ == key@,
    ensures
        keys_ascend(before.update(at, (key, value))),
        entry_map(before.update(at, (key, value))) == entry_map(before).insert(key@, value),
{
    let after = before.update(at, (key, value));
    assert forall|i: int, j: int| 0 <= i < j < after.len() implies text::text_less(
        #[trigger] after[i].0@,
        #[trigger] after[j].0@,
    ) by {
        assert(text::text_less(before[i].0@, before[j].0@));
    }
    same_map_after(before, after, at, key, value, |i: int| i, |k: int| k);
}

proof fn insert_keeps_order<V>(before: Seq<(String, V)>, at: int, key: String, value: V)
    requires
        keys_ascend(before),
        0 <= at <= before.len(),
        forall|i: int| 0 <= i < at ==> text::text_less(#[trigger] before[i].0@, key@),
        at < before.len() ==> !text::text_less(before[at].0@, key@) && before[at].0@ != key@,
    ensures
        keys_ascend(before.insert(at, (key, value))),
        entry_map(before.insert(at, (key, value))) == entry_map(before).insert(key@, value),
{
    let after = before.insert(at, (key, value));
    assert forall|j: int| at <= j < before.len() implies text::text_less(
        key@,
        #[trigger] before[j].0@,
    ) by {
        text::text_less_total(before[at].0@, key@);
        if j > at {
            text::text_less_transitive(key@, before[at].0@, before[j].0@);
        }
    }
    assert forall|i: int, j: int| 0 <= i < j < after.len() implies text::text_less(
        #[trigger] after[i].0@,
        #[trigger] after[j].0@,
    ) by {
        let a = if i < at { i } else { i - 1 };
        let b = if j < at { j } else { j - 1 };
        if i != at && j != at {
            assert(text::text_less(before[a].0@, before[b].0@));
        } else if i == at {
            assert(text::text_less(key@, before[b].0@));
        } else {
            assert(text::text_less(before[a].0@, key@));
        }
    }
    same_map_after(
        before,
        after,
        at,
        key,
        value,
        |i: int| if i < at { i } else { i + 1 },
        |k: int| if k < at { k } else { k - 1 },
    );
}

/// Two ordered lists that agree but for one new entry stand for maps that agree
/// but for its key.
proof fn same_map_after<V>(
    before: Seq<(String, V)>,
    after: Seq<(String, V)>,
    at: int,
    key: String,
    value: V,
    moved: spec_fn(int) -> int,
    origin: spec_fn(int) -> int,
)
    requires
        keys_ascend(before),
        keys_ascend(after),
        0 <= at < after.len(),
        after[at] == (key, value),
        forall|i: int|
            0 <= i < before.len() && (#[trigger] before[i]).0@ != key@ ==> 0 <= moved(i) < after.len()
                && after[moved(i)] == before[i],
        forall|k: int|
            0 <= k < after.len() && k != at ==> 0 <= origin(k) < before.len() && before[origin(k)]
                == #[trigger] after[k],
    ensures
        entry_map(after) == entry_map(before).insert(key@, value),
{
    let m = entry_map(after);
    let n = entry_map(before).insert(key@, value);
    key_index_is(after, at);
    assert forall|q: Seq<char>| m.contains_key(q) == n.contains_key(q) && (m.contains_key(q) ==> m[q]
        == n[q]) by {
        if q != key@ {
            if has_key(after, q) {
                let k = key_index(after, q);
                key_index_is(before, origin(k));
            } else if has_key(before, q) {
                let i = key_index(before, q);
                assert(after[moved(i)].0@ == q);
            }
        }
    }
    assert(m =~= n);
}

} // verus!
