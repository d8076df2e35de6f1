//! Maps from strings to values kept as a list sorted by key, the way a
//! `BTreeMap<String, V>` holds and walks its entries.
use crate::text::{chars_eq, chars_lt, chars_of, lemma_text_lt_irreflexive, lemma_text_lt_total, lemma_text_lt_transitive, text_lt};
use vstd::prelude::*;

verus! {

/// The value stored under `k`: the first entry with that key.
pub open spec fn lookup<V>(s: Seq<(Seq<char>, V)>, k: Seq<char>) -> Option<V>
    decreases s.len(),
{
    if s.len() == 0 {
        None
    } else if s[0].0 == k {
        Some(s[0].1)
    } else {
        lookup(s.drop_first(), k)
    }
}

/// Keys strictly increasing: sorted and without repetition.
pub open spec fn keys_sorted<V>(s: Seq<(Seq<char>, V)>) -> bool {
    forall|i: int, j: int| 0 <= i < j < s.len() ==> text_lt(#[trigger] s[i].0, #[trigger] s[j].0)
}

/// Whether `k` is a key of `s`.
pub open spec fn has_key<V>(s: Seq<(Seq<char>, V)>, k: Seq<char>) -> bool {
    lookup(s, k) is Some
}

/// Position at which `k` belongs: the number of leading keys below it.
pub open spec fn insert_pos<V>(s: Seq<(Seq<char>, V)>, k: Seq<char>) -> int
    decreases s.len(),
{
    if s.len() == 0 || !text_lt(s[0].0, k) {
        0
    } else {
        1 + insert_pos(s.drop_first(), k)
    }
}

/// The entries after storing `v` under `k`: the entry with key `k` replaced,
/// or a new one placed in key order.
pub open spec fn map_insert<V>(s: Seq<(Seq<char>, V)>, k: Seq<char>, v: V) -> Seq<(Seq<char>, V)> {
    let i = insert_pos(s, k);
    if 0 <= i < s.len() && s[i].0 == k {
        s.update(i, (k, v))
    } else {
        s.insert(i, (k, v))
    }
}

/// The insertion position lies within the list.
pub proof fn lemma_insert_pos_bounds<V>(s: Seq<(Seq<char>, V)>, k: Seq<char>)
    ensures
        0 <= insert_pos(s, k) <= s.len(),
    decreases s.len(),
{
    if s.len() > 0 {
        lemma_insert_pos_bounds(s.drop_first(), k);
    }
}

/// The insertion position is the first key not below `k`.
pub proof fn lemma_insert_pos<V>(s: Seq<(Seq<char>, V)>, k: Seq<char>, i: int)
    requires
        0 <= i <= s.len(),
        forall|j: int| 0 <= j < i ==> text_lt(#[trigger] s[j].0, k),
        i == s.len() || !text_lt(s[i].0, k),
    ensures
        insert_pos(s, k) == i,
    decreases s.len(),
{
    if i > 0 {
        assert(text_lt(s[0].0, k));
        assert forall|j: int| 0 <= j < i - 1 implies text_lt(#[trigger] s.drop_first()[j].0, k) by {
            assert(s.drop_first()[j] == s[j + 1]);
        }
        lemma_insert_pos(s.drop_first(), k, i - 1);
    }
}

/// A lookup finds the first entry with the key.
pub proof fn lemma_lookup_index<V>(s: Seq<(Seq<char>, V)>, k: Seq<char>, i: int)
    requires
        0 <= i < s.len(),
        s[i].0 == k,
        forall|j: int| 0 <= j < i ==> s[j].0 != k,
    ensures
        lookup(s, k) == Some(s[i].1),
    decreases s.len(),
{
    if i > 0 {
        assert(s[0].0 != k);
        assert forall|j: int| 0 <= j < i - 1 implies s.drop_first()[j].0 != k by {
            assert(s.drop_first()[j] == s[j + 1]);
        }
        lemma_lookup_index(s.drop_first(), k, i - 1);
    }
}

/// A lookup of an absent key finds nothing.
pub proof fn lemma_lookup_absent<V>(s: Seq<(Seq<char>, V)>, k: Seq<char>)
    requires
        forall|j: int| 0 <= j < s.len() ==> s[j].0 != k,
    ensures
        lookup(s, k) is None,
    decreases s.len(),
{
    if s.len() > 0 {
        assert forall|j: int| 0 <= j < s.len() - 1 implies s.drop_first()[j].0 != k by {
            assert(s.drop_first()[j] == s[j + 1]);
        }
        lemma_lookup_absent(s.drop_first(), k);
    }
}

/// In a sorted list, the entry at `i` is what a lookup of its key gives.
pub proof fn lemma_sorted_lookup<V>(s: Seq<(Seq<char>, V)>, i: int)
    requires
        keys_sorted(s),
        0 <= i < s.len(),
    ensures
        lookup(s, s[i].0) == Some(s[i].1),
{
    assert forall|j: int| 0 <= j < i implies s[j].0 != s[i].0 by {
        assert(text_lt(s[j].0, s[i].0));
        lemma_text_lt_irreflexive(s[i].0);
    }
    lemma_lookup_index(s, s[i].0, i);
}

/// A lookup that succeeds names an entry of the list.
pub proof fn lemma_lookup_found<V>(s: Seq<(Seq<char>, V)>, k: Seq<char>)
    requires
        lookup(s, k) is Some,
    ensures
        exists|i: int| 0 <= i < s.len() && s[i].0 == k && s[i].1 == lookup(s, k)->0,
    decreases s.len(),
{
    if s[0].0 == k {
        assert(s[0].0 == k && s[0].1 == lookup(s, k)->0);
    } else {
        lemma_lookup_found(s.drop_first(), k);
        let i = choose|i: int| 0 <= i < s.len() - 1 && s.drop_first()[i].0 == k && s.drop_first()[i].1 == lookup(s, k)->0;
        assert(s[i + 1] == s.drop_first()[i]);
    }
}

/// A map from strings to `V`, its entries in increasing order of key.
#[derive(Debug)]
pub struct StrMap<V> {
    entries: Vec<(String, V)>,
}

/// The entries of a vector of pairs, keys taken by their views.
pub open spec fn entries_view<V>(e: Seq<(String, V)>) -> Seq<(Seq<char>, V)> {
    e.map_values(|p: (String, V)| (p.0@, p.1))
}

impl<V> View for StrMap<V> {
    type V = Seq<(Seq<char>, V)>;

    closed spec fn view(&self) -> Seq<(Seq<char>, V)> {
        entries_view(self.entries@)
    }
}

impl<V> StrMap<V> {
    #[verifier::type_invariant]
    spec fn inv(self) -> bool {
        keys_sorted(entries_view(self.entries@))
    }

    /// The empty map.
    pub fn new() -> (r: Self)
        ensures
            r@ == Seq::<(Seq<char>, V)>::empty(),
    {
        let r = StrMap { entries: Vec::new() };
        assert(r@ =~= Seq::<(Seq<char>, V)>::empty());
        r
    }

    /// The keys are sorted and distinct.
    pub fn sorted(&self)
        ensures
            keys_sorted(self@),
    {
        proof {
            use_type_invariant(self);
        }
    }

    /// Number of entries.
    pub fn len(&self) -> (r: usize)
        ensures
            r == self@.len(),
    {
        self.entries.len()
    }

    /// Whether the map has no entry.
    pub fn is_empty(&self) -> (r: bool)
        ensures
            r == (self@.len() == 0),
    {
        self.entries.len() == 0
    }

    /// The key of the entry at position `i`.
    pub fn key_at(&self, i: usize) -> (r: &String)
        requires
            i < self@.len(),
        ensures
            r@ == self@[i as int].0,
    {
        &self.entries[i].0
    }

    /// The value of the entry at position `i`.
    pub fn value_at(&self, i: usize) -> (r: &V)
        requires
            i < self@.len(),
        ensures
            *r == self@[i as int].1,
    {
        &self.entries[i].1
    }

    /// Position of the first entry whose key is not below `key`, and whether
    /// that entry has the key itself.
    fn position(&self, key: &Vec<char>) -> (r: (usize, bool))
        ensures
            r.0 <= self@.len(),
            forall|j: int| 0 <= j < r.0 ==> text_lt(#[trigger] self@[j].0, key@),
            r.1 ==> r.0 < self@.len() && self@[r.0 as int].0 == key@,
            !r.1 ==> r.0 < self@.len() ==> text_lt(key@, self@[r.0 as int].0),
    {
        proof {
            use_type_invariant(self);
        }
        let mut i: usize = 0;
        let n = self.entries.len();
        while i < n
            invariant
                i <= n == self@.len(),
                self@ == entries_view(self.entries@),
                forall|j: int| 0 <= j < i ==> text_lt(#[trigger] self@[j].0, key@),
            decreases n - i,
        {
            let k = crate::text::chars_of(self.entries[i].0.as_str());
            if !chars_lt(&k, key) {
                let same = chars_eq(&k, key);
                proof {
                    lemma_text_lt_total(k@, key@);
                }
                return (i, same);
            }
            i += 1;
        }
        (i, false)
    }

    /// The value stored under `key`.
    pub fn get(&self, key: &str) -> (r: Option<&V>)
        ensures
            match r {
                Some(v) => lookup(self@, key@) == Some(*v),
                None => lookup(self@, key@) is None,
            },
    {
        proof {
            use_type_invariant(self);
        }
        let kv = chars_of(key);
        let (i, found) = self.position(&kv);
        if found {
            proof {
                lemma_sorted_lookup(self@, i as int);
            }
            Some(&self.entries[i].1)
        } else {
            proof {
                assert forall|j: int| 0 <= j < self@.len() implies self@[j].0 != key@ by {
                    if j < i {
                        lemma_text_lt_irreflexive(key@);
                    } else if j == i {
                        lemma_text_lt_irreflexive(key@);
                    } else {
                        assert(text_lt(self@[i as int].0, self@[j].0));
                        lemma_text_lt_transitive(key@, self@[i as int].0, self@[j].0);
                        lemma_text_lt_irreflexive(key@);
                    }
                }
                lemma_lookup_absent(self@, key@);
            }
            None
        }
    }

    /// Stores `value` under `key`, replacing what was stored there.
    pub fn insert(&mut self, key: String, value: V)
        ensures
            final(self)@ == map_insert(old(self)@, key@, value),
            keys_sorted(final(self)@),
            forall|k: Seq<char>| #[trigger] lookup(final(self)@, k) == if k == key@ {
                Some(value)
            } else {
                lookup(old(self)@, k)
            },
            final(self)@.len() == old(self)@.len() + if has_key(old(self)@, key@) { 0int } else { 1int },
    {
        proof {
            use_type_invariant(&*self);
        }
        let kv = chars_of(key.as_str());
        let (i, found) = self.position(&kv);
        let ghost s = self@;
        proof {
            if i < s.len() {
                if found {
                    lemma_text_lt_irreflexive(kv@);
                } else {
                    lemma_text_lt_total(kv@, s[i as int].0);
                }
            }
            lemma_insert_pos(s, kv@, i as int);
            lemma_map_insert(s, kv@, value);
        }
        let mut entries: Vec<(String, V)> = Vec::new();
        std::mem::swap(&mut entries, &mut self.entries);
        assert(entries_view(entries@) == s);
        if found {
            entries.set(i, (key, value));
            assert(entries_view(entries@) =~= map_insert(s, kv@, value));
        } else {
            entries.insert(i, (key, value));
            assert(entries_view(entries@) =~= map_insert(s, kv@, value));
        }
        self.entries = entries;
    }
}

/// The insertion position splits the keys into those below `k` and the rest.
pub proof fn lemma_insert_pos_props<V>(s: Seq<(Seq<char>, V)>, k: Seq<char>)
    ensures
        0 <= insert_pos(s, k) <= s.len(),
        forall|j: int| 0 <= j < insert_pos(s, k) ==> text_lt(#[trigger] s[j].0, k),
        insert_pos(s, k) < s.len() ==> !text_lt(s[insert_pos(s, k)].0, k),
    decreases s.len(),
{
    if s.len() > 0 && text_lt(s[0].0, k) {
        lemma_insert_pos_props(s.drop_first(), k);
        assert forall|j: int| 0 <= j < insert_pos(s, k) implies text_lt(#[trigger] s[j].0, k) by {
            if j > 0 {
                assert(s[j] == s.drop_first()[j - 1]);
            }
        }
    }
}

/// Storing under a key keeps the keys sorted, makes the key give the new
/// value and leaves every other key as it was.
pub proof fn lemma_map_insert<V>(s: Seq<(Seq<char>, V)>, k: Seq<char>, v: V)
    requires
        keys_sorted(s),
    ensures
        keys_sorted(map_insert(s, k, v)),
        forall|k2: Seq<char>| #[trigger] lookup(map_insert(s, k, v), k2) == if k2 == k {
            Some(v)
        } else {
            lookup(s, k2)
        },
        map_insert(s, k, v).len() == s.len() + if has_key(s, k) { 0int } else { 1int },
{
    lemma_insert_pos_props(s, k);
    let i = insert_pos(s, k);
    let t = map_insert(s, k, v);
    if i < s.len() && s[i].0 == k {
        lemma_sorted_lookup(s, i);
        assert(t =~= s.update(i, (k, v)));
        assert(keys_sorted(t));
        assert forall|k2: Seq<char>| #[trigger] lookup(t, k2) == if k2 == k {
            Some(v)
        } else {
            lookup(s, k2)
        } by {
            if k2 == k {
                lemma_sorted_lookup(t, i);
            } else {
                if lookup(s, k2) is Some {
                    lemma_lookup_found(s, k2);
                    let j = choose|j: int| 0 <= j < s.len() && s[j].0 == k2 && s[j].1 == lookup(s, k2)->0;
                    lemma_sorted_lookup(s, j);
                    lemma_sorted_lookup(t, j);
                } else {
                    assert forall|j: int| 0 <= j < t.len() implies t[j].0 != k2 by {
                        if j != i && t[j].0 == k2 {
                            lemma_sorted_lookup(s, j);
                        }
                    }
                    lemma_lookup_absent(t, k2);
                }
            }
        }
    } else {
        if i < s.len() {
            lemma_text_lt_total(k, s[i].0);
        }
        s.insert_ensures(i, (k, v));
        assert forall|a: int, b: int| 0 <= a < b < t.len() implies text_lt(#[trigger] t[a].0, #[trigger] t[b].0) by {
            if b < i {
                assert(t[a] == s[a] && t[b] == s[b]);
            } else if b == i {
                assert(t[a] == s[a]);
            } else if a == i {
                assert(t[b] == s[b - 1]);
                if b - 1 > i {
                    lemma_text_lt_transitive(k, s[i].0, s[b - 1].0);
                }
            } else if a < i {
                assert(t[a] == s[a] && t[b] == s[b - 1]);
                if b - 1 > i {
                    lemma_text_lt_transitive(k, s[i].0, s[b - 1].0);
                }
                lemma_text_lt_transitive(s[a].0, k, s[b - 1].0);
            } else {
                assert(t[a] == s[a - 1] && t[b] == s[b - 1]);
            }
        }
        assert forall|j: int| 0 <= j < s.len() implies s[j].0 != k by {
            lemma_text_lt_irreflexive(k);
            if j > i {
                lemma_text_lt_transitive(k, s[i].0, s[j].0);
            }
        }
        lemma_lookup_absent(s, k);
        assert forall|k2: Seq<char>| #[trigger] lookup(t, k2) == if k2 == k {
            Some(v)
        } else {
            lookup(s, k2)
        } by {
            if k2 == k {
                lemma_sorted_lookup(t, i);
            } else {
                if lookup(s, k2) is Some {
                    lemma_lookup_found(s, k2);
                    let j = choose|j: int| 0 <= j < s.len() && s[j].0 == k2 && s[j].1 == lookup(s, k2)->0;
                    lemma_sorted_lookup(s, j);
                    if j < i {
                        lemma_sorted_lookup(t, j);
                    } else {
                        assert(t[j + 1] == s[j]);
                        lemma_sorted_lookup(t, j + 1);
                    }
                } else {
                    assert forall|j: int| 0 <= j < t.len() implies t[j].0 != k2 by {
                        if j < i && t[j].0 == k2 {
                            lemma_sorted_lookup(s, j);
                        } else if j > i && t[j].0 == k2 {
                            lemma_sorted_lookup(s, j - 1);
                        }
                    }
                    lemma_lookup_absent(t, k2);
                }
            }
        }
    }
}

/// The count stored under `k`, 0 where there is none.
pub open spec fn count_at(s: Seq<(Seq<char>, usize)>, k: Seq<char>) -> nat {
    match lookup(s, k) {
        Some(c) => c as nat,
        None => 0,
    }
}

impl StrMap<usize> {
    /// Adds one to the count stored under `key` (a missing count being 0).
    pub fn increment(&mut self, key: String)
        requires
            count_at(old(self)@, key@) < usize::MAX,
        ensures
            final(self)@ == map_insert(old(self)@, key@, (count_at(old(self)@, key@) + 1) as usize),
            keys_sorted(final(self)@),
            forall|k: Seq<char>| #[trigger] count_at(final(self)@, k) == count_at(old(self)@, k) + if k
                == key@ {
                1nat
            } else {
                0nat
            },
    {
        let current: usize = match self.get(key.as_str()) {
            Some(c) => *c,
            None => 0,
        };
        self.insert(key, current + 1);
        assert forall|k: Seq<char>| #[trigger] count_at(self@, k) == count_at(old(self)@, k) + if k
            == key@ {
            1nat
        } else {
            0nat
        } by {
            assert(lookup(self@, k) == if k == key@ {
                Some((current + 1) as usize)
            } else {
                lookup(old(self)@, k)
            });
        }
    }
}

} // verus!
