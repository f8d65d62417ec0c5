//! An ordered map keyed by text, kept sorted by the keys' raw bytes, so that
//! iteration order is a function of the contents alone (as with `BTreeMap`).

use vstd::prelude::*;
use crate::text::{lemma_text_order, text_eq, text_le, text_lt, text_lt_exec};

verus! {

/// A key that is a piece of text.
pub trait TextKey: Sized {
    spec fn text(&self) -> Seq<char>;

    fn as_text(&self) -> (r: &str)
        ensures
            r@ == self.text(),
    ;

    fn dup(&self) -> (r: Self)
        ensures
            r.text() == self.text(),
    ;
}

impl TextKey for String {
    open spec fn text(&self) -> Seq<char> {
        self@
    }

    fn as_text(&self) -> (r: &str) {
        self.as_str()
    }

    fn dup(&self) -> (r: Self) {
        self.clone()
    }
}

/// Whether the keys of `s` are strictly increasing in byte order.
pub open spec fn strictly_sorted(s: Seq<Seq<char>>) -> bool {
    forall|i: int, j: int| 0 <= i < j < s.len() ==> text_lt(#[trigger] s[i], #[trigger] s[j])
}

/// Whether `s` is sorted (non-strictly) in byte order.
pub open spec fn sorted_texts(s: Seq<Seq<char>>) -> bool {
    forall|i: int, j: int| 0 <= i < j < s.len() ==> text_le(#[trigger] s[i], #[trigger] s[j])
}

/// The map that a sequence of entries with distinct keys denotes.
pub open spec fn entries_map<K: TextKey, V>(s: Seq<(K, V)>) -> Map<Seq<char>, V> {
    Map::new(
        |k: Seq<char>| exists|i: int| 0 <= i < s.len() && (#[trigger] s[i]).0.text() == k,
        |k: Seq<char>| s[index_of_key(s, k)].1,
    )
}

/// A position at which `k` is a key of `s`, if there is one.
pub open spec fn index_of_key<K: TextKey, V>(s: Seq<(K, V)>, k: Seq<char>) -> int {
    choose|i: int| 0 <= i < s.len() && (#[trigger] s[i]).0.text() == k
}

/// The keys of a sequence of entries, in order.
pub open spec fn entry_keys<K: TextKey, V>(s: Seq<(K, V)>) -> Seq<Seq<char>> {
    s.map_values(|e: (K, V)| e.0.text())
}

/// A map from text keys to values, ordered by the keys' raw bytes.
#[derive(PartialEq, Eq, Debug)]
pub struct TextMap<K: TextKey, V> {
    entries: Vec<(K, V)>,
}

impl<K: TextKey, V> TextMap<K, V> {
    #[verifier::type_invariant]
    closed spec fn keys_increase(self) -> bool {
        strictly_sorted(entry_keys(self.entries@))
    }

    /// The contents, as a map from key text to value.
    pub closed spec fn view(&self) -> Map<Seq<char>, V> {
        if strictly_sorted(entry_keys(self.entries@)) {
            entries_map(self.entries@)
        } else {
            Map::empty()
        }
    }

    /// The key texts, in increasing byte order.
    pub closed spec fn key_seq(&self) -> Seq<Seq<char>> {
        if strictly_sorted(entry_keys(self.entries@)) {
            entry_keys(self.entries@)
        } else {
            Seq::empty()
        }
    }

    proof fn lemma_lookup(self, i: int)
        requires
            strictly_sorted(entry_keys(self.entries@)),
            0 <= i < self.entries@.len(),
        ensures
            self.view().contains_key(self.entries@[i].0.text()),
            self.view()[self.entries@[i].0.text()] == self.entries@[i].1,
            self.key_seq()[i] == self.entries@[i].0.text(),
    {
        lemma_entries_lookup(self.entries@, i);
    }

    /// Facts that every view of a well-formed map satisfies.
    pub proof fn lemma_view_facts(self)
        ensures
            strictly_sorted(self.key_seq()),
            self.key_seq().len() == self.view().dom().len(),
            self.view().dom().finite(),
            forall|k: Seq<char>| #[trigger] self.view().contains_key(k) <==> self.key_seq().contains(k),
    {
        if !strictly_sorted(entry_keys(self.entries@)) {
            assert(self.view().dom() =~= Set::<Seq<char>>::empty());
            return;
        }
        let s = self.entries@;
        let ks = self.key_seq();
        assert forall|k: Seq<char>| #[trigger] self.view().contains_key(k) <==> ks.contains(k) by {
            if self.view().contains_key(k) {
                let i = choose|i: int| 0 <= i < s.len() && (#[trigger] s[i]).0.text() == k;
                assert(ks[i] == k);
            }
            if ks.contains(k) {
                let i = choose|i: int| 0 <= i < ks.len() && ks[i] == k;
                assert(s[i].0.text() == k);
            }
        }
        assert(ks.no_duplicates()) by {
            assert forall|i: int, j: int| 0 <= i < ks.len() && 0 <= j < ks.len() && i != j implies ks[i] != ks[j] by {
                lemma_text_order(ks[i], ks[j], ks[j]);
            }
        }
        ks.unique_seq_to_set();
        assert(self.view().dom() =~= ks.to_set());
    }

    /// An empty map.
    pub fn new() -> (m: Self)
        ensures
            m.view() == Map::<Seq<char>, V>::empty(),
            m.key_seq() == Seq::<Seq<char>>::empty(),
    {
        let m = TextMap { entries: Vec::new() };
        assert(m.view() =~= Map::<Seq<char>, V>::empty());
        assert(m.key_seq() =~= Seq::<Seq<char>>::empty());
        m
    }

    /// The number of entries.
    pub fn len(&self) -> (n: usize)
        ensures
            n == self.view().len(),
            n == self.key_seq().len(),
    {
        proof {
            use_type_invariant(self);
            self.lemma_view_facts();
        }
        self.entries.len()
    }

    /// Whether the map has no entries.
    pub fn is_empty(&self) -> (r: bool)
        ensures
            r == (self.view().len() == 0),
            r == (self.key_seq().len() == 0),
    {
        proof {
            use_type_invariant(self);
            self.lemma_view_facts();
        }
        self.entries.len() == 0
    }

    /// The position of `key` among the keys, if it is one.
    fn find(&self, key: &str) -> (r: Option<usize>)
        ensures
            match r {
                Some(i) => i < self.key_seq().len() && self.key_seq()[i as int] == key@,
                None => !self.key_seq().contains(key@),
            },
    {
        proof {
            use_type_invariant(self);
        }
        let mut i: usize = 0;
        while i < self.entries.len()
            invariant
                strictly_sorted(entry_keys(self.entries@)),
                i <= self.entries@.len(),
                forall|j: int| 0 <= j < i ==> self.key_seq()[j] != key@,
            decreases self.entries@.len() - i,
        {
            if text_eq(self.entries[i].0.as_text(), key) {
                return Some(i);
            }
            i = i + 1;
        }
        None
    }

    /// The value stored under the key text `key`.
    pub fn get_text(&self, key: &str) -> (r: Option<&V>)
        ensures
            match r {
                Some(v) => self.view().contains_key(key@) && *v == self.view()[key@],
                None => !self.view().contains_key(key@),
            },
    {
        proof {
            use_type_invariant(self);
            self.lemma_view_facts();
        }
        match self.find(key) {
            Some(i) => {
                proof {
                    self.lemma_lookup(i as int);
                }
                Some(&self.entries[i].1)
            },
            None => None,
        }
    }

    /// The value stored under `key`.
    pub fn get(&self, key: &K) -> (r: Option<&V>)
        ensures
            match r {
                Some(v) => self.view().contains_key(key.text()) && *v == self.view()[key.text()],
                None => !self.view().contains_key(key.text()),
            },
    {
        self.get_text(key.as_text())
    }

    /// Whether `key` has a value.
    pub fn contains_key(&self, key: &K) -> (r: bool)
        ensures
            r == self.view().contains_key(key.text()),
    {
        self.get_text(key.as_text()).is_some()
    }

    /// The key at position `i` in byte order.
    pub fn key_at(&self, i: usize) -> (k: &K)
        requires
            i < self.key_seq().len(),
        ensures
            k.text() == self.key_seq()[i as int],
    {
        proof {
            use_type_invariant(self);
        }
        &self.entries[i].0
    }

    /// The value of the key at position `i` in byte order.
    pub fn value_at(&self, i: usize) -> (v: &V)
        requires
            i < self.key_seq().len(),
        ensures
            self.view().contains_key(self.key_seq()[i as int]),
            *v == self.view()[self.key_seq()[i as int]],
    {
        proof {
            use_type_invariant(self);
            self.lemma_lookup(i as int);
        }
        &self.entries[i].1
    }

    /// Stores `value` under `key`, replacing any earlier value.
    pub fn insert(&mut self, key: K, value: V)
        ensures
            final(self).view() == old(self).view().insert(key.text(), value),
    {
        proof {
            use_type_invariant(&*self);
        }
        let ghost old_map = self.view();
        let mut entries: Vec<(K, V)> = Vec::new();
        std::mem::swap(&mut entries, &mut self.entries);
        let ghost s0 = entries@;
        let ghost k = key.text();
        let mut i: usize = 0;
        let mut found = false;
        while i < entries.len()
            invariant_except_break
                !found,
            invariant
                entries@ == s0,
                k == key.text(),
                strictly_sorted(entry_keys(s0)),
                i <= s0.len(),
                forall|j: int| 0 <= j < i ==> text_lt(#[trigger] entry_keys(s0)[j], k),
            ensures
                i <= s0.len(),
                found ==> i < s0.len() && entry_keys(s0)[i as int] == k,
                !found ==> i == s0.len() || text_lt(k, entry_keys(s0)[i as int]),
            decreases s0.len() - i,
        {
            let here = entries[i].0.as_text();
            let same = text_eq(here, key.as_text());
            if same {
                found = true;
                break;
            }
            let before = text_lt_exec(key.as_text(), here);
            if before {
                break;
            }
            proof {
                assert(here@ == entry_keys(s0)[i as int]);
                lemma_text_order(entry_keys(s0)[i as int], k, k);
                assert(text_lt(entry_keys(s0)[i as int], k));
            }
            i = i + 1;
        }
        let ghost ks0 = entry_keys(s0);
        assert(old_map == entries_map(s0));
        if found {
            entries.set(i, (key, value));
            proof {
                let s1 = entries@;
                assert(entry_keys(s1) =~= ks0.update(i as int, k));
                assert(entry_keys(s1) =~= ks0);
                assert(entries_map(s1) =~= old_map.insert(k, value)) by {
                    assert forall|kk: Seq<char>| #[trigger] entries_map(s1).contains_key(kk) <==> old_map.insert(k, value).contains_key(kk) by {
                        if entries_map(s1).contains_key(kk) {
                            let j = choose|j: int| 0 <= j < s1.len() && (#[trigger] s1[j]).0.text() == kk;
                            assert(entry_keys(s0)[j] == kk);
                            assert(s0[j].0.text() == kk);
                        }
                        if old_map.contains_key(kk) {
                            let j = choose|j: int| 0 <= j < s0.len() && (#[trigger] s0[j]).0.text() == kk;
                            assert(entry_keys(s1)[j] == kk);
                            assert(s1[j].0.text() == kk);
                        }
                        if kk == k {
                            assert(s1[i as int].0.text() == kk);
                        }
                    }
                    assert forall|kk: Seq<char>| #[trigger] entries_map(s1).contains_key(kk) implies entries_map(s1)[kk] == old_map.insert(k, value)[kk] by {
                        let j = choose|j: int| 0 <= j < s1.len() && (#[trigger] s1[j]).0.text() == kk;
                        assert(entry_keys(s1)[j] == kk);
                        lemma_entries_lookup(s1, j);
                        if j != i {
                            assert(s0[j].0.text() == kk);
                            lemma_entries_lookup(s0, j);
                            lemma_text_order(kk, kk, kk);
                            if j < i {
                                assert(text_lt(ks0[j], ks0[i as int]));
                            } else {
                                assert(text_lt(ks0[i as int], ks0[j]));
                            }
                            assert(kk != k);
                        }
                    }
                }
            }
        } else {
            entries.insert(i, (key, value));
            proof {
                let s1 = entries@;
                assert(entry_keys(s1) =~= ks0.insert(i as int, k));
                assert(!ks0.contains(k)) by {
                    if ks0.contains(k) {
                        let j = choose|j: int| 0 <= j < ks0.len() && ks0[j] == k;
                        if j < i {
                            lemma_text_order(k, k, k);
                        } else {
                            lemma_text_order(k, ks0[i as int], ks0[j]);
                        }
                    }
                }
                assert(strictly_sorted(entry_keys(s1))) by {
                    let ks1 = entry_keys(s1);
                    assert forall|a: int, b: int| 0 <= a < b < ks1.len() implies text_lt(#[trigger] ks1[a], #[trigger] ks1[b]) by {
                        if a == i && b - 1 > i {
                            lemma_text_order(k, ks0[i as int], ks0[b - 1]);
                        } else if a < i && b > i {
                            lemma_text_order(ks0[a], k, ks0[b - 1]);
                            lemma_text_order(ks0[a], ks0[i as int], ks0[b - 1]);
                        }
                    }
                }
                assert(entries_map(s1) =~= old_map.insert(k, value)) by {
                    assert forall|kk: Seq<char>| #[trigger] entries_map(s1).contains_key(kk) <==> old_map.insert(k, value).contains_key(kk) by {
                        if entries_map(s1).contains_key(kk) {
                            let j = choose|j: int| 0 <= j < s1.len() && (#[trigger] s1[j]).0.text() == kk;
                            if j < i {
                                assert(s0[j].0.text() == kk);
                            } else if j > i {
                                assert(s0[j - 1].0.text() == kk);
                            }
                        }
                        if old_map.contains_key(kk) {
                            let j = choose|j: int| 0 <= j < s0.len() && (#[trigger] s0[j]).0.text() == kk;
                            if j < i {
                                assert(s1[j].0.text() == kk);
                            } else {
                                assert(s1[j + 1].0.text() == kk);
                            }
                        }
                        if kk == k {
                            assert(s1[i as int].0.text() == kk);
                        }
                    }
                    assert forall|kk: Seq<char>| #[trigger] entries_map(s1).contains_key(kk) implies entries_map(s1)[kk] == old_map.insert(k, value)[kk] by {
                        let j = choose|j: int| 0 <= j < s1.len() && (#[trigger] s1[j]).0.text() == kk;
                        lemma_entries_lookup(s1, j);
                        let ks1 = entry_keys(s1);
                        assert(ks1[j] == kk);
                        if j < i {
                            lemma_entries_lookup(s0, j);
                            assert(text_lt(ks1[j], ks1[i as int]));
                            lemma_text_order(kk, kk, kk);
                        } else if j > i {
                            lemma_entries_lookup(s0, j - 1);
                            assert(text_lt(ks1[i as int], ks1[j]));
                            lemma_text_order(kk, kk, kk);
                        }
                    }
                }
            }
        }
        self.entries = entries;
    }

    /// The keys, in increasing byte order.
    pub fn keys(&self) -> (r: Vec<K>)
        ensures
            r@.map_values(|k: K| k.text()) == self.key_seq(),
    {
        proof {
            use_type_invariant(self);
        }
        let mut r: Vec<K> = Vec::new();
        let mut i: usize = 0;
        while i < self.entries.len()
            invariant
                strictly_sorted(entry_keys(self.entries@)),
                i <= self.entries@.len(),
                r@.map_values(|k: K| k.text()) =~= self.key_seq().take(i as int),
            decreases self.entries@.len() - i,
        {
            let k = self.entries[i].0.dup();
            let ghost r0 = r@;
            r.push(k);
            proof {
                assert(r@.map_values(|k: K| k.text()) =~= r0.map_values(|k: K| k.text()).push(k.text()));
                assert(self.key_seq().take(i + 1) =~= self.key_seq().take(i as int).push(self.key_seq()[i as int]));
            }
            i = i + 1;
        }
        assert(self.key_seq().take(i as int) =~= self.key_seq());
        r
    }
}

impl<K: TextKey, V: Clone> Clone for TextMap<K, V> {
    /// A copy with the same keys; each value is the value's own clone.
    fn clone(&self) -> (r: Self)
        ensures
            r.key_seq() == self.key_seq(),
    {
        proof {
            use_type_invariant(self);
        }
        let mut entries: Vec<(K, V)> = Vec::new();
        let mut i: usize = 0;
        while i < self.entries.len()
            invariant
                strictly_sorted(entry_keys(self.entries@)),
                i <= self.entries@.len(),
                entry_keys(entries@) =~= entry_keys(self.entries@).take(i as int),
            decreases self.entries@.len() - i,
        {
            let k = self.entries[i].0.dup();
            let v = self.entries[i].1.clone();
            let ghost e0 = entries@;
            entries.push((k, v));
            proof {
                assert(entry_keys(entries@) =~= entry_keys(e0).push(k.text()));
                assert(entry_keys(self.entries@).take(i + 1) =~= entry_keys(self.entries@).take(
                    i as int,
                ).push(entry_keys(self.entries@)[i as int]));
            }
            i = i + 1;
        }
        assert(entry_keys(self.entries@).take(i as int) =~= entry_keys(self.entries@));
        TextMap { entries }
    }
}

impl<K: TextKey, V> Default for TextMap<K, V> {
    /// An empty map.
    fn default() -> (r: Self)
        ensures
            r.view() == Map::<Seq<char>, V>::empty(),
            r.key_seq() == Seq::<Seq<char>>::empty(),
    {
        Self::new()
    }
}

/// A set of text keys, ordered by their raw bytes.
#[derive(PartialEq, Eq, Debug)]
pub struct TextSet<K: TextKey> {
    items: TextMap<K, ()>,
}

impl<K: TextKey> TextSet<K> {
    /// The key texts in the set.
    pub closed spec fn view(&self) -> Set<Seq<char>> {
        self.items.view().dom()
    }

    /// The key texts, in increasing byte order.
    pub closed spec fn key_seq(&self) -> Seq<Seq<char>> {
        self.items.key_seq()
    }

    pub proof fn lemma_view_facts(self)
        ensures
            strictly_sorted(self.key_seq()),
            self.key_seq().len() == self.view().len(),
            self.view().finite(),
            forall|k: Seq<char>| #[trigger] self.view().contains(k) <==> self.key_seq().contains(k),
    {
        self.items.lemma_view_facts();
    }

    /// An empty set.
    pub fn new() -> (r: Self)
        ensures
            r.view() == Set::<Seq<char>>::empty(),
            r.key_seq() == Seq::<Seq<char>>::empty(),
    {
        let items = TextMap::new();
        assert(items.view().dom() =~= Set::<Seq<char>>::empty());
        TextSet { items }
    }

    /// Adds `key`.
    pub fn insert(&mut self, key: K)
        ensures
            final(self).view() == old(self).view().insert(key.text()),
    {
        self.items.insert(key, ());
    }

    /// Whether `key` is in the set.
    pub fn contains(&self, key: &K) -> (r: bool)
        ensures
            r == self.view().contains(key.text()),
    {
        self.items.contains_key(key)
    }

    /// The number of keys.
    pub fn len(&self) -> (n: usize)
        ensures
            n == self.view().len(),
            n == self.key_seq().len(),
    {
        self.items.len()
    }

    pub fn is_empty(&self) -> (r: bool)
        ensures
            r == (self.view().len() == 0),
    {
        self.items.is_empty()
    }

    /// The key at position `i` in byte order.
    pub fn key_at(&self, i: usize) -> (k: &K)
        requires
            i < self.key_seq().len(),
        ensures
            k.text() == self.key_seq()[i as int],
    {
        self.items.key_at(i)
    }
}

/// In a sequence of entries with strictly increasing keys, the entry at `i`
/// is what its key maps to.
pub proof fn lemma_entries_lookup<K: TextKey, V>(s: Seq<(K, V)>, i: int)
    requires
        strictly_sorted(entry_keys(s)),
        0 <= i < s.len(),
    ensures
        entries_map(s).contains_key(s[i].0.text()),
        entries_map(s)[s[i].0.text()] == s[i].1,
{
    let k = s[i].0.text();
    assert(s[i].0.text() == k);
    let j = index_of_key(s, k);
    assert(0 <= j < s.len() && s[j].0.text() == k);
    if j != i {
        let ks = entry_keys(s);
        assert(ks[i] == k && ks[j] == k);
        lemma_text_order(k, k, k);
        if i < j {
            assert(text_lt(ks[i], ks[j]));
        } else {
            assert(text_lt(ks[j], ks[i]));
        }
    }
    assert(entries_map(s).contains_key(k));
    assert(entries_map(s)[k] == s[j].1);
}

} // verus!
