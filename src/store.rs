use vstd::prelude::*;

use crate::model::KeyValue;
use crate::text::str_eq;

verus! {

/// The keys of `s` are pairwise distinct.
pub open spec fn keys_unique(s: Seq<KeyValue>) -> bool {
    forall|i: int, j: int|
        0 <= i < s.len() && 0 <= j < s.len() && i != j ==> #[trigger] s[i].key@ != #[trigger] s[j].key@
}

/// Some entry of `s` has key `k`.
pub open spec fn has_key(s: Seq<KeyValue>, k: Seq<char>) -> bool {
    exists|i: int| 0 <= i < s.len() && #[trigger] s[i].key@ == k
}

/// The mapping that a sequence of entries with distinct keys denotes.
pub open spec fn entries_map(s: Seq<KeyValue>) -> Map<Seq<char>, Seq<char>> {
    Map::new(
        |k: Seq<char>| has_key(s, k),
        |k: Seq<char>| s[choose|i: int| 0 <= i < s.len() && #[trigger] s[i].key@ == k].value@,
    )
}

/// A variable store: names mapped to values, each name at most once.
/// Each worker owns one; extractors and data records write into it.
#[derive(Clone, Debug)]
pub struct VarStore {
    entries: Vec<KeyValue>,
}

proof fn lemma_entry_value(s: Seq<KeyValue>, i: int)
    requires
        keys_unique(s),
        0 <= i < s.len(),
    ensures
        entries_map(s).contains_key(s[i].key@),
        entries_map(s)[s[i].key@] == s[i].value@,
{
    let k = s[i].key@;
    assert(has_key(s, k));
    let j = choose|j: int| 0 <= j < s.len() && #[trigger] s[j].key@ == k;
    assert(j == i);
}

/// Appending an entry whose key is new keeps the keys distinct.
proof fn lemma_push_new_key(s: Seq<KeyValue>, kv: KeyValue)
    requires
        keys_unique(s),
        !has_key(s, kv.key@),
    ensures
        keys_unique(s.push(kv)),
{
    let t = s.push(kv);
    assert forall|a: int, b: int| 0 <= a < t.len() && 0 <= b < t.len() && a != b implies
        #[trigger] t[a].key@ != #[trigger] t[b].key@ by {
        if a == s.len() {
            assert(t[b] == s[b]);
        } else if b == s.len() {
            assert(t[a] == s[a]);
        } else {
            assert(t[a] == s[a] && t[b] == s[b]);
        }
    }
}

/// Replacing the entry of a key, or appending an entry with a new key, sets
/// that key in the mapping and leaves the others.
proof fn lemma_entries_set(s0: Seq<KeyValue>, s1: Seq<KeyValue>, i: int, kv: KeyValue)
    requires
        keys_unique(s0),
        keys_unique(s1),
        (0 <= i < s0.len() && s0[i].key@ == kv.key@ && s1 == s0.update(i, kv))
            || (i == s0.len() && !has_key(s0, kv.key@) && s1 == s0.push(kv)),
    ensures
        entries_map(s1) == entries_map(s0).insert(kv.key@, kv.value@),
{
    let m0 = entries_map(s0);
    let m1 = entries_map(s1);
    assert(s1[i] == kv);
    lemma_entry_value(s1, i);
    assert forall|k: Seq<char>| #[trigger] m1.contains_key(k) == m0.insert(kv.key@, kv.value@).contains_key(k) by {
        if has_key(s1, k) {
            let j = choose|j: int| 0 <= j < s1.len() && #[trigger] s1[j].key@ == k;
            if j != i {
                assert(s0[j].key@ == k);
            }
        }
        if has_key(s0, k) {
            let j = choose|j: int| 0 <= j < s0.len() && #[trigger] s0[j].key@ == k;
            if j == i {
                assert(s1[i].key@ == k);
            } else {
                assert(s1[j].key@ == k);
            }
        }
    }
    assert forall|k: Seq<char>| #[trigger] m1.contains_key(k) && k != kv.key@ implies m1[k] == m0[k] by {
        let j = choose|j: int| 0 <= j < s1.len() && #[trigger] s1[j].key@ == k;
        assert(j != i);
        assert(s0[j] == s1[j]);
        lemma_entry_value(s1, j);
        lemma_entry_value(s0, j);
    }
    assert(m1 =~= m0.insert(kv.key@, kv.value@));
}

impl VarStore {
    pub closed spec fn wf(&self) -> bool {
        keys_unique(self.entries@)
    }

    /// The entries, in order.
    pub closed spec fn items(&self) -> Seq<KeyValue> {
        self.entries@
    }

    /// What the store holds.
    pub closed spec fn view(&self) -> Map<Seq<char>, Seq<char>> {
        entries_map(self.entries@)
    }

    /// An empty store.
    pub fn new() -> (r: VarStore)
        ensures
            r.wf(),
            r@ == Map::<Seq<char>, Seq<char>>::empty(),
    {
        let r = VarStore { entries: Vec::new() };
        assert(r@ =~= Map::<Seq<char>, Seq<char>>::empty());
        r
    }

    /// The number of names held.
    pub fn len(&self) -> (n: usize)
        requires
            self.wf(),
        ensures
            n as nat == self@.dom().len(),
    {
        proof {
            self.lemma_dom_len();
        }
        self.entries.len()
    }

    proof fn lemma_dom_len(&self)
        requires
            self.wf(),
        ensures
            self@.dom().finite(),
            self@.dom().len() == self.entries@.len(),
    {
        let s = self.entries@;
        let keys = Seq::new(s.len(), |i: int| s[i].key@);
        assert(keys.no_duplicates());
        assert(self@.dom() =~= keys.to_set()) by {
            assert forall|k: Seq<char>| self@.dom().contains(k) implies keys.to_set().contains(k) by {
                let i = choose|i: int| 0 <= i < s.len() && #[trigger] s[i].key@ == k;
                assert(keys[i] == k);
            }
            assert forall|k: Seq<char>| keys.to_set().contains(k) implies self@.dom().contains(k) by {
                let i = choose|i: int| 0 <= i < keys.len() && keys[i] == k;
                assert(s[i].key@ == k);
            }
        }
        keys.unique_seq_to_set();
    }

    /// The position of `key` among the entries.
    fn position(&self, key: &str) -> (r: Option<usize>)
        requires
            self.wf(),
        ensures
            r is None ==> !self@.contains_key(key@),
            r matches Some(i) ==> i < self.entries@.len() && self.entries@[i as int].key@ == key@,
    {
        let mut i: usize = 0;
        while i < self.entries.len()
            invariant
                i <= self.entries@.len(),
                forall|j: int| 0 <= j < i ==> #[trigger] self.entries@[j].key@ != key@,
            decreases self.entries@.len() - i,
        {
            if str_eq(self.entries[i].key.as_str(), key) {
                return Some(i);
            }
            i += 1;
        }
        None
    }

    /// The value of `key`, if the store holds it.
    pub fn get(&self, key: &str) -> (r: Option<&String>)
        requires
            self.wf(),
        ensures
            r is None <==> !self@.contains_key(key@),
            r matches Some(v) ==> self@.contains_key(key@) && v@ == self@[key@],
    {
        match self.position(key) {
            Some(i) => {
                proof {
                    lemma_entry_value(self.entries@, i as int);
                }
                Some(&self.entries[i].value)
            },
            None => None,
        }
    }

    /// Sets `key` to `value`; an earlier value of `key` is replaced.
    pub fn insert(&mut self, key: String, value: String)
        requires
            old(self).wf(),
        ensures
            final(self).wf(),
            final(self)@ == old(self)@.insert(key@, value@),
    {
        let ghost kv = KeyValue { key, value };
        match self.position(key.as_str()) {
            Some(i) => {
                self.entries.set(i, KeyValue { key, value });
                proof {
                    let s0 = old(self).entries@;
                    assert(self.entries@ == s0.update(i as int, kv));
                    assert forall|a: int, b: int|
                        0 <= a < s0.len() && 0 <= b < s0.len() && a != b implies
                        #[trigger] self.entries@[a].key@ != #[trigger] self.entries@[b].key@ by {
                        assert(self.entries@[a].key@ == s0[a].key@);
                        assert(self.entries@[b].key@ == s0[b].key@);
                    }
                    lemma_entries_set(s0, self.entries@, i as int, kv);
                }
            },
            None => {
                self.entries.push(KeyValue { key, value });
                proof {
                    lemma_push_new_key(old(self).entries@, kv);
                    lemma_entries_set(old(self).entries@, self.entries@, old(self).entries@.len() as int, kv);
                }
            },
        }
    }

    /// Writes every entry of `other` into this store; on a shared name the
    /// value of `other` wins.
    pub fn extend(&mut self, other: &VarStore)
        requires
            old(self).wf(),
            other.wf(),
        ensures
            final(self).wf(),
            final(self)@ == old(self)@.union_prefer_right(other@),
    {
        let mut i: usize = 0;
        while i < other.entries.len()
            invariant
                self.wf(),
                other.wf(),
                i <= other.entries@.len(),
                self@ == old(self)@.union_prefer_right(entries_map(other.entries@.subrange(0, i as int))),
            decreases other.entries@.len() - i,
        {
            self.insert(other.entries[i].key.clone(), other.entries[i].value.clone());
            proof {
                let s = other.entries@;
                let p0 = s.subrange(0, i as int);
                let p1 = s.subrange(0, i + 1);
                assert(p1 == p0.push(s[i as int]));
                assert(keys_unique(p0));
                assert(!has_key(p0, s[i as int].key@)) by {
                    if has_key(p0, s[i as int].key@) {
                        let j = choose|j: int| 0 <= j < p0.len() && #[trigger] p0[j].key@ == s[i as int].key@;
                        assert(s[j].key@ == s[i as int].key@);
                    }
                }
                lemma_push_new_key(p0, s[i as int]);
                lemma_entries_set(p0, p1, i as int, s[i as int]);
                assert(self@ =~= old(self)@.union_prefer_right(entries_map(p1)));
            }
            i += 1;
        }
        assert(other.entries@.subrange(0, other.entries@.len() as int) =~= other.entries@);
    }

    /// A separate store with the same contents: writes to either one are
    /// not seen by the other.
    pub fn fork(&self) -> (r: VarStore)
        requires
            self.wf(),
        ensures
            r.wf(),
            r@ == self@,
    {
        let mut r = VarStore::new();
        r.extend(self);
        assert(r@ =~= self@);
        r
    }

    /// The entries, each name once.
    pub fn entries(&self) -> (r: &Vec<KeyValue>)
        ensures
            r@ == self.items(),
    {
        &self.entries
    }
}

} // verus!
