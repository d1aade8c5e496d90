use vstd::prelude::*;

use crate::text::{chars_lt, compare_str, lemma_chars_lt_irreflexive, lemma_chars_lt_total,
    lemma_chars_lt_transitive, str_eq};

verus! {

/// Keys strictly increasing: sorted and without repeats.
pub open spec fn keys_sorted(pairs: Seq<(Seq<char>, Seq<char>)>) -> bool {
    forall|i: int, j: int| 0 <= i < j < pairs.len() ==> chars_lt(#[trigger] pairs[i].0, #[trigger] pairs[j].0)
}

/// The value stored under `key`, if any.
pub open spec fn lookup(pairs: Seq<(Seq<char>, Seq<char>)>, key: Seq<char>) -> Option<Seq<char>>
    decreases pairs.len(),
{
    if pairs.len() == 0 {
        None
    } else if pairs[0].0 == key {
        Some(pairs[0].1)
    } else {
        lookup(pairs.drop_first(), key)
    }
}

pub open spec fn pair_view(p: (String, String)) -> (Seq<char>, Seq<char>) {
    (p.0@, p.1@)
}

/// A string-to-string map kept in ascending key order, the order in which
/// its JSON form lists the keys.
#[derive(Debug, PartialEq, Eq)]
pub struct MetaMap {
    entries: Vec<(String, String)>,
}

impl View for MetaMap {
    type V = Seq<(Seq<char>, Seq<char>)>;

    closed spec fn view(&self) -> Seq<(Seq<char>, Seq<char>)> {
        self.entries@.map_values(|p: (String, String)| pair_view(p))
    }
}

pub proof fn lemma_lookup_index(pairs: Seq<(Seq<char>, Seq<char>)>, key: Seq<char>)
    requires
        keys_sorted(pairs),
    ensures
        lookup(pairs, key) is Some <==> exists|i: int| 0 <= i < pairs.len() && pairs[i].0 == key,
        forall|i: int| 0 <= i < pairs.len() && pairs[i].0 == key ==> lookup(pairs, key) == Some(pairs[i].1),
    decreases pairs.len(),
{
    if pairs.len() > 0 {
        let rest = pairs.drop_first();
        assert forall|i: int, j: int| 0 <= i < j < rest.len() implies chars_lt(#[trigger] rest[i].0, #[trigger] rest[j].0) by {
            assert(rest[i] == pairs[i + 1]);
            assert(rest[j] == pairs[j + 1]);
        }
        lemma_lookup_index(rest, key);
        assert forall|i: int| 0 <= i < pairs.len() && pairs[i].0 == key implies lookup(pairs, key) == Some(pairs[i].1) by {
            if i > 0 {
                assert(pairs[i] == rest[i - 1]);
                if pairs[0].0 == key {
                    assert(chars_lt(pairs[0].0, pairs[i].0));
                    lemma_chars_lt_irreflexive(key);
                }
            }
        }
        if lookup(pairs, key) is Some && pairs[0].0 != key {
            let i = choose|i: int| 0 <= i < rest.len() && rest[i].0 == key;
            assert(pairs[i + 1] == rest[i]);
        }
        if exists|i: int| 0 <= i < pairs.len() && pairs[i].0 == key {
            let i = choose|i: int| 0 <= i < pairs.len() && pairs[i].0 == key;
            if i > 0 {
                assert(pairs[i] == rest[i - 1]);
            }
        }
    }
}

impl MetaMap {
    #[verifier::type_invariant]
    closed spec fn sorted(&self) -> bool {
        keys_sorted(self@)
    }

    /// The value under `key` in the abstract map.
    pub open spec fn spec_get(&self, key: Seq<char>) -> Option<Seq<char>> {
        lookup(self@, key)
    }

    /// An empty map.
    pub fn new() -> (m: MetaMap)
        ensures
            m@ == Seq::<(Seq<char>, Seq<char>)>::empty(),
    {
        let m = MetaMap { entries: Vec::new() };
        assert(m@ =~= Seq::<(Seq<char>, Seq<char>)>::empty());
        m
    }

    /// A map holding the given pairs, which must already be in ascending key order.
    pub fn from_sorted_pairs(pairs: Vec<(String, String)>) -> (m: MetaMap)
        requires
            keys_sorted(pairs@.map_values(|p: (String, String)| pair_view(p))),
        ensures
            m@ == pairs@.map_values(|p: (String, String)| pair_view(p)),
    {
        MetaMap { entries: pairs }
    }

    pub fn is_empty(&self) -> (b: bool)
        ensures
            b == (self@.len() == 0),
    {
        self.entries.len() == 0
    }

    pub fn len(&self) -> (n: usize)
        ensures
            n == self@.len(),
    {
        self.entries.len()
    }

    /// The entries, in ascending key order.
    pub fn pairs(&self) -> (r: &Vec<(String, String)>)
        ensures
            r@.map_values(|p: (String, String)| pair_view(p)) == self@,
            keys_sorted(self@),
    {
        proof {
            use_type_invariant(self);
        }
        &self.entries
    }

    /// The key and value at position `i` in key order.
    pub fn pair_at(&self, i: usize) -> (p: (&String, &String))
        requires
            i < self@.len(),
        ensures
            p.0@ == self@[i as int].0,
            p.1@ == self@[i as int].1,
    {
        (&self.entries[i].0, &self.entries[i].1)
    }

    /// `BTreeMap::get`.
    pub fn get(&self, key: &str) -> (r: Option<&String>)
        ensures
            match r {
                Some(v) => self.spec_get(key@) == Some(v@),
                None => self.spec_get(key@) is None,
            },
    {
        proof {
            use_type_invariant(self);
        }
        let mut i: usize = 0;
        while i < self.entries.len()
            invariant
                i <= self.entries.len(),
                self@ == self.entries@.map_values(|p: (String, String)| pair_view(p)),
                forall|k: int| 0 <= k < i ==> self@[k].0 != key@,
            decreases self.entries.len() - i,
        {
            if str_eq(self.entries[i].0.as_str(), key) {
                proof {
                    use_type_invariant(self);
                    lemma_lookup_index(self@, key@);
                    assert(self@[i as int].0 == key@);
                }
                return Some(&self.entries[i].1);
            }
            i = i + 1;
        }
        proof {
            use_type_invariant(self);
            lemma_lookup_index(self@, key@);
        }
        None
    }

    /// `BTreeMap::contains_key`.
    pub fn contains_key(&self, key: &str) -> (b: bool)
        ensures
            b == self.spec_get(key@) is Some,
    {
        self.get(key).is_some()
    }

    /// `BTreeMap::insert`: sets `key` to `value`, replacing an earlier value.
    pub fn insert(&mut self, key: String, value: String)
        ensures
            final(self).spec_get(key@) == Some(value@),
            forall|k: Seq<char>| k != key@ ==> #[trigger] final(self).spec_get(k) == old(self).spec_get(k),
    {
        proof {
            use_type_invariant(&*self);
        }
        let ghost old_view = self@;
        let mut i: usize = 0;
        while i < self.entries.len()
            invariant
                i <= self.entries.len(),
                self@ == old_view,
                keys_sorted(old_view),
                self@ == self.entries@.map_values(|p: (String, String)| pair_view(p)),
                forall|k: int| 0 <= k < i ==> chars_lt(#[trigger] self@[k].0, key@),
            ensures
                i <= self.entries.len(),
                self@ == old_view,
                self@ == self.entries@.map_values(|p: (String, String)| pair_view(p)),
                forall|k: int| 0 <= k < i ==> chars_lt(#[trigger] self@[k].0, key@),
                i < self.entries.len() ==> !chars_lt(self@[i as int].0, key@),
            decreases self.entries.len() - i,
        {
            let c = compare_str(self.entries[i].0.as_str(), key.as_str());
            if c >= 0 {
                break;
            }
            i = i + 1;
        }
        let c: i8 = if i < self.entries.len() {
            compare_str(self.entries[i].0.as_str(), key.as_str())
        } else {
            1
        };
        let ghost n = old_view.len();
        let ghost kv = (key@, value@);
        if i < self.entries.len() && c == 0 {
            let ghost new_view = old_view.update(i as int, kv);
            proof {
                assert(old_view[i as int].0 == key@);
            }
            let mut entries: Vec<(String, String)> = Vec::new();
            std::mem::swap(&mut entries, &mut self.entries);
            entries.set(i, (key, value));
            proof {
                assert(entries@.map_values(|p: (String, String)| pair_view(p)) =~= new_view);
            }
            self.entries = entries;
            proof {
                assert(self.entries@.map_values(|p: (String, String)| pair_view(p)) =~= new_view);
                assert(keys_sorted(new_view));
            }
        } else {
            let ghost new_view = old_view.insert(i as int, kv);
            proof {
                if i < n {
                    assert(c > 0);
                    assert(chars_lt(key@, old_view[i as int].0));
                }
                assert forall|a: int, b: int| 0 <= a < b < new_view.len() implies chars_lt(#[trigger] new_view[a].0, #[trigger] new_view[b].0) by {
                    if a < i && b == i {
                    } else if a < i && b > i {
                        assert(new_view[b] == old_view[b - 1]);
                        if i < n {
                            assert(chars_lt(key@, old_view[i as int].0));
                            if b - 1 > i {
                                lemma_chars_lt_transitive(key@, old_view[i as int].0, old_view[b - 1].0);
                            }
                            lemma_chars_lt_transitive(old_view[a].0, key@, old_view[b - 1].0);
                        }
                    } else if a == i {
                        assert(new_view[b] == old_view[b - 1]);
                        if b - 1 > i {
                            lemma_chars_lt_transitive(key@, old_view[i as int].0, old_view[b - 1].0);
                        }
                    } else if a > i {
                        assert(new_view[a] == old_view[a - 1]);
                        assert(new_view[b] == old_view[b - 1]);
                    }
                }
            }
            let mut entries: Vec<(String, String)> = Vec::new();
            std::mem::swap(&mut entries, &mut self.entries);
            entries.insert(i, (key, value));
            proof {
                assert(entries@.map_values(|p: (String, String)| pair_view(p)) =~= new_view);
            }
            self.entries = entries;
            proof {
                assert(self.entries@.map_values(|p: (String, String)| pair_view(p)) =~= new_view);
            }
        }
        proof {
            let nv = self@;
            assert(keys_sorted(nv));
            lemma_lookup_index(nv, key@);
            assert(nv[i as int].0 == key@);
            assert forall|k: Seq<char>| k != key@ implies #[trigger] lookup(nv, k) == lookup(old_view, k) by {
                lemma_lookup_index(nv, k);
                lemma_lookup_index(old_view, k);
                if exists|j: int| 0 <= j < old_view.len() && old_view[j].0 == k {
                    let j = choose|j: int| 0 <= j < old_view.len() && old_view[j].0 == k;
                    if j < i {
                        assert(nv[j] == old_view[j]);
                    } else if c == 0 && i < n {
                        assert(j != i);
                        assert(nv[j] == old_view[j]);
                    } else {
                        assert(nv[j + 1] == old_view[j]);
                    }
                }
                if exists|j: int| 0 <= j < nv.len() && nv[j].0 == k {
                    let j = choose|j: int| 0 <= j < nv.len() && nv[j].0 == k;
                    if j < i {
                        assert(nv[j] == old_view[j]);
                    } else if c == 0 && i < n {
                        assert(nv[j] == old_view[j]);
                    } else {
                        assert(j != i);
                        assert(nv[j] == old_view[j - 1]);
                    }
                }
            }
        }
    }
}

impl Clone for MetaMap {
    /// A copy holding the same entries.
    fn clone(&self) -> (c: Self)
        ensures
            c@ == self@,
    {
        proof {
            use_type_invariant(self);
        }
        let mut entries: Vec<(String, String)> = Vec::new();
        let mut i: usize = 0;
        while i < self.entries.len()
            invariant
                i <= self.entries.len(),
                self@ == self.entries@.map_values(|p: (String, String)| pair_view(p)),
                entries@.map_values(|p: (String, String)| pair_view(p)) == self@.take(i as int),
            decreases self.entries.len() - i,
        {
            let ghost before = entries@;
            let k = self.entries[i].0.clone();
            let v = self.entries[i].1.clone();
            entries.push((k, v));
            assert(entries@.map_values(|p: (String, String)| pair_view(p)) == before.map_values(|p: (String, String)| pair_view(p)).push(self@[i as int]));
            assert(self@.take(i + 1) == self@.take(i as int).push(self@[i as int]));
            i = i + 1;
        }
        assert(self@.take(self.entries.len() as int) == self@);
        MetaMap { entries }
    }
}

} // verus!
