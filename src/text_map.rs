//! A map from text keys to text values, as used for path parameters and headers.
use vstd::prelude::*;
use crate::text::{chars_of, same_chars, text_of, char_seqs};

verus! {

/// The map that pairing `keys` with `vals` position by position gives, up to
/// the shorter of the two; where a key repeats, its first pairing wins.
pub open spec fn zip_pairs(keys: Seq<Seq<char>>, vals: Seq<Seq<char>>) -> Map<Seq<char>, Seq<char>>
    decreases keys.len(),
{
    if keys.len() == 0 || vals.len() == 0 {
        Map::empty()
    } else {
        zip_pairs(keys.drop_first(), vals.drop_first()).insert(keys[0], vals[0])
    }
}

/// The map that inserting the entries in order gives.
pub open spec fn entries_map(s: Seq<(String, String)>) -> Map<Seq<char>, Seq<char>>
    decreases s.len(),
{
    if s.len() == 0 {
        Map::empty()
    } else {
        entries_map(s.drop_last()).insert(s.last().0@, s.last().1@)
    }
}

proof fn lemma_entries_map_unique(s: Seq<(String, String)>)
    requires
        forall|i: int, j: int| 0 <= i < j < s.len() ==> s[i].0@ != s[j].0@,
    ensures
        forall|k: Seq<char>| #[trigger] entries_map(s).contains_key(k) <==> exists|i: int|
            0 <= i < s.len() && s[i].0@ == k,
        forall|i: int| 0 <= i < s.len() ==> #[trigger] entries_map(s)[s[i].0@] == s[i].1@,
    decreases s.len(),
{
    if s.len() > 0 {
        let r = s.drop_last();
        lemma_entries_map_unique(r);
        assert forall|k: Seq<char>| #[trigger] entries_map(s).contains_key(k) implies exists|i: int|
            0 <= i < s.len() && s[i].0@ == k by {
            if k != s.last().0@ {
                assert(entries_map(r).contains_key(k));
                let i = choose|i: int| 0 <= i < r.len() && r[i].0@ == k;
                assert(r[i] == s[i]);
                assert(s[i].0@ == k);
            } else {
                assert(s[s.len() - 1].0@ == k);
            }
        }
        assert forall|k: Seq<char>| (exists|i: int| 0 <= i < s.len() && s[i].0@ == k) implies #[trigger] entries_map(
            s,
        ).contains_key(k) by {
            let i = choose|i: int| 0 <= i < s.len() && s[i].0@ == k;
            if i < s.len() - 1 {
                assert(r[i] == s[i]);
                assert(r[i].0@ == k);
                assert(entries_map(r).contains_key(k));
            }
        }
        assert(entries_map(s) == entries_map(r).insert(s.last().0@, s.last().1@));
        assert forall|i: int| 0 <= i < s.len() implies #[trigger] entries_map(s)[s[i].0@] == s[i].1@ by {
            if i < s.len() - 1 {
                assert(r[i] == s[i]);
                assert(s[i].0@ != s[s.len() - 1].0@);
                assert(entries_map(r)[r[i].0@] == r[i].1@);
            } else {
                assert(s[i] == s.last());
            }
        }
    }
}

/// A map from text to text; a key occurs once, and an insert replaces the value of an equal key.
pub struct TextMap {
    entries: Vec<(String, String)>,
    contents: Ghost<Map<Seq<char>, Seq<char>>>,
}

impl View for TextMap {
    type V = Map<Seq<char>, Seq<char>>;

    closed spec fn view(&self) -> Map<Seq<char>, Seq<char>> {
        self.contents@
    }
}

impl TextMap {
    pub closed spec fn wf(&self) -> bool {
        &&& forall|i: int, j: int|
            0 <= i < j < self.entries@.len() ==> self.entries@[i].0@ != self.entries@[j].0@
        &&& forall|i: int|
            0 <= i < self.entries@.len() ==> #[trigger] self.contents@.contains_key(
                self.entries@[i].0@,
            ) && self.contents@[self.entries@[i].0@] == self.entries@[i].1@
        &&& forall|k: Seq<char>|
            #[trigger] self.contents@.contains_key(k) ==> exists|i: int|
                0 <= i < self.entries@.len() && self.entries@[i].0@ == k
    }

    /// An empty map.
    pub fn new() -> (r: TextMap)
        ensures
            r.wf(),
            r@ == Map::<Seq<char>, Seq<char>>::empty(),
    {
        TextMap { entries: Vec::new(), contents: Ghost(Map::empty()) }
    }

    /// The number of keys.
    pub fn len(&self) -> (n: usize)
        requires
            self.wf(),
        ensures
            n == self@.dom().len(),
    {
        proof {
            self.lemma_dom_len();
        }
        self.entries.len()
    }

    proof fn lemma_dom_len(&self)
        requires
            self.wf(),
        ensures
            self@.dom().len() == self.entries@.len(),
        decreases self.entries@.len(),
    {
        let keys = Seq::new(self.entries@.len(), |i: int| self.entries@[i].0@);
        assert(keys.no_duplicates());
        assert(self@.dom() =~= keys.to_set()) by {
            assert forall|k: Seq<char>| self@.dom().contains(k) implies keys.to_set().contains(k) by {
                let i = choose|i: int| 0 <= i < self.entries@.len() && self.entries@[i].0@ == k;
                assert(keys[i] == k);
            }
            assert forall|k: Seq<char>| keys.to_set().contains(k) implies self@.dom().contains(k) by {
                let i = choose|i: int| 0 <= i < keys.len() && keys[i] == k;
                assert(self.contents@.contains_key(self.entries@[i].0@));
            }
        }
        keys.unique_seq_to_set();
    }

    /// The index of the entry whose key is `key`, if any.
    fn find(&self, key: &Vec<char>) -> (r: Option<usize>)
        requires
            self.wf(),
        ensures
            match r {
                Some(i) => i < self.entries@.len() && self.entries@[i as int].0@ == key@,
                None => !self@.contains_key(key@),
            },
    {
        let mut i: usize = 0;
        while i < self.entries.len()
            invariant
                self.wf(),
                i <= self.entries@.len(),
                forall|j: int| 0 <= j < i ==> self.entries@[j].0@ != key@,
            decreases self.entries@.len() - i,
        {
            let k = chars_of(self.entries[i].0.as_str());
            if same_chars(&k, key) {
                return Some(i);
            }
            i += 1;
        }
        None
    }

    /// The value of `key`, if present.
    pub fn get(&self, key: &str) -> (r: Option<&String>)
        requires
            self.wf(),
        ensures
            r is Some <==> self@.contains_key(key@),
            r is Some ==> r->0@ == self@[key@],
    {
        let k = chars_of(key);
        match self.find(&k) {
            Some(i) => {
                proof {
                    assert(self.contents@.contains_key(self.entries@[i as int].0@));
                }
                Some(&self.entries[i].1)
            },
            None => None,
        }
    }

    /// Sets `key` to `value`, replacing any earlier value.
    pub fn insert(&mut self, key: String, value: String)
        requires
            old(self).wf(),
        ensures
            final(self).wf(),
            final(self)@ == old(self)@.insert(key@, value@),
    {
        let k = chars_of(key.as_str());
        let ghost m = self.contents@.insert(key@, value@);
        match self.find(&k) {
            Some(i) => {
                let ghost old_entries = self.entries@;
                self.entries.set(i, (key, value));
                self.contents = Ghost(m);
                assert forall|j: int| 0 <= j < self.entries@.len() implies #[trigger] self.contents@.contains_key(
                    self.entries@[j].0@,
                ) && self.contents@[self.entries@[j].0@] == self.entries@[j].1@ by {
                    if j != i {
                        assert(old_entries[j].0@ != old_entries[i as int].0@);
                    }
                }
                assert forall|k2: Seq<char>| #[trigger] self.contents@.contains_key(k2) implies exists|j: int|
                    0 <= j < self.entries@.len() && self.entries@[j].0@ == k2 by {
                    if k2 != key@ {
                        let j = choose|j: int| 0 <= j < old_entries.len() && old_entries[j].0@ == k2;
                        assert(self.entries@[j].0@ == k2);
                    } else {
                        assert(self.entries@[i as int].0@ == k2);
                    }
                }
            },
            None => {
                let ghost old_entries = self.entries@;
                self.entries.push((key, value));
                self.contents = Ghost(m);
                let ghost n = old_entries.len() as int;
                assert forall|a: int, b: int| 0 <= a < b < self.entries@.len() implies self.entries@[a].0@
                    != self.entries@[b].0@ by {
                    if b == n {
                        assert(old(self).contents@.contains_key(old_entries[a].0@));
                    }
                }
                assert forall|k2: Seq<char>| #[trigger] self.contents@.contains_key(k2) implies exists|j: int|
                    0 <= j < self.entries@.len() && self.entries@[j].0@ == k2 by {
                    if k2 != key@ {
                        let j = choose|j: int| 0 <= j < old_entries.len() && old_entries[j].0@ == k2;
                        assert(self.entries@[j].0@ == k2);
                    } else {
                        assert(self.entries@[n].0@ == k2);
                    }
                }
            },
        }
    }

    /// Copies every entry of `other` into this map; keys of `other` win over existing ones.
    pub fn extend_from(&mut self, other: &TextMap)
        requires
            old(self).wf(),
            other.wf(),
        ensures
            final(self).wf(),
            final(self)@ == old(self)@.union_prefer_right(other@),
    {
        let ghost start = self@;
        let mut i: usize = 0;
        assert(entries_map(other.entries@.subrange(0, 0)) =~= Map::<Seq<char>, Seq<char>>::empty());
        assert(start.union_prefer_right(Map::empty()) =~= start);
        while i < other.entries.len()
            invariant
                self.wf(),
                other.wf(),
                i <= other.entries@.len(),
                self@ == start.union_prefer_right(entries_map(other.entries@.subrange(0, i as int))),
            decreases other.entries@.len() - i,
        {
            let k = other.entries[i].0.clone();
            let v = other.entries[i].1.clone();
            self.insert(k, v);
            proof {
                let pre = other.entries@.subrange(0, i as int);
                let post = other.entries@.subrange(0, i + 1);
                assert(post.drop_last() =~= pre);
                assert(self@ =~= start.union_prefer_right(entries_map(post)));
            }
            i += 1;
        }
        proof {
            assert(other.entries@.subrange(0, i as int) =~= other.entries@);
            other.lemma_entries_map();
        }
    }

    proof fn lemma_entries_map(&self)
        requires
            self.wf(),
        ensures
            entries_map(self.entries@) == self@,
    {
        lemma_entries_map_unique(self.entries@);
        assert forall|k: Seq<char>| #[trigger] self@.contains_key(k) implies entries_map(
            self.entries@,
        ).contains_key(k) by {
            let i = choose|i: int| 0 <= i < self.entries@.len() && self.entries@[i].0@ == k;
        }
        assert forall|k: Seq<char>| #[trigger] entries_map(self.entries@).contains_key(k) implies self@.contains_key(k)
            && entries_map(self.entries@)[k] == self@[k] by {
            let i = choose|i: int| 0 <= i < self.entries@.len() && self.entries@[i].0@ == k;
            assert(self.contents@.contains_key(self.entries@[i].0@));
        }
        assert(entries_map(self.entries@) =~= self@);
    }

    /// The map that pairs `keys` with `vals` position by position; where a key
    /// repeats, its first pairing wins.
    pub fn from_pairs(keys: &Vec<String>, vals: &Vec<Vec<char>>) -> (r: TextMap)
        ensures
            r.wf(),
            r@ == zip_pairs(keys.deep_view(), char_seqs(vals@)),
    {
        let n = if keys.len() < vals.len() {
            keys.len()
        } else {
            vals.len()
        };
        let mut m = TextMap::new();
        let mut i = n;
        proof {
            let ks = keys.deep_view().subrange(n as int, keys@.len() as int);
            let vs = char_seqs(vals@).subrange(n as int, vals@.len() as int);
            assert(ks.len() == 0 || vs.len() == 0);
        }
        while i > 0
            invariant
                i <= n,
                n <= keys@.len(),
                n <= vals@.len(),
                n == keys@.len() || n == vals@.len(),
                m.wf(),
                m@ == zip_pairs(
                    keys.deep_view().subrange(i as int, keys@.len() as int),
                    char_seqs(vals@).subrange(i as int, vals@.len() as int),
                ),
            decreases i,
        {
            i -= 1;
            let ghost ks = keys.deep_view().subrange(i as int, keys@.len() as int);
            let ghost vs = char_seqs(vals@).subrange(i as int, vals@.len() as int);
            assert(ks.drop_first() =~= keys.deep_view().subrange(i + 1, keys@.len() as int));
            assert(vs.drop_first() =~= char_seqs(vals@).subrange(i + 1, vals@.len() as int));
            m.insert(keys[i].clone(), text_of(&vals[i]));
        }
        assert(keys.deep_view().subrange(0, keys@.len() as int) =~= keys.deep_view());
        assert(char_seqs(vals@).subrange(0, vals@.len() as int) =~= char_seqs(vals@));
        m
    }
}

} // verus!
