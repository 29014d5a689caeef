//! A map from strings to strings.

use vstd::prelude::*;
use crate::text::same;

verus! {

/// A map from strings to strings.  Every key occurs once; keys keep the order
/// in which they were first inserted.
#[derive(Debug)]
pub struct StringMap {
    entries: Vec<(String, String)>,
}

spec fn key_at(e: Seq<(String, String)>, k: Seq<char>, i: int) -> bool {
    0 <= i < e.len() && e[i].0@ == k
}

spec fn key_index(e: Seq<(String, String)>, k: Seq<char>) -> int {
    choose|i: int| key_at(e, k, i)
}

/// The map that the pairs describe: of equal keys the last one counts.
pub open spec fn map_of_pairs(e: Seq<(String, String)>) -> Map<Seq<char>, Seq<char>>
    decreases e.len(),
{
    if e.len() == 0 {
        Map::empty()
    } else {
        map_of_pairs(e.drop_last()).insert(e.last().0@, e.last().1@)
    }
}

impl View for StringMap {
    type V = Map<Seq<char>, Seq<char>>;

    closed spec fn view(&self) -> Map<Seq<char>, Seq<char>> {
        Map::new(
            |k: Seq<char>| exists|i: int| key_at(self.entries@, k, i),
            |k: Seq<char>| self.entries@[key_index(self.entries@, k)].1@,
        )
    }
}

impl StringMap {
    #[verifier::type_invariant]
    spec fn keys_distinct(self) -> bool {
        forall|i: int, j: int|
            0 <= i < j < self.entries@.len() ==> #[trigger] self.entries@[i].0@
                != #[trigger] self.entries@[j].0@
    }

    /// The empty map.
    pub fn new() -> (r: Self)
        ensures
            r@ == Map::<Seq<char>, Seq<char>>::empty(),
    {
        let r = StringMap { entries: Vec::new() };
        assert(r@ =~= Map::<Seq<char>, Seq<char>>::empty());
        r
    }

    fn position(&self, key: &str) -> (r: Option<usize>)
        ensures
            match r {
                Some(i) => key_at(self.entries@, key@, i as int),
                None => forall|i: int| !#[trigger] key_at(self.entries@, key@, i),
            },
    {
        let mut i: usize = 0;
        while i < self.entries.len()
            invariant
                i <= self.entries.len(),
                forall|j: int| j < i ==> !#[trigger] key_at(self.entries@, key@, j),
            decreases self.entries.len() - i,
        {
            if same(self.entries[i].0.as_str(), key) {
                return Some(i);
            }
            i += 1;
        }
        None
    }

    /// The value of `key`.
    pub fn get(&self, key: &str) -> (r: Option<&str>)
        ensures
            match r {
                Some(v) => self@.contains_key(key@) && v@ == self@[key@],
                None => !self@.contains_key(key@),
            },
    {
        proof {
            use_type_invariant(self);
        }
        match self.position(key) {
            Some(i) => {
                assert(key_index(self.entries@, key@) == i);
                Some(self.entries[i].1.as_str())
            },
            None => None,
        }
    }

    /// Gives `key` the value `value`.
    pub fn insert(&mut self, key: String, value: String)
        ensures
            final(self)@ == old(self)@.insert(key@, value@),
    {
        proof {
            use_type_invariant(&*self);
        }
        let found: Option<usize> = self.position(key.as_str());
        let mut e: Vec<(String, String)> = Vec::new();
        let ghost before = self.entries@;
        let ghost model = self@;
        core::mem::swap(&mut e, &mut self.entries);
        match found {
            Some(i) => {
                e.set(i, (key, value));
                assert(forall|j: int| 0 <= j < e@.len() ==> e@[j].0@ == #[trigger] before[j].0@);
            },
            None => {
                e.push((key, value));
                assert forall|i: int, j: int| 0 <= i < j < e@.len() implies #[trigger] e@[i].0@
                    != #[trigger] e@[j].0@ by {
                    assert(!key_at(before, key@, i));
                }
            },
        }
        let ghost after = e@;
        self.entries = e;
        proof {
            let at: int = match found {
                Some(i) => i as int,
                None => before.len() as int,
            };
            assert forall|k: Seq<char>| #[trigger]
                self@.contains_key(k) == model.insert(key@, value@).contains_key(k) by {
                if k == key@ {
                    assert(key_at(after, k, at));
                } else {
                    assert forall|i: int| key_at(after, k, i) == #[trigger] key_at(before, k, i) by {
                        if 0 <= i < before.len() {
                            assert(after[i].0@ == before[i].0@);
                        }
                    }
                    if exists|i: int| key_at(before, k, i) {
                        assert(key_at(after, k, key_index(before, k)));
                    }
                    if exists|i: int| key_at(after, k, i) {
                        assert(key_at(before, k, key_index(after, k)));
                    }
                }
            }
            assert forall|k: Seq<char>| #[trigger] self@.contains_key(k) implies self@[k]
                == model.insert(key@, value@)[k] by {
                let a = key_index(after, k);
                assert(key_at(after, k, a));
                if k == key@ {
                    assert(key_at(after, k, at));
                    assert(a == at);
                } else {
                    assert(a < before.len() && after[a] == before[a]);
                    assert(key_at(before, k, a));
                    assert(key_index(before, k) == a);
                }
            }
            assert(self@ =~= model.insert(key@, value@));
        }
    }

    /// The map that the pairs describe: of equal keys the last one counts.
    pub fn from_pairs(pairs: Vec<(String, String)>) -> (r: Self)
        ensures
            r@ == map_of_pairs(pairs@),
    {
        let mut r: StringMap = StringMap::new();
        let mut i: usize = 0;
        while i < pairs.len()
            invariant
                i <= pairs.len(),
                r@ == map_of_pairs(pairs@.subrange(0, i as int)),
            decreases pairs.len() - i,
        {
            r.insert(pairs[i].0.clone(), pairs[i].1.clone());
            assert(pairs@.subrange(0, i + 1).drop_last() =~= pairs@.subrange(0, i as int));
            i += 1;
        }
        assert(pairs@.subrange(0, i as int) =~= pairs@);
        r
    }

    /// The pairs of the map, each key once.
    pub fn pairs(&self) -> (r: Vec<(String, String)>)
        ensures
            map_of_pairs(r@) == self@,
            forall|i: int, j: int| 0 <= i < j < r@.len() ==> r@[i].0@ != r@[j].0@,
    {
        proof {
            use_type_invariant(self);
        }
        let mut r: Vec<(String, String)> = Vec::new();
        let mut i: usize = 0;
        while i < self.entries.len()
            invariant
                i <= self.entries.len(),
                r@ == self.entries@.subrange(0, i as int),
            decreases self.entries.len() - i,
        {
            r.push((self.entries[i].0.clone(), self.entries[i].1.clone()));
            i += 1;
        }
        assert(r@ =~= self.entries@);
        proof {
            assert forall|k: Seq<char>| #[trigger]
                map_of_pairs(r@).contains_key(k) == self@.contains_key(k) && (self@.contains_key(k)
                    ==> map_of_pairs(r@)[k] == self@[k]) by {
                lemma_map_of_pairs(self.entries@, k);
            }
            assert(map_of_pairs(r@) =~= self@);
        }
        r
    }
}

/// Of pairs with distinct keys, the map holds each at its key and nothing else.
proof fn lemma_map_of_pairs(e: Seq<(String, String)>, k: Seq<char>)
    requires
        forall|i: int, j: int| 0 <= i < j < e.len() ==> #[trigger] e[i].0@ != #[trigger] e[j].0@,
    ensures
        map_of_pairs(e).contains_key(k) == (exists|i: int| key_at(e, k, i)),
        map_of_pairs(e).contains_key(k) ==> map_of_pairs(e)[k] == e[key_index(e, k)].1@,
    decreases e.len(),
{
    if e.len() > 0 {
        let d = e.drop_last();
        let last = e.len() - 1;
        lemma_map_of_pairs(d, k);
        assert forall|i: int| key_at(e, k, i) implies i == last || key_at(d, k, i) by {}
        if k == e.last().0@ {
            assert(key_at(e, k, last));
        } else if map_of_pairs(d).contains_key(k) {
            let i = key_index(d, k);
            assert(key_at(d, k, i));
            assert(key_at(e, k, i));
            assert(key_index(e, k) == i);
        } else {
            assert forall|i: int| !key_at(e, k, i) by {
                assert(!key_at(d, k, i));
            }
        }
    }
}

impl Clone for StringMap {
    fn clone(&self) -> (r: Self)
        ensures
            r@ == self@,
    {
        StringMap::from_pairs(self.pairs())
    }
}

/// The map of pairs has every key of theirs, with the value of the last pair that
/// has it, and no other key.
pub proof fn last_pair_counts(e: Seq<(String, String)>, key: Seq<char>, i: int)
    ensures
        map_of_pairs(e).contains_key(key) ==> exists|j: int|
            0 <= j < e.len() && (#[trigger] e[j]).0@ == key,
        0 <= i < e.len() && e[i].0@ == key && (forall|j: int|
            i < j < e.len() ==> (#[trigger] e[j]).0@ != key) ==> map_of_pairs(e).contains_key(key)
            && map_of_pairs(e)[key] == e[i].1@,
    decreases e.len(),
{
    if e.len() > 0 {
        let d = e.drop_last();
        let n = e.len() - 1;
        last_pair_counts(d, key, i);
        if map_of_pairs(e).contains_key(key) && e[n].0@ != key {
            let j = choose|j: int| 0 <= j < d.len() && (#[trigger] d[j]).0@ == key;
            assert(e[j] == d[j]);
        }
        if 0 <= i < n && e[i].0@ == key && (forall|j: int|
            i < j < e.len() ==> (#[trigger] e[j]).0@ != key) {
            assert(e[n].0@ != key);
            assert forall|j: int| i < j < d.len() implies (#[trigger] d[j]).0@ != key by {
                assert(d[j] == e[j]);
            }
            assert(d[i] == e[i]);
        }
    }
}

} // verus!
