//! A string-keyed attribute mapping, the shape of a player row, a team's
//! consolidated attributes, and a query result.
//!
//! Stored as an association list; its view is the `Map` it denotes, with
//! the first entry for a key authoritative.

use vstd::prelude::*;
use crate::str_eq;

verus! {

/// The `Map` denoted by an association list: the first pair for a key wins.
pub open spec fn pairs_map(s: Seq<(String, String)>) -> Map<Seq<char>, Seq<char>>
    decreases s.len(),
{
    if s.len() == 0 {
        Map::empty()
    } else {
        pairs_map(s.drop_first()).insert(s[0].0@, s[0].1@)
    }
}

/// `i` is the first position of key `k` in `s`.
pub open spec fn first_key_at(s: Seq<(String, String)>, k: Seq<char>, i: int) -> bool {
    &&& 0 <= i < s.len()
    &&& s[i].0@ == k
    &&& forall|j: int| 0 <= j < i ==> s[j].0@ != k
}

/// A key is in the denoted map exactly when some pair carries it.
pub proof fn lemma_pairs_map_dom(s: Seq<(String, String)>, k: Seq<char>)
    ensures
        pairs_map(s).contains_key(k) <==> exists|j: int| 0 <= j < s.len() && s[j].0@ == k,
    decreases s.len(),
{
    if s.len() > 0 {
        lemma_pairs_map_dom(s.drop_first(), k);
        if s[0].0@ != k && pairs_map(s).contains_key(k) {
            let j = choose|j: int| 0 <= j < s.drop_first().len() && s.drop_first()[j].0@ == k;
            assert(s[j + 1].0@ == k);
        }
        if exists|j: int| 0 <= j < s.len() && s[j].0@ == k {
            let j = choose|j: int| 0 <= j < s.len() && s[j].0@ == k;
            if j > 0 {
                assert(s.drop_first()[j - 1].0@ == k);
            }
        }
    }
}

/// The denoted map carries the value of the first pair for each key.
pub proof fn lemma_pairs_map_first(s: Seq<(String, String)>, k: Seq<char>, i: int)
    requires
        first_key_at(s, k, i),
    ensures
        pairs_map(s).contains_key(k),
        pairs_map(s)[k] == s[i].1@,
    decreases s.len(),
{
    if i > 0 {
        assert(first_key_at(s.drop_first(), k, i - 1));
        lemma_pairs_map_first(s.drop_first(), k, i - 1);
    }
}

/// Appending a pair whose key is fresh inserts it into the denoted map;
/// appending one whose key is already bound changes nothing.
pub proof fn lemma_pairs_map_push(s: Seq<(String, String)>, p: (String, String))
    ensures
        pairs_map(s.push(p)) == if exists|j: int| 0 <= j < s.len() && s[j].0@ == p.0@ {
            pairs_map(s)
        } else {
            pairs_map(s).insert(p.0@, p.1@)
        },
    decreases s.len(),
{
    if s.len() == 0 {
        assert(s.push(p).drop_first() =~= s);
        assert(pairs_map(s.push(p)) =~= pairs_map(s).insert(p.0@, p.1@));
    } else {
        assert(s.push(p).drop_first() =~= s.drop_first().push(p));
        lemma_pairs_map_push(s.drop_first(), p);
        if exists|j: int| 0 <= j < s.len() && s[j].0@ == p.0@ {
            let j = choose|j: int| 0 <= j < s.len() && s[j].0@ == p.0@;
            if j > 0 {
                assert(s.drop_first()[j - 1].0@ == p.0@);
                assert(pairs_map(s.push(p)) =~= pairs_map(s));
            } else {
                if exists|j2: int| 0 <= j2 < s.drop_first().len() && s.drop_first()[j2].0@
                    == p.0@ {
                    assert(pairs_map(s.push(p)) =~= pairs_map(s));
                } else {
                    assert(pairs_map(s.push(p)) =~= pairs_map(s));
                }
            }
        } else {
            assert(forall|j2: int| 0 <= j2 < s.drop_first().len()
                ==> (#[trigger] s.drop_first()[j2]).0@ == s[j2 + 1].0@);
            assert(!(exists|j2: int| 0 <= j2 < s.drop_first().len() && s.drop_first()[j2].0@
                == p.0@));
            assert(pairs_map(s.push(p)) =~= pairs_map(s).insert(p.0@, p.1@));
        }
    }
}

/// Replacing the first pair for a key overwrites that key's binding in the
/// denoted map and nothing else.
pub proof fn lemma_pairs_map_update(
    s: Seq<(String, String)>,
    k: Seq<char>,
    i: int,
    p: (String, String),
)
    requires
        first_key_at(s, k, i),
        p.0@ == k,
    ensures
        pairs_map(s.update(i, p)) == pairs_map(s).insert(k, p.1@),
    decreases s.len(),
{
    if i == 0 {
        assert(s.update(0, p).drop_first() =~= s.drop_first());
        assert(pairs_map(s.update(0, p)) =~= pairs_map(s).insert(k, p.1@));
    } else {
        assert(s.update(i, p).drop_first() =~= s.drop_first().update(i - 1, p));
        assert(first_key_at(s.drop_first(), k, i - 1));
        lemma_pairs_map_update(s.drop_first(), k, i - 1, p);
        assert(pairs_map(s.update(i, p)) =~= pairs_map(s).insert(k, p.1@));
    }
}

/// Taking out the first pair for a key leaves a list denoting the same map
/// except possibly at that key.
pub proof fn lemma_pairs_map_remove_first(s: Seq<(String, String)>, k: Seq<char>, i: int)
    requires
        first_key_at(s, k, i),
    ensures
        pairs_map(s.remove(i)).remove(k) == pairs_map(s).remove(k),
    decreases s.len(),
{
    if i == 0 {
        assert(s.remove(0) =~= s.drop_first());
        assert(pairs_map(s.remove(0)).remove(k) =~= pairs_map(s).remove(k));
    } else {
        assert(s.remove(i).drop_first() =~= s.drop_first().remove(i - 1));
        assert(first_key_at(s.drop_first(), k, i - 1));
        lemma_pairs_map_remove_first(s.drop_first(), k, i - 1);
        let p = s[0];
        let a = pairs_map(s.drop_first().remove(i - 1));
        let b = pairs_map(s.drop_first());
        assert(s.remove(i)[0] == p);
        assert(pairs_map(s.remove(i)) == a.insert(p.0@, p.1@));
        assert(a.insert(p.0@, p.1@).remove(k) =~= a.remove(k).insert(p.0@, p.1@));
        assert(b.insert(p.0@, p.1@).remove(k) =~= b.remove(k).insert(p.0@, p.1@));
        assert(pairs_map(s.remove(i)).remove(k) == pairs_map(s).remove(k));
    }
}

/// An attribute mapping: ordered string keys to string values.
#[derive(Debug)]
pub struct AttrMap {
    pairs: Vec<(String, String)>,
}

/// A raw player row, keyed by attribute name.
pub type PlayerData = AttrMap;

impl View for AttrMap {
    type V = Map<Seq<char>, Seq<char>>;

    closed spec fn view(&self) -> Map<Seq<char>, Seq<char>> {
        pairs_map(self.pairs@)
    }
}

impl AttrMap {
    /// An empty mapping.
    pub fn new() -> (r: AttrMap)
        ensures
            r@ == Map::<Seq<char>, Seq<char>>::empty(),
    {
        AttrMap { pairs: Vec::new() }
    }

    /// Looks `k` up; `None` exactly when `k` is unbound.
    pub fn get<'a>(&'a self, k: &str) -> (r: Option<&'a String>)
        ensures
            match r {
                Some(v) => self@.contains_key(k@) && v@ == self@[k@],
                None => !self@.contains_key(k@),
            },
    {
        let n = self.pairs.len();
        let mut i: usize = 0;
        while i < n
            invariant
                0 <= i <= n,
                n == self.pairs@.len(),
                forall|j: int| 0 <= j < i ==> (#[trigger] self.pairs@[j]).0@ != k@,
            decreases n - i,
        {
            if str_eq(self.pairs[i].0.as_str(), k) {
                proof {
                    lemma_pairs_map_first(self.pairs@, k@, i as int);
                }
                return Some(&self.pairs[i].1);
            }
            i = i + 1;
        }
        proof {
            lemma_pairs_map_dom(self.pairs@, k@);
        }
        None
    }

    /// Binds `k` to `v`, replacing any earlier binding.
    pub fn insert(&mut self, k: String, v: String)
        ensures
            final(self)@ == old(self)@.insert(k@, v@),
    {
        let n = self.pairs.len();
        let mut i: usize = 0;
        while i < n
            invariant
                0 <= i <= n,
                n == self.pairs@.len(),
                self.pairs@ == old(self).pairs@,
                forall|j: int| 0 <= j < i ==> (#[trigger] self.pairs@[j]).0@ != k@,
            decreases n - i,
        {
            if str_eq(self.pairs[i].0.as_str(), k.as_str()) {
                let ghost gp = (k, v);
                proof {
                    lemma_pairs_map_update(self.pairs@, k@, i as int, gp);
                }
                self.pairs.remove(i);
                self.pairs.insert(i, (k, v));
                assert(self.pairs@ =~= old(self).pairs@.update(i as int, gp));
                return ;
            }
            i = i + 1;
        }
        proof {
            lemma_pairs_map_dom(self.pairs@, k@);
            lemma_pairs_map_push(self.pairs@, (k, v));
        }
        self.pairs.push((k, v));
    }

    /// Unbinds `k`; a key that was never bound is left alone.
    pub fn remove(&mut self, k: &str)
        ensures
            final(self)@ == old(self)@.remove(k@),
    {
        let mut i: usize = 0;
        while i < self.pairs.len()
            invariant
                0 <= i <= self.pairs@.len(),
                self@.remove(k@) == old(self)@.remove(k@),
                forall|j: int| 0 <= j < i ==> (#[trigger] self.pairs@[j]).0@ != k@,
            decreases self.pairs@.len() - i,
        {
            if str_eq(self.pairs[i].0.as_str(), k) {
                proof {
                    lemma_pairs_map_remove_first(self.pairs@, k@, i as int);
                }
                self.pairs.remove(i);
            } else {
                i = i + 1;
            }
        }
        proof {
            lemma_pairs_map_dom(self.pairs@, k@);
            assert(self@.remove(k@) =~= self@);
        }
    }
}

} // verus!
