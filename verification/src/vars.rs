//! The mapping from variable names to values that the variable-listing
//! operation accumulates. Later insertions under a key overwrite
//! earlier ones, as the listing protocol demands.

use vstd::prelude::*;
use vstd::pervasive::VecAdditionalExecFns;

verus! {

/// The mapping a sequence of key/value pairs denotes, later pairs
/// overwriting earlier ones.
pub open spec fn spec_pairs_map(pairs: Seq<(String, String)>) -> Map<Seq<char>, Seq<char>>
    decreases pairs.len(),
{
    if pairs.len() == 0 {
        Map::empty()
    } else {
        spec_pairs_map(pairs.drop_last()).insert(pairs.last().0@, pairs.last().1@)
    }
}

pub open spec fn unique_keys(pairs: Seq<(String, String)>) -> bool {
    forall|j1: int, j2: int|
        0 <= j1 < j2 < pairs.len() ==> pairs[j1].0@ != pairs[j2].0@
}

proof fn lemma_pairs_map_absent(pairs: Seq<(String, String)>, k: Seq<char>)
    requires
        forall|j: int| 0 <= j < pairs.len() ==> pairs[j].0@ != k,
    ensures
        !spec_pairs_map(pairs).contains_key(k),
    decreases pairs.len(),
{
    if pairs.len() > 0 {
        lemma_pairs_map_absent(pairs.drop_last(), k);
    }
}

proof fn lemma_pairs_map_lookup(pairs: Seq<(String, String)>, j: int)
    requires
        unique_keys(pairs),
        0 <= j < pairs.len(),
    ensures
        spec_pairs_map(pairs).contains_key(pairs[j].0@),
        spec_pairs_map(pairs)[pairs[j].0@] == pairs[j].1@,
    decreases pairs.len(),
{
    if j == pairs.len() - 1 {
    } else {
        lemma_pairs_map_lookup(pairs.drop_last(), j);
    }
}

proof fn lemma_pairs_map_update(pairs: Seq<(String, String)>, j: int, p: (String, String))
    requires
        unique_keys(pairs),
        0 <= j < pairs.len(),
        pairs[j].0@ == p.0@,
    ensures
        spec_pairs_map(pairs.update(j, p)) == spec_pairs_map(pairs).insert(p.0@, p.1@),
    decreases pairs.len(),
{
    let updated = pairs.update(j, p);
    if j == pairs.len() - 1 {
        assert(updated.drop_last() =~= pairs.drop_last());
        assert(spec_pairs_map(pairs.drop_last()).insert(pairs.last().0@, pairs.last().1@).insert(
            p.0@,
            p.1@,
        ) =~= spec_pairs_map(pairs.drop_last()).insert(p.0@, p.1@));
    } else {
        lemma_pairs_map_update(pairs.drop_last(), j, p);
        assert(updated.drop_last() =~= pairs.drop_last().update(j, p));
        assert(updated.last() == pairs.last());
        assert(pairs.last().0@ != p.0@);
        assert(spec_pairs_map(pairs.drop_last()).insert(p.0@, p.1@).insert(
            pairs.last().0@,
            pairs.last().1@,
        ) =~= spec_pairs_map(pairs.drop_last()).insert(pairs.last().0@, pairs.last().1@).insert(
            p.0@,
            p.1@,
        ));
    }
}

proof fn lemma_pairs_map_len(pairs: Seq<(String, String)>)
    requires
        unique_keys(pairs),
    ensures
        spec_pairs_map(pairs).dom().finite(),
        spec_pairs_map(pairs).len() == pairs.len(),
    decreases pairs.len(),
{
    if pairs.len() > 0 {
        lemma_pairs_map_len(pairs.drop_last());
        lemma_pairs_map_absent(pairs.drop_last(), pairs.last().0@);
    }
}

/// A mapping from variable names to their values.
#[derive(Debug)]
pub struct VarMap {
    pairs: Vec<(String, String)>,
}

impl View for VarMap {
    type V = Map<Seq<char>, Seq<char>>;

    closed spec fn view(&self) -> Map<Seq<char>, Seq<char>> {
        spec_pairs_map(self.pairs@)
    }
}

impl VarMap {
    /// Each name occurs at most once in the backing store.
    pub closed spec fn wf(&self) -> bool {
        unique_keys(self.pairs@)
    }

    /// An empty mapping.
    pub fn new() -> (r: VarMap)
        ensures
            r.wf(),
            r@ == Map::<Seq<char>, Seq<char>>::empty(),
    {
        VarMap { pairs: Vec::new() }
    }

    /// Bind `key` to `value`, overwriting any earlier binding of `key`.
    pub fn insert(&mut self, key: String, value: String)
        requires
            old(self).wf(),
        ensures
            final(self).wf(),
            final(self)@ == old(self)@.insert(key@, value@),
    {
        let n = self.pairs.len();
        let mut j: usize = 0;
        while j < n
            invariant
                0 <= j <= n,
                n == self.pairs@.len(),
                self == old(self),
                self.wf(),
                forall|i: int| 0 <= i < j ==> self.pairs@[i].0@ != key@,
            decreases n - j,
        {
            if self.pairs[j].0 == key {
                proof {
                    lemma_pairs_map_update(self.pairs@, j as int, (key, value));
                }
                self.pairs.set(j, (key, value));
                return ;
            }
            j += 1;
        }
        proof {
            lemma_pairs_map_absent(self.pairs@, key@);
            assert(self.pairs@.push((key, value)).drop_last() =~= self.pairs@);
        }
        self.pairs.push((key, value));
    }

    /// The value bound to `key`, when one is.
    pub fn get(&self, key: &str) -> (r: Option<&String>)
        requires
            self.wf(),
        ensures
            match r {
                Some(v) => self@.contains_key(key@) && self@[key@] == v@,
                None => !self@.contains_key(key@),
            },
    {
        let n = self.pairs.len();
        let mut j: usize = 0;
        while j < n
            invariant
                0 <= j <= n,
                n == self.pairs@.len(),
                self.wf(),
                forall|i: int| 0 <= i < j ==> self.pairs@[i].0@ != key@,
            decreases n - j,
        {
            if str_eq(self.pairs[j].0.as_str(), key) {
                proof {
                    lemma_pairs_map_lookup(self.pairs@, j as int);
                }
                return Some(&self.pairs[j].1);
            }
            j += 1;
        }
        proof {
            lemma_pairs_map_absent(self.pairs@, key@);
        }
        None
    }

    /// How many variables are bound.
    pub fn len(&self) -> (n: usize)
        requires
            self.wf(),
        ensures
            self@.dom().finite(),
            n == self@.len(),
    {
        proof {
            lemma_pairs_map_len(self.pairs@);
        }
        self.pairs.len()
    }
}

/// Whether two strings hold the same characters.
fn str_eq(a: &str, b: &str) -> (r: bool)
    ensures
        r == (a@ == b@),
{
    let n = a.unicode_len();
    if n != b.unicode_len() {
        return false;
    }
    let mut i: usize = 0;
    while i < n
        invariant
            0 <= i <= n,
            n == a@.len(),
            n == b@.len(),
            forall|k: int| 0 <= k < i ==> a@[k] == b@[k],
        decreases n - i,
    {
        if a.get_char(i) != b.get_char(i) {
            return false;
        }
        i += 1;
    }
    proof {
        assert(a@ =~= b@);
    }
    true
}

} // verus!
