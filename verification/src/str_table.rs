//! A small string-to-string table, viewed as a `Map<Seq<char>, Seq<char>>`.
//!
//! It backs the read-only environment snapshot and the growing mapping of
//! already-resolved constant values. Later insertions win, which is all the
//! resolution engine needs: it never inserts the same key twice.

use vstd::prelude::*;

verus! {

/// The map a pair list denotes: pairs are inserted left to right, so a
/// later binding of a key shadows an earlier one.
pub open spec fn table_map(s: Seq<(String, String)>) -> Map<Seq<char>, Seq<char>>
    decreases s.len(),
{
    if s.len() == 0 {
        Map::empty()
    } else {
        table_map(s.drop_last()).insert(s.last().0@, s.last().1@)
    }
}

proof fn lemma_table_map_found(s: Seq<(String, String)>, i: int, k: Seq<char>)
    requires
        0 <= i < s.len(),
        s[i].0@ == k,
        forall|j: int| i < j < s.len() ==> #[trigger] s[j].0@ != k,
    ensures
        table_map(s).contains_key(k),
        table_map(s)[k] == s[i].1@,
    decreases s.len(),
{
    if i == s.len() - 1 {
    } else {
        lemma_table_map_found(s.drop_last(), i, k);
    }
}

proof fn lemma_table_map_absent(s: Seq<(String, String)>, k: Seq<char>)
    requires
        forall|j: int| 0 <= j < s.len() ==> #[trigger] s[j].0@ != k,
    ensures
        !table_map(s).contains_key(k),
    decreases s.len(),
{
    if s.len() > 0 {
        lemma_table_map_absent(s.drop_last(), k);
    }
}

/// An association list of strings with map semantics.
pub struct StrTable {
    pairs: Vec<(String, String)>,
}

impl View for StrTable {
    type V = Map<Seq<char>, Seq<char>>;

    closed spec fn view(&self) -> Map<Seq<char>, Seq<char>> {
        table_map(self.pairs@)
    }
}

impl StrTable {
    /// The empty table.
    pub fn new() -> (r: Self)
        ensures
            r@ == Map::<Seq<char>, Seq<char>>::empty(),
    {
        StrTable { pairs: Vec::new() }
    }

    /// Binds `k` to `v`, shadowing any earlier binding of `k`.
    pub fn insert(&mut self, k: String, v: String)
        ensures
            final(self)@ == old(self)@.insert(k@, v@),
    {
        let ghost gk = k@;
        let ghost gv = v@;
        let ghost before = self.pairs@;
        self.pairs.push((k, v));
        proof {
            assert(self.pairs@.drop_last() =~= before);
        }
    }

    /// Looks `k` up.
    pub fn get(&self, k: &str) -> (r: Option<&String>)
        ensures
            match r {
                Some(v) => self@.contains_key(k@) && v@ == self@[k@],
                None => !self@.contains_key(k@),
            },
    {
        let mut i: usize = self.pairs.len();
        loop
            invariant
                i <= self.pairs.len(),
                forall|j: int| i <= j < self.pairs@.len() ==> #[trigger] self.pairs@[j].0@ != k@,
            decreases i,
        {
            if i == 0 {
                proof {
                    lemma_table_map_absent(self.pairs@, k@);
                }
                return None;
            }
            i = i - 1;
            if crate::text::str_eq(self.pairs[i].0.as_str(), k) {
                proof {
                    lemma_table_map_found(self.pairs@, i as int, k@);
                }
                return Some(&self.pairs[i].1);
            }
        }
    }

    /// Whether `k` is bound.
    pub fn contains(&self, k: &str) -> (r: bool)
        ensures
            r == self@.contains_key(k@),
    {
        match self.get(k) {
            Some(_) => true,
            None => false,
        }
    }
}

} // verus!
