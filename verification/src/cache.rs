//! The result cache: a mapping from request fingerprint to computed result.
//!
//! Entries are created on first computation of a fingerprint and never
//! evicted; because the computation is a pure function of the fingerprint,
//! a stored result is valid forever.

use vstd::prelude::*;

use crate::calculator::Req;
use crate::decimal::Dec2;

verus! {

/// A computed accrual: net interest and bonus interest.
#[derive(Clone, Copy, PartialEq, Eq, Structural, Debug)]
pub struct CalcResult {
    pub interest: Dec2,
    pub bean_int: Dec2,
}

/// The mapping a sequence of `(fingerprint, result)` entries denotes; a
/// later entry for the same fingerprint overwrites an earlier one.
pub open spec fn map_of_entries(s: Seq<(Req, CalcResult)>) -> Map<Req, CalcResult>
    decreases s.len(),
{
    if s.len() == 0 {
        Map::empty()
    } else {
        map_of_entries(s.drop_last()).insert(s.last().0, s.last().1)
    }
}

/// The memoization cache from fingerprint to computed result.  No eviction,
/// no size bound; a fingerprint once inserted returns its stored result on
/// every subsequent lookup.
pub struct ResultCache {
    entries: Vec<(Req, CalcResult)>,
}

impl ResultCache {
    /// The mapping the cache holds.
    pub closed spec fn contents(&self) -> Map<Req, CalcResult> {
        map_of_entries(self.entries@)
    }

    /// An empty cache.
    pub fn new() -> (r: ResultCache)
        ensures
            r.contents() == Map::<Req, CalcResult>::empty(),
    {
        ResultCache { entries: Vec::new() }
    }

    /// Looks a fingerprint up: the stored result, or `None` if the
    /// fingerprint was never inserted.
    pub fn get(&self, req: &Req) -> (r: Option<CalcResult>)
        ensures
            r == if self.contents().contains_key(*req) {
                Some(self.contents()[*req])
            } else {
                None::<CalcResult>
            },
    {
        let n = self.entries.len();
        let mut j = n;
        proof {
            assert(self.entries@.take(n as int) =~= self.entries@);
        }
        while j > 0
            invariant
                j <= n == self.entries@.len(),
                map_of_entries(self.entries@).contains_key(*req) <==> map_of_entries(
                    self.entries@.take(j as int),
                ).contains_key(*req),
                map_of_entries(self.entries@).contains_key(*req) ==> map_of_entries(
                    self.entries@.take(j as int),
                )[*req] == map_of_entries(self.entries@)[*req],
            decreases j,
        {
            j = j - 1;
            proof {
                assert(self.entries@.take(j + 1).drop_last() =~= self.entries@.take(j as int));
                assert(self.entries@.take(j + 1).last() == self.entries@[j as int]);
            }
            let entry = &self.entries[j];
            if entry.0 == *req {
                return Some(entry.1);
            }
        }
        proof {
            assert(self.entries@.take(0) =~= Seq::<(Req, CalcResult)>::empty());
        }
        None
    }

    /// Stores a result for a fingerprint, overwriting any earlier entry.
    pub fn insert(&mut self, req: Req, res: CalcResult)
        ensures
            final(self).contents() == old(self).contents().insert(req, res),
    {
        self.entries.push((req, res));
        proof {
            assert(self.entries@.drop_last() =~= old(self).entries@);
        }
    }
}

/// A fingerprint inserted once returns the same stored result on every
/// lookup: the mapping after an insert holds exactly the inserted result at
/// that key, and a lookup reads the mapping without changing it.
pub proof fn lemma_cache_stable(m: Map<Req, CalcResult>, req: Req, res: CalcResult)
    ensures
        m.insert(req, res).contains_key(req),
        m.insert(req, res)[req] == res,
{
}

} // verus!
