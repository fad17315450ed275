//! The computation pipeline's decision logic.
//!
//! The interactive layer owns a [`Session`]: the result cache plus the
//! outbound queue of fingerprints waiting to be computed.  A background
//! worker repeatedly takes a coalesced batch, computes every fingerprint in
//! it (each result depends on its own fingerprint alone, so the batch may
//! be fanned out in any order), and hands the batch of results back to be
//! merged into the cache.  Everything that decides — what to enqueue, how
//! to coalesce, what a batch's results must be, how results merge — is
//! here; carrying batches between threads is the caller's transport.

use vstd::prelude::*;

use crate::cache::{CalcResult, ResultCache};
use crate::calculator::{calc_spec, Req, req_computable};
use crate::config::{Order, Product};

verus! {

/// The cache seeded from a stored configuration: each product's last
/// computed outputs, keyed by its fingerprint against the order; a later
/// product with the same fingerprint wins.
pub open spec fn seeded_map(order: Order, products: Seq<Product>) -> Map<Req, CalcResult>
    decreases products.len(),
{
    if products.len() == 0 {
        Map::empty()
    } else {
        let p = products.last();
        seeded_map(order, products.drop_last()).insert(
            Req::new_spec(order, p),
            CalcResult { interest: p.interest, bean_int: p.bean_int },
        )
    }
}

/// The interactive layer's session state: the result cache and the queue
/// of fingerprints not yet handed to the worker.
pub struct Session {
    cache: ResultCache,
    pending: Vec<Req>,
}

impl Session {
    /// The mapping the session's cache holds.
    pub closed spec fn cached(&self) -> Map<Req, CalcResult> {
        self.cache.contents()
    }

    /// The fingerprints enqueued and not yet taken by the worker.
    pub closed spec fn pending_reqs(&self) -> Seq<Req> {
        self.pending@
    }

    /// A fresh session: the cache pre-seeded with each product's stored
    /// outputs, nothing pending.
    pub fn new(order: &Order, products: &Vec<Product>) -> (r: Session)
        ensures
            r.cached() == seeded_map(*order, products@),
            r.pending_reqs() == Seq::<Req>::empty(),
    {
        let mut cache = ResultCache::new();
        let n = products.len();
        let mut i: usize = 0;
        while i < n
            invariant
                i <= n == products@.len(),
                cache.contents() == seeded_map(*order, products@.take(i as int)),
            decreases n - i,
        {
            let p = &products[i];
            cache.insert(
                Req::new(order, p),
                CalcResult { interest: p.interest, bean_int: p.bean_int },
            );
            proof {
                assert(products@.take(i + 1).drop_last() =~= products@.take(i as int));
            }
            i = i + 1;
        }
        proof {
            assert(products@.take(n as int) =~= products@);
        }
        Session { cache, pending: Vec::new() }
    }

    /// Asks for a fingerprint's result: a cache hit returns the stored
    /// result and changes nothing; a miss enqueues the fingerprint for the
    /// worker and returns nothing.
    pub fn request(&mut self, req: Req) -> (r: Option<CalcResult>)
        ensures
            final(self).cached() == old(self).cached(),
            old(self).cached().contains_key(req) ==> {
                &&& r == Some(old(self).cached()[req])
                &&& final(self).pending_reqs() == old(self).pending_reqs()
            },
            !old(self).cached().contains_key(req) ==> {
                &&& r == None::<CalcResult>
                &&& final(self).pending_reqs() == old(self).pending_reqs().push(req)
            },
    {
        let hit = self.cache.get(&req);
        if hit.is_none() {
            self.pending.push(req);
        }
        hit
    }

    /// Takes everything pending as one batch for the worker, coalescing
    /// duplicates: the batch holds each pending fingerprint exactly once,
    /// and nothing is left pending.
    pub fn take_batch(&mut self) -> (batch: Vec<Req>)
        ensures
            final(self).cached() == old(self).cached(),
            final(self).pending_reqs() == Seq::<Req>::empty(),
            forall|r: Req| batch@.contains(r) <==> old(self).pending_reqs().contains(r),
            forall|i: int, j: int| 0 <= i < j < batch@.len() ==> batch@[i] != batch@[j],
    {
        let mut batch: Vec<Req> = Vec::new();
        let n = self.pending.len();
        let mut i: usize = 0;
        while i < n
            invariant
                i <= n == self.pending@.len(),
                forall|r: Req| batch@.contains(r) <==> self.pending@.take(i as int).contains(r),
                forall|i2: int, j2: int| 0 <= i2 < j2 < batch@.len() ==> batch@[i2] != batch@[j2],
            decreases n - i,
        {
            let req = self.pending[i];
            let mut seen = false;
            let m = batch.len();
            let mut j: usize = 0;
            while j < m
                invariant
                    j <= m == batch@.len(),
                    seen <==> exists|k: int| 0 <= k < j && batch@[k] == req,
                decreases m - j,
            {
                if batch[j] == req {
                    seen = true;
                }
                j = j + 1;
            }
            let ghost batch0 = batch@;
            if !seen {
                batch.push(req);
            }
            proof {
                let pend = self.pending@;
                assert(pend.take(i + 1).drop_last() =~= pend.take(i as int));
                assert(pend.take(i + 1).last() == pend[i as int]);
                assert forall|r: Req| #[trigger] pend.take(i + 1).contains(r) implies (pend.take(
                    i as int,
                ).contains(r) || r == pend[i as int]) by {
                    let k = choose|k: int|
                        0 <= k < pend.take(i + 1).len() && #[trigger] pend.take(i + 1)[k] == r;
                    if k < i {
                        assert(pend.take(i as int)[k] == r);
                    }
                };
                assert forall|r: Req|
                    pend.take(i as int).contains(r) || r == pend[i as int] implies #[trigger] pend
                    .take(i + 1).contains(r) by {
                    if pend.take(i as int).contains(r) {
                        let k = choose|k: int| 0 <= k < i && #[trigger] pend.take(i as int)[k] == r;
                        assert(pend.take(i + 1)[k] == r);
                    } else {
                        assert(pend.take(i + 1)[i as int] == r);
                    }
                };
                if !seen {
                    assert forall|r: Req| #[trigger] batch@.contains(r) implies (batch0.contains(r)
                        || r == req) by {
                        let k = choose|k: int| 0 <= k < batch@.len() && #[trigger] batch@[k] == r;
                        if k < batch0.len() {
                            assert(batch0[k] == r);
                        }
                    };
                    assert forall|r: Req|
                        batch0.contains(r) || r == req implies #[trigger] batch@.contains(r) by {
                        if batch0.contains(r) {
                            let k = choose|k: int| 0 <= k < batch0.len() && #[trigger] batch0[k] == r;
                            assert(batch@[k] == r);
                        } else {
                            assert(batch@[batch0.len() as int] == r);
                        }
                    };
                } else {
                    assert(batch@.contains(req));
                }
            }
            i = i + 1;
        }
        proof {
            assert(self.pending@.take(n as int) =~= self.pending@);
        }
        self.pending = Vec::new();
        batch
    }

    /// Merges a batch of computed results into the cache; within the batch
    /// a later entry for the same fingerprint wins.  Nothing else changes.
    pub fn merge_batch(&mut self, results: &Vec<(Req, CalcResult)>)
        ensures
            final(self).pending_reqs() == old(self).pending_reqs(),
            final(self).cached() == merged_map(old(self).cached(), results@),
    {
        let n = results.len();
        let mut i: usize = 0;
        while i < n
            invariant
                i <= n == results@.len(),
                self.pending@ == old(self).pending@,
                self.cache.contents() == merged_map(
                    old(self).cache.contents(),
                    results@.take(i as int),
                ),
            decreases n - i,
        {
            let entry = &results[i];
            self.cache.insert(entry.0, entry.1);
            proof {
                assert(results@.take(i + 1).drop_last() =~= results@.take(i as int));
            }
            i = i + 1;
        }
        proof {
            assert(results@.take(n as int) =~= results@);
        }
    }
}

/// A mapping updated by a sequence of `(fingerprint, result)` entries.
pub open spec fn merged_map(
    m: Map<Req, CalcResult>,
    s: Seq<(Req, CalcResult)>,
) -> Map<Req, CalcResult>
    decreases s.len(),
{
    if s.len() == 0 {
        m
    } else {
        merged_map(m, s.drop_last()).insert(s.last().0, s.last().1)
    }
}

/// Computes one batch, fingerprint by fingerprint: the worker's whole job.
/// Each result is exactly the pure computation of its own fingerprint, so
/// any parallel schedule of the same batch returns the same results.
pub fn compute_batch(reqs: &Vec<Req>) -> (results: Vec<(Req, CalcResult)>)
    requires
        forall|i: int| 0 <= i < reqs@.len() ==> req_computable(#[trigger] reqs@[i]),
    ensures
        results@.len() == reqs@.len(),
        forall|i: int| 0 <= i < reqs@.len() ==> (#[trigger] results@[i]).0 == reqs@[i],
        forall|i: int|
            0 <= i < reqs@.len() ==> (#[trigger] results@[i]).1 == (CalcResult {
                interest: calc_spec(reqs@[i]).0,
                bean_int: calc_spec(reqs@[i]).1,
            }),
{
    let n = reqs.len();
    let mut results: Vec<(Req, CalcResult)> = Vec::new();
    let mut i: usize = 0;
    while i < n
        invariant
            i <= n == reqs@.len(),
            results@.len() == i,
            forall|k: int| 0 <= k < reqs@.len() ==> req_computable(#[trigger] reqs@[k]),
            forall|k: int| 0 <= k < i ==> (#[trigger] results@[k]).0 == reqs@[k],
            forall|k: int|
                0 <= k < i ==> (#[trigger] results@[k]).1 == (CalcResult {
                    interest: calc_spec(reqs@[k]).0,
                    bean_int: calc_spec(reqs@[k]).1,
                }),
        decreases n - i,
    {
        let req = reqs[i];
        let r = crate::calculator::calc(&req);
        results.push((req, CalcResult { interest: r.0, bean_int: r.1 }));
        i = i + 1;
    }
    results
}

/// Writes every product's cached result into its output fields: product `i`
/// takes the cache's entry for its fingerprint against `order`, or keeps
/// its outputs when nothing is cached for it.  No other field changes.
pub fn refresh_products(session: &Session, order: &Order, products: &mut Vec<Product>)
    ensures
        final(products)@.len() == old(products)@.len(),
        forall|i: int|
            0 <= i < old(products)@.len() ==> final(products)@[i] == ({
                let p = old(products)@[i];
                let fp = Req::new_spec(*order, p);
                if session.cached().contains_key(fp) {
                    Product {
                        interest: session.cached()[fp].interest,
                        bean_int: session.cached()[fp].bean_int,
                        ..p
                    }
                } else {
                    p
                }
            }),
{
    let n = products.len();
    let mut i: usize = 0;
    while i < n
        invariant
            i <= n == products@.len(),
            products@.len() == old(products)@.len(),
            forall|k: int| i <= k < products@.len() ==> products@[k] == old(products)@[k],
            forall|k: int|
                0 <= k < i ==> products@[k] == ({
                    let p = old(products)@[k];
                    let fp = Req::new_spec(*order, p);
                    if session.cached().contains_key(fp) {
                        Product {
                            interest: session.cached()[fp].interest,
                            bean_int: session.cached()[fp].bean_int,
                            ..p
                        }
                    } else {
                        p
                    }
                }),
        decreases n - i,
    {
        let fp = Req::new(order, &products[i]);
        if let Some(res) = session.cache_get(&fp) {
            let p = &mut products[i];
            p.interest = res.interest;
            p.bean_int = res.bean_int;
        }
        i = i + 1;
    }
}

impl Session {
    /// Reads the cache without changing anything.
    pub fn cache_get(&self, req: &Req) -> (r: Option<CalcResult>)
        ensures
            r == if self.cached().contains_key(*req) {
                Some(self.cached()[*req])
            } else {
                None::<CalcResult>
            },
    {
        self.cache.get(req)
    }
}

} // verus!
