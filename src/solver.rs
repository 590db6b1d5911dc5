use std::collections::BTreeMap;
use std::sync::Arc;

use vstd::prelude::*;

use crate::bateman::{
    distinct_constants, denominator, fraction_sum, path_term, product_range, table_activities, table_map, table_nuclides,
};
use crate::decay_data::{lambda_of, progeny_of};
use crate::decay_data::DecayData;
use crate::inventory::{added, Arithmetic, Inventory};
use crate::nuclide::Nuclide;
use crate::paths::{
    decay_reachable, enumerate_paths, lemma_table_nuclides, lemma_terminal_table, path_table_spec,
    PathError, PathTable,
    Step,
};

verus! {

/// Relies on `Arc::clone` from std: the new handle points to the same value.
#[verifier::external_body]
fn share<T>(a: &Arc<T>) -> (r: Arc<T>)
    ensures
        r == *a,
{
    Arc::clone(a)
}

/// The view of a lookup's answer.
pub open spec fn table_view<W>(r: Result<Arc<PathTable<W>>, PathError>) -> Result<Seq<Step<W>>, PathError> {
    match r {
        Ok(t) => Ok(t@),
        Err(e) => Err(e),
    }
}

/// Holds decay data and, per parent nuclide, the table of its decay paths, built on first
/// demand and never changed after. The tables are kept by the parent's integer key.
pub struct BatemanDecaySolver<W> {
    decay_data: DecayData<W>,
    cache: BTreeMap<u64, Arc<PathTable<W>>>,
}

impl<W> BatemanDecaySolver<W> {
    /// The path table of `parent` as the data gives it.
    pub open spec fn expected_table(&self, parent: Nuclide) -> Result<Seq<Step<W>>, PathError> {
        path_table_spec(self.data_view(), self.data_len(), parent)
    }

    pub closed spec fn data_view(&self) -> crate::paths::DataView<W> {
        self.decay_data@
    }

    pub closed spec fn data_len(&self) -> nat {
        self.decay_data.spec_len()
    }

    /// The parents whose table is held.
    pub closed spec fn cached(&self) -> Set<Nuclide> {
        Set::new(|n: Nuclide| self.cache@.contains_key(n.spec_key()))
    }

    /// Every held table is the one the data gives for its parent.
    pub closed spec fn wf(&self) -> bool {
        forall|n: Nuclide|
            #[trigger] self.cache@.contains_key(n.spec_key()) ==> self.expected_table(n) == Ok::<
                Seq<Step<W>>,
                PathError,
            >(self.cache@[n.spec_key()]@)
    }

    /// What a lookup of `parent` does, taking the solver from `before` to `after` with
    /// answer `r`: the answer is the table the data gives, a held table is reused with
    /// nothing changed, a failed lookup changes nothing, and a table built anew is held
    /// from then on.
    pub open spec fn lookup_post(before: Self, after: Self, parent: Nuclide, r: Result<Seq<Step<W>>, PathError>) -> bool {
        &&& after.wf()
        &&& after.data_view() == before.data_view()
        &&& after.data_len() == before.data_len()
        &&& r == before.expected_table(parent)
        &&& before.cached().contains(parent) ==> after == before
        &&& r is Err ==> after == before
        &&& !before.cached().contains(parent) ==> after.cached() == (if r is Ok {
            before.cached().insert(parent)
        } else {
            before.cached()
        })
    }

    /// Asking twice for the table of the same parent gives the same answer, and the second
    /// lookup leaves the solver exactly as the first left it: the data is read once per
    /// parent.
    pub proof fn lemma_lookup_memoized(
        s0: Self,
        s1: Self,
        s2: Self,
        parent: Nuclide,
        r1: Result<Seq<Step<W>>, PathError>,
        r2: Result<Seq<Step<W>>, PathError>,
    )
        requires
            s0.wf(),
            Self::lookup_post(s0, s1, parent, r1),
            Self::lookup_post(s1, s2, parent, r2),
        ensures
            r2 == r1,
            s2 == s1,
    {
        if r1 is Ok {
            assert(s1.cached().contains(parent));
        }
    }

    /// After a decay of some sources has succeeded, each of them is held or has no table,
    /// so a second decay of the same sources, at any time, leaves the solver unchanged and
    /// reads no data again.
    pub proof fn lemma_second_decay_reads_nothing(s0: Self, s1: Self, sources: Set<Nuclide>)
        requires
            s1.data_view() == s0.data_view(),
            s1.data_len() == s0.data_len(),
            forall|n: Nuclide|
                #[trigger] sources.contains(n) && s0.expected_table(n) is Ok ==> s1.cached().contains(n),
        ensures
            forall|n: Nuclide|
                #[trigger] sources.contains(n) ==> s1.cached().contains(n) || s1.expected_table(n) is Err,
    {
    }

    /// A solver over `decay_data` that holds no table yet.
    pub fn new(decay_data: DecayData<W>) -> (r: Self)
        ensures
            r.wf(),
            r.data_view() == decay_data@,
            r.data_len() == decay_data.spec_len(),
            r.cached() == Set::<Nuclide>::empty(),
    {
        let r = BatemanDecaySolver { decay_data, cache: BTreeMap::new() };
        assert(r.cached() =~= Set::<Nuclide>::empty());
        r
    }

    /// The data the solver works on.
    pub fn decay_data(&self) -> (r: &DecayData<W>)
        ensures
            r@ == self.data_view(),
            r.spec_len() == self.data_len(),
    {
        &self.decay_data
    }

    /// Whether the table of `parent` is held.
    pub fn is_cached(&self, parent: Nuclide) -> (r: bool)
        ensures
            r == self.cached().contains(parent),
    {
        broadcast use {vstd::laws_cmp::group_laws_cmp, vstd::std_specs::btree::group_btree_axioms};

        self.cache.contains_key(&parent.key())
    }

    /// The table of every decay path from `parent`: the held one where there is one,
    /// else built from the data and then held.
    ///
    /// Once a parent's table is held, asking for it again changes nothing and returns the
    /// same table: the data is read once per parent.
    pub fn path_table(&mut self, parent: Nuclide) -> (r: Result<Arc<PathTable<W>>, PathError>) where
        W: Copy,

        requires
            old(self).wf(),
        ensures
            final(self).wf(),
            final(self).data_view() == old(self).data_view(),
            final(self).data_len() == old(self).data_len(),
            Self::lookup_post(*old(self), *final(self), parent, table_view(r)),
    {
        broadcast use {vstd::laws_cmp::group_laws_cmp, vstd::std_specs::btree::group_btree_axioms};

        let key = parent.key();
        match self.cache.get(&key) {
            Some(held) => {
                let t = share(held);
                return Ok(t);
            },
            None => {},
        }
        match enumerate_paths(&self.decay_data, parent) {
            Ok(table) => {
                let t = Arc::new(table);
                self.cache.insert(key, share(&t));
                proof {
                    assert forall|n: Nuclide| #[trigger] self.cache@.contains_key(n.spec_key()) implies self.expected_table(n)
                        == Ok::<Seq<Step<W>>, PathError>(self.cache@[n.spec_key()]@) by {
                        Nuclide::lemma_key_injective(n, parent);
                    }
                    assert forall|n: Nuclide| #[trigger]
                        self.cached().contains(n) == old(self).cached().insert(parent).contains(n) by {
                        Nuclide::lemma_key_injective(n, parent);
                    }
                    assert(self.cached() =~= old(self).cached().insert(parent));
                }
                Ok(t)
            },
            Err(e) => Err(e),
        }
    }
}

/// The nuclides that the sources in `sources` give activity to: those on the path tables
/// of the sources that have one.
pub open spec fn decayed_nuclides<W>(s: BatemanDecaySolver<W>, sources: Set<Nuclide>) -> Set<Nuclide> {
    Set::new(
        |d: Nuclide|
            exists|n: Nuclide|
                #![trigger sources.contains(n), s.expected_table(n)]
                sources.contains(n) && s.expected_table(n) is Ok && table_nuclides(
                    s.expected_table(n)->Ok_0,
                ).contains(d),
    )
}

/// After decay, the inventory holds exactly the nuclides reached from its sources: each
/// source with a path table, and every nuclide that source reaches by decays whose
/// daughters have known decay constants.
pub proof fn lemma_decay_holds_reachable<W>(s: BatemanDecaySolver<W>, sources: Set<Nuclide>, d: Nuclide)
    ensures
        decayed_nuclides(s, sources).contains(d) <==> exists|n: Nuclide|
            #![trigger sources.contains(n), s.expected_table(n)]
            sources.contains(n) && s.expected_table(n) is Ok && decay_reachable(
                s.data_view(),
                n,
                d,
            ),
{
    if decayed_nuclides(s, sources).contains(d) {
        let n = choose|n: Nuclide|
            #![trigger sources.contains(n), s.expected_table(n)]
            sources.contains(n) && s.expected_table(n) is Ok && table_nuclides(
                s.expected_table(n)->Ok_0,
            ).contains(d);
        let t = s.expected_table(n)->Ok_0;
        lemma_table_nuclides(s.data_view(), s.data_len(), n, t, d);
        assert(table_nuclides(t).contains(d));
        assert(exists|i: int| 0 <= i < t.len() && (#[trigger] t[i]).0 == d);
    }
    if exists|n: Nuclide|
        #![trigger sources.contains(n), s.expected_table(n)]
        sources.contains(n) && s.expected_table(n) is Ok && decay_reachable(s.data_view(), n, d) {
        let n = choose|n: Nuclide|
            #![trigger sources.contains(n), s.expected_table(n)]
            sources.contains(n) && s.expected_table(n) is Ok && decay_reachable(s.data_view(), n, d);
        let t = s.expected_table(n)->Ok_0;
        lemma_table_nuclides(s.data_view(), s.data_len(), n, t, d);
        assert(table_nuclides(t).contains(d));
    }
}

/// `m` with the activities of `r`, each times `a`, added to it.
pub open spec fn scaled_merge<W: Arithmetic>(m: Map<Nuclide, W>, r: Map<Nuclide, W>, a: W) -> Map<
    Nuclide,
    W,
> {
    Map::new(
        |d: Nuclide| m.contains_key(d) || r.contains_key(d),
        |d: Nuclide|
            if r.contains_key(d) {
                added(m, d, a.spec_times(r[d]))
            } else {
                m[d]
            },
    )
}

/// The inventory after time `t` from the first `i` of the sources `srcs`, whose activities
/// `acts` gives: for each source with a path table, its activity times its table's
/// activities, added per nuclide in the order of the sources.
pub open spec fn decay_map<W: Arithmetic>(
    s: BatemanDecaySolver<W>,
    srcs: Seq<Nuclide>,
    acts: Map<Nuclide, W>,
    t: W,
    i: int,
) -> Map<Nuclide, W>
    decreases i,
{
    if i <= 0 {
        Map::empty()
    } else {
        let m = decay_map(s, srcs, acts, t, i - 1);
        let n = srcs[i - 1];
        match s.expected_table(n) {
            Ok(tb) => scaled_merge(m, table_map(tb, t, tb.len() as int), acts[n]),
            Err(_) => m,
        }
    }
}

/// A nuclide with a known decay constant `l` and no progeny gives, per unit of activity,
/// activity to itself alone: `0 + (1 × 1) × (0 + exp(-l t) / 1)` in the caller's
/// arithmetic, which is plain exponential decay.
pub proof fn lemma_lone_nuclide<W: Arithmetic>(s: BatemanDecaySolver<W>, n: Nuclide, l: W, t: W)
    requires
        lambda_of(s.data_view(), n) == Some(l),
        progeny_of(s.data_view(), n).len() == 0,
    ensures
        s.expected_table(n) is Ok,
        ({
            let tb = s.expected_table(n)->Ok_0;
            table_map(tb, t, tb.len() as int) == map![n => W::spec_zero().spec_plus(
                W::spec_one().spec_times(W::spec_one()).spec_times(
                    W::spec_zero().spec_plus(l.spec_surviving(t).spec_over(W::spec_one())),
                ),
            )]
        }),
{
    lemma_terminal_table(s.decay_data, n, l);
    let e: Step<W> = (n, Seq::<W>::empty(), seq![l]);
    let tb = seq![e];
    assert(s.expected_table(n) == Ok::<Seq<Step<W>>, PathError>(tb));
    assert(product_range(e.2, 1, 1) == W::spec_one());
    assert(product_range(e.1, 0, 0) == W::spec_one());
    assert(e.2.remove(0) =~= Seq::<W>::empty());
    assert(denominator(e.2.remove(0), l, 0) == W::spec_one());
    assert(fraction_sum(e.2, t, 0) == W::spec_zero());
    assert(fraction_sum(e.2, t, 1) == W::spec_zero().spec_plus(l.spec_surviving(t).spec_over(W::spec_one())));
    assert(table_map(tb, t, 0) == Map::<Nuclide, W>::empty());
    assert(table_map(tb, t, 1) =~= map![n => W::spec_zero().spec_plus(path_term(e, t))]);
}

/// The activities after time `t` that one unit of `n` gives rise to, or why there are
/// none: no path table, or a path with the same decay constant twice.
pub open spec fn activities_spec<W: Arithmetic>(s: BatemanDecaySolver<W>, n: Nuclide, t: W) -> Result<
    Map<Nuclide, W>,
    PathError,
> {
    match s.expected_table(n) {
        Err(e) => Err(e),
        Ok(tb) => if distinct_constants(tb) {
            Ok(table_map(tb, t, tb.len() as int))
        } else {
            Err(PathError::EqualConstants)
        },
    }
}

/// The fault in the data below source `n`, if any: a cycle, or a path with the same decay
/// constant twice. A source without a decay constant is no fault; it adds nothing.
pub open spec fn fault_of<W>(s: BatemanDecaySolver<W>, n: Nuclide) -> Option<PathError> {
    match s.expected_table(n) {
        Err(PathError::Cyclic) => Some(PathError::Cyclic),
        Err(_) => None,
        Ok(tb) => if distinct_constants(tb) {
            None
        } else {
            Some(PathError::EqualConstants)
        },
    }
}

impl<W: Arithmetic> BatemanDecaySolver<W> {
    /// The activity after time `t` of every nuclide that one unit of `nuclide` gives rise
    /// to, or why there is none: `NotFound` or `Cyclic` where the data gives `nuclide` no
    /// path table, `EqualConstants` where a path has the same decay constant twice.
    pub fn bateman_eq(&mut self, nuclide: Nuclide, t: W) -> (r: Result<Inventory<W>, PathError>)
        requires
            old(self).wf(),
        ensures
            final(self).wf(),
            final(self).data_view() == old(self).data_view(),
            final(self).data_len() == old(self).data_len(),
            match r {
                Ok(inv) => activities_spec(*old(self), nuclide, t) == Ok::<Map<Nuclide, W>, PathError>(inv@)
                    && inv.wf() && inv@.dom() == table_nuclides(old(self).expected_table(nuclide)->Ok_0),
                Err(e) => activities_spec(*old(self), nuclide, t) == Err::<Map<Nuclide, W>, PathError>(e),
            },
            old(self).cached().contains(nuclide) ==> *final(self) == *old(self),
            old(self).expected_table(nuclide) is Err ==> *final(self) == *old(self),
            final(self).cached() == (if old(self).expected_table(nuclide) is Ok {
                old(self).cached().insert(nuclide)
            } else {
                old(self).cached()
            }),
    {
        let r = match self.path_table(nuclide) {
            Ok(table) => match table_activities(&table, t) {
                Some(inv) => Ok(inv),
                None => Err(PathError::EqualConstants),
            },
            Err(e) => Err(e),
        };
        proof {
            if old(self).cached().contains(nuclide) {
                assert(old(self).cached().insert(nuclide) =~= old(self).cached());
            }
        }
        r
    }

    /// The inventory after `decay_time`: for each source, its activity times what one unit
    /// of it gives rise to, added up per nuclide. A source without a decay constant adds
    /// nothing. A fault in the data below a source (a cycle, or a path with the same decay
    /// constant twice) is reported, not passed over.
    pub fn decay(&mut self, inventory: &Inventory<W>, decay_time: W) -> (r: Result<Inventory<W>, PathError>)
        requires
            old(self).wf(),
            inventory.wf(),
        ensures
            final(self).wf(),
            final(self).data_view() == old(self).data_view(),
            final(self).data_len() == old(self).data_len(),
            match r {
                Ok(inv) => {
                    &&& forall|n: Nuclide| #[trigger] inventory@.contains_key(n) ==> fault_of(*old(self), n) is None
                    &&& inv.wf()
                    &&& inv@ == decay_map(*old(self), inventory.order(), inventory@, decay_time, inventory.order().len() as int)
                    &&& inv@.dom() == decayed_nuclides(*old(self), inventory@.dom())
                    &&& forall|n: Nuclide|
                        #[trigger] inventory@.contains_key(n) && old(self).expected_table(n) is Ok ==> final(self).cached().contains(n)
                },
                Err(e) => exists|n: Nuclide| #[trigger] inventory@.contains_key(n) && fault_of(*old(self), n) == Some(e),
            },
            old(self).cached().subset_of(final(self).cached()),
            (forall|n: Nuclide| #[trigger] inventory@.contains_key(n) ==> old(self).cached().contains(n)
                || old(self).expected_table(n) is Err) ==> *final(self) == *old(self),
    {
        let mut inv: Inventory<W> = Inventory::new();
        let ghost s0 = *self;
        let ghost order = inventory.order();
        proof {
            inventory.lemma_view();
            assert(Set::new(|n: Nuclide| order.subrange(0, 0).contains(n)) =~= Set::<Nuclide>::empty());
            assert(decayed_nuclides(s0, Set::<Nuclide>::empty()) =~= Set::<Nuclide>::empty());
            assert(Set::new(|n: Nuclide| order.subrange(0, 0).contains(n)) == Set::<Nuclide>::empty());
            assert(inv@ =~= decay_map(s0, order, inventory@, decay_time, 0));
        }
        let n_sources = inventory.len();
        let mut i: usize = 0;
        while i < n_sources
            invariant
                i <= n_sources,
                n_sources == order.len(),
                order == inventory.order(),
                inventory.wf(),
                self.wf(),
                self.data_view() == s0.data_view(),
                self.data_len() == s0.data_len(),
                s0 == *old(self),
                inv.wf(),
                inv@.dom() == decayed_nuclides(s0, Set::new(|n: Nuclide| order.subrange(0, i as int).contains(n))),
                inv@ == decay_map(s0, order, inventory@, decay_time, i as int),
                forall|k: int| 0 <= k < i && s0.expected_table(order[k]) is Ok ==> self.cached().contains(#[trigger] order[k]),
                s0.cached().subset_of(self.cached()),
                (forall|k: int| 0 <= k < i ==> s0.cached().contains(#[trigger] order[k]) || s0.expected_table(order[k]) is Err) ==> *self == s0,
                forall|k: int| 0 <= k < i ==> fault_of(s0, #[trigger] order[k]) is None,
            decreases n_sources - i,
        {
            let (source, activity) = inventory.entry(i);
            let ghost before = inv@.dom();
            let ghost before_map = inv@;
            let ghost self_before = *self;
            let ghost pre = Set::new(|n: Nuclide| order.subrange(0, i as int).contains(n));
            let ghost next = Set::new(|n: Nuclide| order.subrange(0, i + 1).contains(n));
            proof {
                assert forall|n: Nuclide| #[trigger] next.contains(n) == pre.insert(source).contains(n) by {
                    if next.contains(n) {
                        let k = choose|k: int| 0 <= k < i + 1 && (#[trigger] order.subrange(0, i + 1)[k]) == n;
                        if k < i {
                            assert(order.subrange(0, i as int)[k] == n);
                        }
                    }
                    if pre.contains(n) {
                        let k = choose|k: int| 0 <= k < i && (#[trigger] order.subrange(0, i as int)[k]) == n;
                        assert(order.subrange(0, i + 1)[k] == n);
                    }
                    if n == source {
                        assert(order.subrange(0, i + 1)[i as int] == n);
                    }
                }
                assert(next =~= pre.insert(source));
            }
            let outcome = self.bateman_eq(source, decay_time);
            proof {
                assert(order[i as int] == source);
                assert forall|k: int| 0 <= k < i + 1 && s0.expected_table(order[k]) is Ok implies self.cached().contains(#[trigger] order[k]) by {
                    if k < i {
                        assert(self_before.cached().contains(order[k]));
                    }
                }
                if forall|k: int| 0 <= k < i + 1 ==> s0.cached().contains(#[trigger] order[k]) || s0.expected_table(order[k]) is Err {
                    assert(s0.cached().contains(order[i as int]) || s0.expected_table(order[i as int]) is Err);
                    assert(self_before == s0);
                }
                assert(s0.expected_table(source) == self_before.expected_table(source));
            }
            let outcome = match outcome {
                Err(PathError::NotFound) => None,
                Err(e) => {
                    proof {
                        inventory.lemma_view();
                        assert(inventory.order()[i as int] == source);
                        assert(inventory@.contains_key(source));
                        assert(self.data_view() == s0.data_view());
                        assert(self.data_len() == s0.data_len());
                        assert(fault_of(s0, source) == Some(e));
                        if forall|n: Nuclide| #[trigger] inventory@.contains_key(n) ==> s0.cached().contains(n)
                            || s0.expected_table(n) is Err {
                            assert forall|k: int| 0 <= k < i + 1 implies s0.cached().contains(#[trigger] order[k]) || s0.expected_table(order[k]) is Err by {
                                assert(order.contains(order[k]));
                            }
                        }
                    }
                    return Err(e);
                },
                Ok(res) => Some(res),
            };
            proof {
                assert(fault_of(s0, source) is None);
                assert forall|k: int| 0 <= k < i + 1 implies fault_of(s0, #[trigger] order[k]) is None by {}
            }
            match outcome {
                Some(res) => {
                    let ghost tn = table_nuclides(s0.expected_table(source)->Ok_0);
                    let n_res = res.len();
                    let ghost rorder = res.order();
                    let ghost rmap = res@;
                    proof {
                        res.lemma_view();
                        assert(Set::new(|m: Nuclide| rorder.subrange(0, 0).contains(m)) =~= Set::<Nuclide>::empty());
                        assert(before.union(Set::new(|m: Nuclide| rorder.subrange(0, 0).contains(m))) =~= before);
                    }
                    let mut j: usize = 0;
                    while j < n_res
                        invariant
                            j <= n_res,
                            n_res == rorder.len(),
                            rorder == res.order(),
                            res.wf(),
                            inv.wf(),
                            inv@.dom() == before.union(Set::new(|m: Nuclide| rorder.subrange(0, j as int).contains(m))),
                            rmap == res@,
                            rorder.no_duplicates(),
                            forall|m: Nuclide| #[trigger] rmap.contains_key(m) <==> rorder.contains(m),
                            forall|m: Nuclide| #[trigger] inv@.contains_key(m) ==> inv@[m] == (if rorder.subrange(0, j as int).contains(m) {
                                added(before_map, m, activity.spec_times(rmap[m]))
                            } else {
                                before_map[m]
                            }),
                            before_map.dom() == before,
                        decreases n_res - j,
                    {
                        let (d, x) = res.entry(j);
                        let ghost inv_before = inv@;
                        proof {
                            assert(!rorder.subrange(0, j as int).contains(d)) by {
                                if rorder.subrange(0, j as int).contains(d) {
                                    let k = choose|k: int| 0 <= k < j && (#[trigger] rorder.subrange(0, j as int)[k]) == d;
                                    assert(rorder[k] == rorder[j as int]);
                                }
                            }
                            assert(inv_before.contains_key(d) == before_map.contains_key(d));
                            if inv_before.contains_key(d) {
                                assert(inv_before[d] == before_map[d]);
                            }
                        }
                        let ghost b2 = inv@.dom();
                        inv.add(d, activity.times(x));
                        proof {
                            let s1 = Set::new(|m: Nuclide| rorder.subrange(0, j as int).contains(m));
                            let s2 = Set::new(|m: Nuclide| rorder.subrange(0, j + 1).contains(m));
                            assert forall|m: Nuclide| #[trigger] s2.contains(m) == s1.insert(d).contains(m) by {
                                if s2.contains(m) {
                                    let k = choose|k: int| 0 <= k < j + 1 && (#[trigger] rorder.subrange(0, j + 1)[k]) == m;
                                    if k < j {
                                        assert(rorder.subrange(0, j as int)[k] == m);
                                    }
                                }
                                if s1.contains(m) {
                                    let k = choose|k: int| 0 <= k < j && (#[trigger] rorder.subrange(0, j as int)[k]) == m;
                                    assert(rorder.subrange(0, j + 1)[k] == m);
                                }
                                if m == d {
                                    assert(rorder.subrange(0, j + 1)[j as int] == m);
                                }
                            }
                            assert(inv@.dom() =~= before.union(s2));
                            assert(added(inv_before, d, activity.spec_times(x)) == added(before_map, d, activity.spec_times(rmap[d])));
                            assert forall|m: Nuclide| #[trigger] inv@.contains_key(m) implies inv@[m] == (if s2.contains(m) {
                                added(before_map, m, activity.spec_times(rmap[m]))
                            } else {
                                before_map[m]
                            }) by {
                                if m != d {
                                    assert(s2.contains(m) == s1.contains(m));
                                } else {
                                    assert(s2.contains(m));
                                }
                            }
                        }
                        j = j + 1;
                    }
                    proof {
                        assert(rorder.subrange(0, n_res as int) =~= rorder);
                        assert(Set::new(|m: Nuclide| rorder.subrange(0, n_res as int).contains(m)) =~= res@.dom());
                        assert forall|d: Nuclide| #[trigger] inv@.dom().contains(d) == decayed_nuclides(s0, next).contains(d) by {
                            if decayed_nuclides(s0, next).contains(d) {
                                let n = choose|n: Nuclide|
                                    #![trigger next.contains(n), s0.expected_table(n)]
                                    next.contains(n) && s0.expected_table(n) is Ok && table_nuclides(
                                        s0.expected_table(n)->Ok_0,
                                    ).contains(d);
                                if n != source {
                                    assert(pre.contains(n));
                                    assert(decayed_nuclides(s0, pre).contains(d));
                                }
                            }
                            if before.contains(d) {
                                let n = choose|n: Nuclide|
                                    #![trigger pre.contains(n), s0.expected_table(n)]
                                    pre.contains(n) && s0.expected_table(n) is Ok && table_nuclides(
                                        s0.expected_table(n)->Ok_0,
                                    ).contains(d);
                                assert(next.contains(n));
                            }
                            if tn.contains(d) {
                                assert(next.contains(source));
                                assert(s0.expected_table(source) is Ok);
                            }
                        }
                        assert(inv@.dom() =~= decayed_nuclides(s0, next));
                        let tb = s0.expected_table(source)->Ok_0;
                        assert(rmap == table_map(tb, decay_time, tb.len() as int));
                        assert(before_map == decay_map(s0, order, inventory@, decay_time, i as int));
                        assert(inventory@[source] == activity);
                        let target = decay_map(s0, order, inventory@, decay_time, i + 1);
                        assert(target == scaled_merge(before_map, rmap, activity));
                        assert forall|m: Nuclide| #[trigger] inv@.contains_key(m) == target.contains_key(m) by {
                            assert(rmap.contains_key(m) == rorder.contains(m));
                            assert(rorder.subrange(0, n_res as int).contains(m) == rorder.contains(m));
                        }
                        assert forall|m: Nuclide| #[trigger] inv@.contains_key(m) implies inv@[m] == target[m] by {
                            assert(rmap.contains_key(m) == rorder.contains(m));
                            assert(rorder.subrange(0, n_res as int).contains(m) == rorder.contains(m));
                        }
                        assert(inv@ =~= target);
                    }
                },
                None => {
                    proof {
                        assert forall|d: Nuclide| #[trigger] before.contains(d) == decayed_nuclides(s0, next).contains(d) by {
                            if decayed_nuclides(s0, next).contains(d) {
                                let n = choose|n: Nuclide|
                                    #![trigger next.contains(n), s0.expected_table(n)]
                                    next.contains(n) && s0.expected_table(n) is Ok && table_nuclides(
                                        s0.expected_table(n)->Ok_0,
                                    ).contains(d);
                                assert(n != source);
                                assert(pre.contains(n));
                            }
                            if before.contains(d) {
                                let n = choose|n: Nuclide|
                                    #![trigger pre.contains(n), s0.expected_table(n)]
                                    pre.contains(n) && s0.expected_table(n) is Ok && table_nuclides(
                                        s0.expected_table(n)->Ok_0,
                                    ).contains(d);
                                assert(next.contains(n));
                            }
                        }
                        assert(before =~= decayed_nuclides(s0, next));
                        assert(inv@ =~= decay_map(s0, order, inventory@, decay_time, i + 1));
                    }
                },
            }
            i = i + 1;
        }
        proof {
            assert(order.subrange(0, n_sources as int) =~= order);
            assert(Set::new(|n: Nuclide| order.subrange(0, n_sources as int).contains(n)) =~= inventory@.dom());
            assert forall|n: Nuclide| #[trigger] inventory@.contains_key(n) && s0.expected_table(n) is Ok implies self.cached().contains(n) by {
                assert(order.contains(n));
                let k = choose|k: int| 0 <= k < order.len() && order[k] == n;
            }
            if forall|n: Nuclide| #[trigger] inventory@.contains_key(n) ==> s0.cached().contains(n)
                || s0.expected_table(n) is Err {
                assert forall|k: int| 0 <= k < n_sources implies s0.cached().contains(#[trigger] order[k]) || s0.expected_table(order[k]) is Err by {
                    assert(order.contains(order[k]));
                }
            }
            assert forall|n: Nuclide| #[trigger] inventory@.contains_key(n) implies fault_of(s0, n) is None by {
                assert(order.contains(n));
                let k = choose|k: int| 0 <= k < order.len() && order[k] == n;
            }
        }
        Ok(inv)
    }
}

} // verus!
