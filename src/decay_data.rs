use vstd::prelude::*;

use crate::decay_mode::{DecayMode, DecayModeSet};
use crate::inventory::{entry_index, lemma_entry_index};
use crate::nuclide::{Nuclide, A_UNIT, Z_UNIT};
use crate::time_unit::HalfLife;

verus! {

/// A direct decay product of a parent nuclide: the daughter, the fraction of the
/// parent's decays that lead to it, and the decay modes of the transition.
///
/// `W` is the type of the branch rate; the library only carries such values along.
pub struct Progeny<W> {
    pub nuclide: Nuclide,
    pub branch_rate: W,
    pub decay_mode: DecayModeSet,
}

/// What the data holds on one nuclide: its decay constant, where it is known, and its
/// progeny (empty for a terminal nuclide).
pub struct NuclideRecord<W> {
    pub nuclide: Nuclide,
    pub lambda: Option<W>,
    pub progeny: Vec<Progeny<W>>,
}

/// An in-memory source of decay data: for each nuclide that it knows, a decay constant
/// (if any) and a list of progeny; and, for the nuclides that it gives one, a half-life.
/// `W` is the type of decay constants and branch rates.
pub struct DecayData<W> {
    records: Vec<NuclideRecord<W>>,
    half_lives: Vec<(Nuclide, HalfLife)>,
}

/// The index of the last record in `recs` on nuclide `n`, or -1.
pub open spec fn record_index<W>(recs: Seq<NuclideRecord<W>>, n: Nuclide) -> int
    decreases recs.len(),
{
    if recs.len() == 0 {
        -1
    } else if recs.last().nuclide == n {
        recs.len() - 1
    } else {
        record_index(recs.drop_last(), n)
    }
}

proof fn lemma_record_index_bound<W>(recs: Seq<NuclideRecord<W>>, n: Nuclide)
    ensures
        -1 <= record_index(recs, n) < recs.len(),
        record_index(recs, n) >= 0 ==> recs[record_index(recs, n)].nuclide == n,
        record_index(recs, n) < 0 ==> forall|i: int| 0 <= i < recs.len() ==> recs[i].nuclide != n,
    decreases recs.len(),
{
    if recs.len() > 0 && recs.last().nuclide != n {
        lemma_record_index_bound(recs.drop_last(), n);
        assert forall|i: int| 0 <= i < recs.len() - 1 implies recs.drop_last()[i] == recs[i] by {}
    }
}

impl<W> View for DecayData<W> {
    type V = Map<Nuclide, (Option<W>, Seq<Progeny<W>>)>;

    closed spec fn view(&self) -> Map<Nuclide, (Option<W>, Seq<Progeny<W>>)> {
        Map::new(
            |n: Nuclide| record_index(self.records@, n) >= 0,
            |n: Nuclide|
                {
                    let r = self.records@[record_index(self.records@, n)];
                    (r.lambda, r.progeny@)
                },
        )
    }
}

/// The decay constant that `data` gives for `n`.
pub open spec fn lambda_of<W>(data: Map<Nuclide, (Option<W>, Seq<Progeny<W>>)>, n: Nuclide) -> Option<W> {
    if data.contains_key(n) {
        data[n].0
    } else {
        None
    }
}

/// The progeny that `data` lists for `n`; none where `n` is unknown.
pub open spec fn progeny_of<W>(data: Map<Nuclide, (Option<W>, Seq<Progeny<W>>)>, n: Nuclide) -> Seq<
    Progeny<W>,
> {
    if data.contains_key(n) {
        data[n].1
    } else {
        seq![]
    }
}

impl<W> DecayData<W> {
    /// Data that knows no nuclide.
    pub fn new() -> (r: Self)
        ensures
            r@ == Map::<Nuclide, (Option<W>, Seq<Progeny<W>>)>::empty(),
            r.half_life_map() == Map::<Nuclide, HalfLife>::empty(),
    {
        let r = DecayData { records: Vec::new(), half_lives: Vec::new() };
        assert(r@ =~= Map::<Nuclide, (Option<W>, Seq<Progeny<W>>)>::empty());
        assert(r.half_life_map() =~= Map::<Nuclide, HalfLife>::empty());
        r
    }

    /// The half-lives the data gives.
    pub closed spec fn half_life_map(&self) -> Map<Nuclide, HalfLife> {
        Map::new(
            |n: Nuclide| entry_index(self.half_lives@, n) >= 0,
            |n: Nuclide| self.half_lives@[entry_index(self.half_lives@, n)].1,
        )
    }

    /// The half-life of `n`, where the data gives one.
    pub fn half_life(&self, n: Nuclide) -> (r: Option<HalfLife>)
        ensures
            r == (if self.half_life_map().contains_key(n) {
                Some(self.half_life_map()[n])
            } else {
                None
            }),
    {
        let mut i = self.half_lives.len();
        assert(self.half_lives@.subrange(0, i as int) =~= self.half_lives@);
        while i > 0
            invariant
                i <= self.half_lives@.len(),
                entry_index(self.half_lives@, n) == entry_index(self.half_lives@.subrange(0, i as int), n),
            decreases i,
        {
            assert(self.half_lives@.subrange(0, i as int).drop_last() =~= self.half_lives@.subrange(0, i - 1));
            if self.half_lives[i - 1].0 == n {
                return Some(self.half_lives[i - 1].1);
            }
            i = i - 1;
        }
        None
    }

    /// Records `h` as the half-life of `n`, in place of any it had.
    pub fn set_half_life(&mut self, n: Nuclide, h: HalfLife)
        ensures
            final(self)@ == old(self)@,
            final(self).spec_len() == old(self).spec_len(),
            final(self).half_life_map() == old(self).half_life_map().insert(n, h),
    {
        let ghost before = self.half_lives@;
        self.half_lives.push((n, h));
        proof {
            assert(self.half_lives@.drop_last() =~= before);
            assert(self@ =~= old(self)@);
            assert forall|m: Nuclide|
                #![trigger self.half_life_map().contains_key(m)]
                #![trigger old(self).half_life_map().contains_key(m)]
                self.half_life_map().contains_key(m) == old(self).half_life_map().insert(n, h).contains_key(m)
                    && (self.half_life_map().contains_key(m) ==> self.half_life_map()[m] == old(self).half_life_map().insert(n, h)[m]) by {
                lemma_entry_index(before, m);
            }
            assert(self.half_life_map() =~= old(self).half_life_map().insert(n, h));
        }
    }

    /// The number of nuclides the data knows.
    pub closed spec fn spec_len(&self) -> nat {
        self.records@.len()
    }

    /// The position of `n`'s record, or -1 where `n` is unknown.
    pub closed spec fn slot(&self, n: Nuclide) -> int {
        record_index(self.records@, n)
    }

    /// Known nuclides have distinct positions below the number of records.
    pub proof fn lemma_slot(&self, n: Nuclide, m: Nuclide)
        ensures
            self@.contains_key(n) <==> 0 <= self.slot(n) < self.spec_len(),
            self@.contains_key(n) && self@.contains_key(m) && n != m ==> self.slot(n) != self.slot(m),
    {
        lemma_record_index_bound(self.records@, n);
        lemma_record_index_bound(self.records@, m);
    }

    pub fn len(&self) -> (r: usize)
        ensures
            r == self.spec_len(),
    {
        self.records.len()
    }

    fn find(&self, n: Nuclide) -> (r: Option<usize>)
        ensures
            match r {
                Some(i) => i as int == record_index(self.records@, n) && i < self.records@.len(),
                None => record_index(self.records@, n) < 0,
            },
    {
        let mut i = self.records.len();
        assert(self.records@.subrange(0, i as int) =~= self.records@);
        while i > 0
            invariant
                i <= self.records@.len(),
                record_index(self.records@, n) == record_index(self.records@.subrange(0, i as int), n),
            decreases i,
        {
            let ghost sub = self.records@.subrange(0, i as int);
            assert(sub.drop_last() =~= self.records@.subrange(0, i - 1));
            if self.records[i - 1].nuclide == n {
                return Some(i - 1);
            }
            i = i - 1;
        }
        None
    }

    /// Records `lambda` and `progeny` for `n`, in place of what was known of it.
    pub fn insert(&mut self, n: Nuclide, lambda: Option<W>, progeny: Vec<Progeny<W>>)
        ensures
            final(self)@ == old(self)@.insert(n, (lambda, progeny@)),
            final(self).half_life_map() == old(self).half_life_map(),
    {
        let ghost pv = progeny@;
        let rec = NuclideRecord { nuclide: n, lambda, progeny };
        match self.find(n) {
            Some(i) => {
                proof {
                    lemma_record_index_bound(self.records@, n);
                }
                let ghost old_recs = self.records@;
                self.records.set(i, rec);
                proof {
                    assert forall|m: Nuclide| #[trigger] record_index(self.records@, m) == (if m
                        == n {
                        i as int
                    } else {
                        record_index(old_recs, m)
                    }) by {
                        lemma_set_index(old_recs, i as int, rec, m);
                    }
                    assert forall|m: Nuclide|
                        #![trigger self@.contains_key(m)]
                        #![trigger old(self)@.contains_key(m)]
                        self@.contains_key(m) == old(self)@.insert(n, (lambda, pv)).contains_key(m)
                            && (self@.contains_key(m) ==> self@[m] == old(self)@.insert(
                            n,
                            (lambda, pv),
                        )[m]) by {
                        lemma_record_index_bound(old_recs, m);
                    }
                    assert(self@ =~= old(self)@.insert(n, (lambda, pv)));
                }
            },
            None => {
                let ghost old_recs = self.records@;
                self.records.push(rec);
                proof {
                    assert(self.records@.drop_last() =~= old_recs);
                    assert forall|m: Nuclide| m != n implies #[trigger] record_index(
                        self.records@,
                        m,
                    ) == record_index(old_recs, m) by {}
                    assert forall|m: Nuclide| #[trigger] record_index(old_recs, m) >= 0 implies self.records@[record_index(old_recs, m)] == old_recs[record_index(old_recs, m)] by {
                        lemma_record_index_bound(old_recs, m);
                    }
                    assert(record_index(self.records@, n) == old_recs.len());
                    assert forall|m: Nuclide|
                        #![trigger self@.contains_key(m)]
                        #![trigger old(self)@.contains_key(m)]
                        self@.contains_key(m) == old(self)@.insert(n, (lambda, pv)).contains_key(m)
                            && (self@.contains_key(m) ==> self@[m] == old(self)@.insert(
                            n,
                            (lambda, pv),
                        )[m]) by {
                        if m != n {
                            lemma_record_index_bound(old_recs, m);
                        }
                    }
                    assert(self@ =~= old(self)@.insert(n, (lambda, pv)));
                }
            },
        }
    }

    /// The decay constant of `n`, where the data knows one.
    pub fn lambda(&self, n: Nuclide) -> (r: Option<W>) where W: Copy
        ensures
            r == lambda_of(self@, n),
    {
        match self.find(n) {
            Some(i) => self.records[i].lambda,
            None => None,
        }
    }

    /// The progeny of `n`, or `None` where the data does not know `n`.
    pub fn progeny(&self, n: Nuclide) -> (r: Option<&Vec<Progeny<W>>>)
        ensures
            match r {
                Some(ps) => self@.contains_key(n) && ps@ == self@[n].1,
                None => !self@.contains_key(n),
            },
    {
        match self.find(n) {
            Some(i) => Some(&self.records[i].progeny),
            None => None,
        }
    }
}

/// The modes that can take `parent` to `daughter`, judged by the change of atomic and
/// mass number: none for equal numbers but an isomeric transition, alpha decay for Z down
/// by 2 and A down by 4, beta-minus decay for Z up by 1, and beta-plus decay or electron
/// capture (which change the numbers alike) for Z down by 1, A unchanged in those three.
pub open spec fn consistent_modes(parent: Nuclide, daughter: Nuclide) -> Set<DecayMode> {
    match (parent, daughter) {
        (Nuclide::WithId(p), Nuclide::WithId(d)) => {
            let z = p / Z_UNIT;
            let a = (p / A_UNIT) % 1000;
            let dz = d / Z_UNIT;
            let da = (d / A_UNIT) % 1000;
            if z == dz && a == da {
                set![DecayMode::IsometricTransition]
            } else if z == dz + 2 && a == da + 4 {
                set![DecayMode::Alpha]
            } else if z + 1 == dz && a == da {
                set![DecayMode::BetaMinus]
            } else if z == dz + 1 && a == da {
                set![DecayMode::BetaPlus, DecayMode::ElectronCapture]
            } else {
                Set::empty()
            }
        },
        _ => Set::empty(),
    }
}

/// The label of the transition from `parent` to `daughter`, where the parent decays by
/// the modes `listed`: spontaneous fission for the fission products, else the listed
/// modes consistent with the change of numbers.
pub open spec fn edge_modes(parent: Nuclide, daughter: Nuclide, listed: Set<DecayMode>) -> Set<
    DecayMode,
> {
    if daughter == Nuclide::FissionProducts && parent != Nuclide::FissionProducts {
        set![DecayMode::SpontaneousFission]
    } else {
        consistent_modes(parent, daughter).intersect(listed)
    }
}

/// The decay modes of the edge from `parent` to `daughter`, or `None` where none of the
/// modes `listed` for the parent can lead there.
pub fn check_decay_mode(parent: Nuclide, daughter: Nuclide, listed: DecayModeSet) -> (r: Option<
    DecayModeSet,
>)
    ensures
        match r {
            Some(m) => m@ == edge_modes(parent, daughter, listed@) && m@ != Set::<DecayMode>::empty(),
            None => edge_modes(parent, daughter, listed@) == Set::<DecayMode>::empty(),
        },
{
    let none = DecayModeSet::empty();
    let mode = match (parent, daughter) {
        (Nuclide::WithId(_), Nuclide::FissionProducts) => {
            let m = none.with(DecayMode::SpontaneousFission);
            assert(m@ =~= set![DecayMode::SpontaneousFission]);
            m
        },
        (Nuclide::WithId(p), Nuclide::WithId(d)) => {
            let z = p / Z_UNIT;
            let a = (p / A_UNIT) % 1000;
            let dz = d / Z_UNIT;
            let da = (d / A_UNIT) % 1000;
            let fits = if z == dz && a == da {
                none.with(DecayMode::IsometricTransition)
            } else if z == dz + 2 && a == da + 4 {
                none.with(DecayMode::Alpha)
            } else if z + 1 == dz && a == da {
                none.with(DecayMode::BetaMinus)
            } else if z == dz + 1 && a == da {
                none.with(DecayMode::BetaPlus).with(DecayMode::ElectronCapture)
            } else {
                none
            };
            assert(fits@ =~= consistent_modes(parent, daughter));
            fits.intersect(listed)
        },
        _ => {
            assert(none@.intersect(listed@) =~= Set::<DecayMode>::empty());
            none.intersect(listed)
        },
    };
    if mode.is_empty() {
        None
    } else {
        Some(mode)
    }
}

/// Overwriting the record at `i`, which is on `n`, leaves every other nuclide's index as
/// it was and keeps `i` as the index of `n`.
proof fn lemma_set_index<W>(recs: Seq<NuclideRecord<W>>, i: int, rec: NuclideRecord<W>, m: Nuclide)
    requires
        0 <= i < recs.len(),
        i == record_index(recs, rec.nuclide),
    ensures
        record_index(recs.update(i, rec), m) == (if m == rec.nuclide {
            i
        } else {
            record_index(recs, m)
        }),
    decreases recs.len(),
{
    let u = recs.update(i, rec);
    lemma_record_index_bound(recs.drop_last(), rec.nuclide);
    if i == recs.len() - 1 {
        assert(recs.last().nuclide == rec.nuclide);
        assert(u.last() == rec);
        if m != rec.nuclide {
            assert(u.drop_last() =~= recs.drop_last());
        }
    } else {
        assert(recs.last().nuclide != rec.nuclide);
        assert(u.last() == recs.last());
        assert(u.drop_last() =~= recs.drop_last().update(i, rec));
        lemma_set_index(recs.drop_last(), i, rec, m);
    }
}

} // verus!
