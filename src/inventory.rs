use vstd::prelude::*;

use crate::nuclide::Nuclide;

verus! {

/// Arithmetic on decay constants, branch rates, times and activities, supplied by the
/// caller. The library decides which terms to form and combine; the numbers are the
/// implementation's. Each spec function names the result of the operation of the same
/// name: an implementation is taken to promise that each operation gives a result that
/// depends on its arguments alone, and that `same` tells equal numbers apart from others.
pub trait Arithmetic: Copy {
    spec fn spec_zero() -> Self;

    spec fn spec_one() -> Self;

    spec fn spec_plus(self, other: Self) -> Self;

    spec fn spec_minus(self, other: Self) -> Self;

    spec fn spec_times(self, other: Self) -> Self;

    spec fn spec_over(self, other: Self) -> Self;

    spec fn spec_surviving(self, t: Self) -> Self;

    fn zero() -> (r: Self)
        ensures
            r == Self::spec_zero(),
    ;

    fn one() -> (r: Self)
        ensures
            r == Self::spec_one(),
    ;

    fn plus(self, other: Self) -> (r: Self)
        ensures
            r == self.spec_plus(other),
    ;

    fn minus(self, other: Self) -> (r: Self)
        ensures
            r == self.spec_minus(other),
    ;

    fn times(self, other: Self) -> (r: Self)
        ensures
            r == self.spec_times(other),
    ;

    fn over(self, other: Self) -> (r: Self)
        ensures
            r == self.spec_over(other),
    ;

    /// `exp(-self * t)`: the fraction left after time `t` of a nuclide whose decay
    /// constant is `self`.
    fn surviving(self, t: Self) -> (r: Self)
        ensures
            r == self.spec_surviving(t),
    ;

    /// Whether the two are the same number.
    fn same(self, other: Self) -> (r: bool)
        ensures
            r == (self == other),
    ;
}

/// What `m` holds of `n` once `x` is added to it, starting from zero.
pub open spec fn added<W: Arithmetic>(m: Map<Nuclide, W>, n: Nuclide, x: W) -> W {
    if m.contains_key(n) {
        m[n].spec_plus(x)
    } else {
        W::spec_zero().spec_plus(x)
    }
}

/// The index of the entry on `n`, or -1.
pub open spec fn entry_index<W>(es: Seq<(Nuclide, W)>, n: Nuclide) -> int
    decreases es.len(),
{
    if es.len() == 0 {
        -1
    } else if es.last().0 == n {
        es.len() - 1
    } else {
        entry_index(es.drop_last(), n)
    }
}

pub proof fn lemma_entry_index<W>(es: Seq<(Nuclide, W)>, n: Nuclide)
    ensures
        -1 <= entry_index(es, n) < es.len(),
        entry_index(es, n) >= 0 ==> es[entry_index(es, n)].0 == n,
        entry_index(es, n) < 0 ==> forall|i: int| 0 <= i < es.len() ==> es[i].0 != n,
    decreases es.len(),
{
    if es.len() > 0 && es.last().0 != n {
        lemma_entry_index(es.drop_last(), n);
        assert forall|i: int| 0 <= i < es.len() - 1 implies es.drop_last()[i] == es[i] by {}
    }
}

/// Activity per nuclide, one entry per nuclide.
pub struct Inventory<W> {
    entries: Vec<(Nuclide, W)>,
}

impl<W> View for Inventory<W> {
    type V = Map<Nuclide, W>;

    closed spec fn view(&self) -> Map<Nuclide, W> {
        Map::new(
            |n: Nuclide| entry_index(self.entries@, n) >= 0,
            |n: Nuclide| self.entries@[entry_index(self.entries@, n)].1,
        )
    }
}

impl<W> Inventory<W> {
    /// Each nuclide has one entry.
    pub closed spec fn wf(&self) -> bool {
        forall|i: int, j: int|
            0 <= i < j < self.entries@.len() ==> (#[trigger] self.entries@[i]).0
                != (#[trigger] self.entries@[j]).0
    }

    /// The nuclides in the order in which they were first added.
    pub closed spec fn order(&self) -> Seq<Nuclide> {
        Seq::new(self.entries@.len(), |i: int| self.entries@[i].0)
    }

    pub fn new() -> (r: Self)
        ensures
            r.wf(),
            r@ == Map::<Nuclide, W>::empty(),
            r.order() == Seq::<Nuclide>::empty(),
    {
        let r = Inventory { entries: Vec::new() };
        assert(r@ =~= Map::<Nuclide, W>::empty());
        assert(r.order() =~= Seq::<Nuclide>::empty());
        r
    }

    /// The nuclides held are those listed in `order`, once each.
    pub proof fn lemma_view(&self)
        requires
            self.wf(),
        ensures
            forall|i: int| #![trigger self.order()[i]] 0 <= i < self.order().len() ==> self@.contains_key(self.order()[i]),
            forall|n: Nuclide| #[trigger] self@.contains_key(n) <==> self.order().contains(n),
            self.order().no_duplicates(),
    {
        self.lemma_entries();
    }

    proof fn lemma_entries(&self)
        requires
            self.wf(),
        ensures
            forall|i: int| #![trigger self.order()[i]] 0 <= i < self.order().len() ==> self@.contains_key(self.order()[i]) && self@[self.order()[i]] == self.entries@[i].1,
            forall|n: Nuclide| #[trigger] self@.contains_key(n) <==> self.order().contains(n),
            self.order().len() == self.entries@.len(),
            self.order().no_duplicates(),
    {
        assert forall|i: int| #![trigger self.order()[i]] 0 <= i < self.order().len() implies self@.contains_key(self.order()[i]) && self@[self.order()[i]] == self.entries@[i].1 by {
            let n = self.entries@[i].0;
            lemma_entry_index(self.entries@, n);
            let k = entry_index(self.entries@, n);
            if k != i {
                if k < i {
                    assert(self.entries@[k].0 != self.entries@[i].0);
                } else {
                    assert(self.entries@[i].0 != self.entries@[k].0);
                }
            }
        }
        assert forall|n: Nuclide| #[trigger] self@.contains_key(n) <==> self.order().contains(n) by {
            lemma_entry_index(self.entries@, n);
            if self@.contains_key(n) {
                assert(self.order()[entry_index(self.entries@, n)] == n);
            }
            if self.order().contains(n) {
                let i = choose|i: int| 0 <= i < self.order().len() && self.order()[i] == n;
                assert(self.entries@[i].0 == n);
            }
        }
        assert forall|i: int, j: int| 0 <= i < self.order().len() && 0 <= j < self.order().len() && i != j implies self.order()[i] != self.order()[j] by {
            if i < j {
                assert(self.entries@[i].0 != self.entries@[j].0);
            } else {
                assert(self.entries@[j].0 != self.entries@[i].0);
            }
        }
    }

    /// The number of nuclides held.
    pub fn len(&self) -> (r: usize)
        requires
            self.wf(),
        ensures
            r == self@.len(),
            r == self.order().len(),
    {
        proof {
            self.lemma_entries();
            assert(self@.dom() =~= self.order().to_set());
            self.order().unique_seq_to_set();
        }
        self.entries.len()
    }

    fn find(&self, n: Nuclide) -> (r: Option<usize>)
        ensures
            match r {
                Some(i) => i as int == entry_index(self.entries@, n) && i < self.entries@.len(),
                None => entry_index(self.entries@, n) < 0,
            },
    {
        let mut i = self.entries.len();
        assert(self.entries@.subrange(0, i as int) =~= self.entries@);
        while i > 0
            invariant
                i <= self.entries@.len(),
                entry_index(self.entries@, n) == entry_index(self.entries@.subrange(0, i as int), n),
            decreases i,
        {
            let ghost sub = self.entries@.subrange(0, i as int);
            assert(sub.drop_last() =~= self.entries@.subrange(0, i - 1));
            if self.entries[i - 1].0 == n {
                return Some(i - 1);
            }
            i = i - 1;
        }
        None
    }

    /// The activity of `n`, where the inventory holds it.
    pub fn get(&self, n: &Nuclide) -> (r: Option<&W>)
        ensures
            match r {
                Some(a) => self@.contains_key(*n) && self@[*n] == *a,
                None => !self@.contains_key(*n),
            },
    {
        match self.find(*n) {
            Some(i) => Some(&self.entries[i].1),
            None => None,
        }
    }

    /// The nuclide and activity of entry `i`, in the order of `order`.
    pub fn entry(&self, i: usize) -> (r: (Nuclide, W)) where W: Copy
        requires
            self.wf(),
            i < self.order().len(),
        ensures
            r.0 == self.order()[i as int],
            self@[r.0] == r.1,
    {
        proof {
            self.lemma_entries();
        }
        self.entries[i]
    }

    /// Takes `n` out and gives back what was held of it; nothing changes where `n` is
    /// absent.
    pub fn remove(&mut self, n: Nuclide) -> (r: Option<(Nuclide, W)>)
        requires
            old(self).wf(),
        ensures
            final(self).wf(),
            final(self)@ == old(self)@.remove(n),
            match r {
                Some((m, a)) => m == n && old(self)@.contains_key(n) && old(self)@[n] == a,
                None => !old(self)@.contains_key(n),
            },
            old(self)@.contains_key(n) ==> exists|k: int|
                0 <= k < old(self).order().len() && old(self).order()[k] == n && final(self).order()
                    == old(self).order().remove(k),
            !old(self)@.contains_key(n) ==> final(self).order() == old(self).order(),
    {
        match self.find(n) {
            None => {
                assert(old(self)@.remove(n) =~= old(self)@);
                proof {
                    old(self).lemma_entries();
                    if old(self)@.contains_key(n) {
                        lemma_entry_index(self.entries@, n);
                    }
                }
                None
            },
            Some(i) => {
                let ghost before = self.entries@;
                proof {
                    lemma_entry_index(before, n);
                    old(self).lemma_entries();
                }
                let e = self.entries.remove(i);
                proof {
                    let after = self.entries@;
                    assert forall|a: int, b: int|
                        0 <= a < b < after.len() implies (#[trigger] after[a]).0 != (#[trigger] after[b]).0 by {
                        let a0 = if a < i { a } else { a + 1 };
                        let b0 = if b < i { b } else { b + 1 };
                        assert(after[a] == before[a0]);
                        assert(after[b] == before[b0]);
                        assert(before[a0].0 != before[b0].0);
                    }
                    self.lemma_entries();
                    assert forall|m: Nuclide|
                        #![trigger self@.contains_key(m)]
                        #![trigger old(self)@.contains_key(m)]
                        self@.contains_key(m) == old(self)@.remove(n).contains_key(m) && (self@.contains_key(m)
                            ==> self@[m] == old(self)@[m]) by {
                        if self@.contains_key(m) {
                            let k = choose|k: int| 0 <= k < self.order().len() && self.order()[k] == m;
                            let k0 = if k < i { k } else { k + 1 };
                            assert(after[k] == before[k0]);
                            assert(old(self).order()[k0] == m);
                        }
                        if old(self)@.contains_key(m) && m != n {
                            let k0 = choose|k0: int| 0 <= k0 < old(self).order().len() && old(self).order()[k0] == m;
                            assert(k0 != i);
                            let k = if k0 < i { k0 } else { k0 - 1 };
                            assert(after[k] == before[k0]);
                            assert(self.order()[k] == m);
                        }
                        if m == n && self@.contains_key(m) {
                            let k = choose|k: int| 0 <= k < self.order().len() && self.order()[k] == m;
                            let k0 = if k < i { k } else { k + 1 };
                            assert(after[k] == before[k0]);
                            assert(before[i as int].0 == n);
                        }
                    }
                    assert(self@ =~= old(self)@.remove(n));
                    assert(self.order() =~= old(self).order().remove(i as int));
                    assert(old(self).order()[i as int] == n);
                }
                Some(e)
            },
        }
    }
}

/// Adding `a` and then `b` to a nuclide that an inventory does not hold leaves it holding
/// `(0 + a) + b`; removing it afterwards gives that back and leaves it absent, while every
/// other nuclide keeps its activity throughout.
pub proof fn lemma_add_twice_then_remove<W: Arithmetic>(
    i0: Map<Nuclide, W>,
    n: Nuclide,
    a: W,
    b: W,
)
    requires
        !i0.contains_key(n),
    ensures
        ({
            let i1 = i0.insert(n, added(i0, n, a));
            let i2 = i1.insert(n, added(i1, n, b));
            &&& i2[n] == W::spec_zero().spec_plus(a).spec_plus(b)
            &&& i2.remove(n) =~= i0
            &&& forall|m: Nuclide| #[trigger] i0.contains_key(m) ==> i2[m] == i0[m]
        }),
{
    let i1 = i0.insert(n, added(i0, n, a));
    let i2 = i1.insert(n, added(i1, n, b));
    assert(i2.remove(n) =~= i0);
}

impl<W> Default for Inventory<W> {
    fn default() -> (r: Self)
        ensures
            r.wf(),
            r@ == Map::<Nuclide, W>::empty(),
    {
        Self::new()
    }
}

impl<W: Arithmetic> Inventory<W> {
    /// Adds `activity` to what the inventory holds of `nuclide`, which starts from zero:
    /// `nuclide` is held afterwards and every other nuclide keeps its activity.
    pub fn add(&mut self, nuclide: Nuclide, activity: W)
        requires
            old(self).wf(),
        ensures
            final(self).wf(),
            final(self)@ == old(self)@.insert(nuclide, added(old(self)@, nuclide, activity)),
            old(self)@.contains_key(nuclide) ==> final(self).order() == old(self).order(),
            !old(self)@.contains_key(nuclide) ==> final(self).order() == old(self).order().push(nuclide),
    {
        proof {
            old(self).lemma_entries();
        }
        match self.find(nuclide) {
            Some(i) => {
                let ghost before = self.entries@;
                proof {
                    lemma_entry_index(before, nuclide);
                }
                let sum = self.entries[i].1.plus(activity);
                self.entries.set(i, (nuclide, sum));
                proof {
                    let after = self.entries@;
                    assert forall|a: int, b: int|
                        0 <= a < b < after.len() implies (#[trigger] after[a]).0 != (#[trigger] after[b]).0 by {
                        assert(after[a].0 == before[a].0);
                        assert(after[b].0 == before[b].0);
                    }
                    assert(self.order() =~= old(self).order());
                    self.lemma_entries();
                    assert forall|m: Nuclide| #[trigger] old(self)@.contains_key(m) && m != nuclide implies self@[m] == old(self)@[m] by {
                        let k = choose|k: int| 0 <= k < old(self).order().len() && old(self).order()[k] == m;
                        assert(self.order()[k] == m);
                        assert(k != i);
                    }
                    assert(old(self)@.contains_key(nuclide));
                    assert forall|m: Nuclide| #[trigger] self@.dom().contains(m) == old(self)@.dom().insert(nuclide).contains(m) by {
                        assert(self@.contains_key(m) == self.order().contains(m));
                        assert(old(self)@.contains_key(m) == old(self).order().contains(m));
                    }
                    assert(self@.dom() =~= old(self)@.dom().insert(nuclide));
                    assert(self@[nuclide] == sum);
                    assert(self@ =~= old(self)@.insert(nuclide, added(old(self)@, nuclide, activity)));
                }
            },
            None => {
                let ghost before = self.entries@;
                proof {
                    lemma_entry_index(before, nuclide);
                }
                let start = W::zero().plus(activity);
                self.entries.push((nuclide, start));
                proof {
                    let after = self.entries@;
                    assert forall|a: int, b: int|
                        0 <= a < b < after.len() implies (#[trigger] after[a]).0 != (#[trigger] after[b]).0 by {
                        if b == after.len() - 1 {
                            assert(after[a] == before[a]);
                        } else {
                            assert(after[a] == before[a]);
                            assert(after[b] == before[b]);
                        }
                    }
                    assert(self.order() =~= old(self).order().push(nuclide));
                    self.lemma_entries();
                    assert forall|m: Nuclide| #[trigger] old(self)@.contains_key(m) && m != nuclide implies self@[m] == old(self)@[m] by {
                        let k = choose|k: int| 0 <= k < old(self).order().len() && old(self).order()[k] == m;
                        assert(self.order()[k] == m);
                    }
                    assert forall|m: Nuclide| #[trigger] self@.dom().contains(m) == old(self)@.dom().insert(nuclide).contains(m) by {
                        if self.order().contains(m) && m != nuclide {
                            let k = choose|k: int| 0 <= k < self.order().len() && self.order()[k] == m;
                            assert(old(self).order()[k] == m);
                        }
                        if m == nuclide {
                            assert(self.order()[self.order().len() - 1] == nuclide);
                        }
                        if old(self).order().contains(m) {
                            let k = choose|k: int| 0 <= k < old(self).order().len() && old(self).order()[k] == m;
                            assert(self.order()[k] == m);
                        }
                    }
                    assert(self@.dom() =~= old(self)@.dom().insert(nuclide));
                    assert(self@[nuclide] == start);
                    assert(self@ =~= old(self)@.insert(nuclide, added(old(self)@, nuclide, activity)));
                }
            },
        }
    }
}

} // verus!
