use vstd::prelude::*;

use crate::inventory::{added, Arithmetic, Inventory};
use crate::nuclide::Nuclide;
use crate::paths::{without_index, PathEntry, PathTable, Step};

verus! {

/// The product of `v[from..to]`, taken from the left and starting from one; one where the
/// range is empty.
pub open spec fn product_range<W: Arithmetic>(v: Seq<W>, from: int, to: int) -> W
    decreases to - from,
{
    if to <= from {
        W::spec_one()
    } else {
        product_range(v, from, to - 1).spec_times(v[to - 1])
    }
}

/// The product of `others[j'] - li` for `j' < j`, starting from one.
pub open spec fn denominator<W: Arithmetic>(others: Seq<W>, li: W, j: int) -> W
    decreases j,
{
    if j <= 0 {
        W::spec_one()
    } else {
        denominator(others, li, j - 1).spec_times(others[j - 1].spec_minus(li))
    }
}

/// The sum, starting from zero, over the positions `i' < i` of the chain `l` of
/// `exp(-l[i'] t)` over the product of `l[j] - l[i']` for every other position `j`.
pub open spec fn fraction_sum<W: Arithmetic>(l: Seq<W>, t: W, i: int) -> W
    decreases i,
{
    if i <= 0 {
        W::spec_zero()
    } else {
        fraction_sum(l, t, i - 1).spec_plus(
            l[i - 1].spec_surviving(t).spec_over(
                denominator(l.remove(i - 1), l[i - 1], l.len() - 1),
            ),
        )
    }
}

/// One path's share of its end nuclide's activity after time `t`, per unit of the root's
/// activity: the product of the decay constants after the root's, times the product of
/// the branch rates, times the partial-fraction sum over all the path's decay constants.
pub open spec fn path_term<W: Arithmetic>(e: Step<W>, t: W) -> W {
    product_range(e.2, 1, e.2.len() as int).spec_times(product_range(e.1, 0, e.1.len() as int)).spec_times(
        fraction_sum(e.2, t, e.2.len() as int),
    )
}

/// The activities after time `t` from the first `k` paths of a table: each path's share
/// added, in table order, to what its end nuclide already has.
pub open spec fn table_map<W: Arithmetic>(tb: Seq<Step<W>>, t: W, k: int) -> Map<Nuclide, W>
    decreases k,
{
    if k <= 0 {
        Map::empty()
    } else {
        let m = table_map(tb, t, k - 1);
        let e = tb[k - 1];
        m.insert(e.0, added(m, e.0, path_term(e, t)))
    }
}

fn product_from<W: Arithmetic>(v: &Vec<W>, from: usize) -> (r: W)
    ensures
        r == product_range(v@, from as int, v@.len() as int),
{
    let mut p = W::one();
    let mut k = from;
    while k < v.len()
        invariant
            from <= k,
            k <= v@.len() || k == from,
            p == product_range(v@, from as int, k as int),
        decreases v@.len() - k,
    {
        p = p.times(v[k]);
        k = k + 1;
    }
    p
}

/// The partial-fraction sum of the whole chain: exactly position `i` is left out of the
/// denominator of term `i`. Its callers make sure no two positions hold the same decay
/// constant, so no other factor is a zero difference.
fn partial_fraction_sum<W: Arithmetic>(lambdas: &Vec<W>, t: W) -> (r: W)
    ensures
        r == fraction_sum(lambdas@, t, lambdas@.len() as int),
{
    let mut sum = W::zero();
    let mut i: usize = 0;
    while i < lambdas.len()
        invariant
            i <= lambdas@.len(),
            sum == fraction_sum(lambdas@, t, i as int),
        decreases lambdas@.len() - i,
    {
        let li = lambdas[i];
        let others = without_index(lambdas, i);
        let mut den = W::one();
        let mut j: usize = 0;
        while j < others.len()
            invariant
                j <= others@.len(),
                others@ == lambdas@.remove(i as int),
                den == denominator(others@, li, j as int),
            decreases others@.len() - j,
        {
            den = den.times(others[j].minus(li));
            j = j + 1;
        }
        sum = sum.plus(li.surviving(t).over(den));
        i = i + 1;
    }
    sum
}

fn path_contribution<W: Arithmetic>(entry: &PathEntry<W>, t: W) -> (r: W)
    ensures
        r == path_term(entry@, t),
{
    product_from(&entry.lambdas, 1).times(product_from(&entry.branch_rates, 0)).times(
        partial_fraction_sum(&entry.lambdas, t),
    )
}

/// The nuclides that the paths of a table end at.
pub open spec fn table_nuclides<W>(t: Seq<Step<W>>) -> Set<Nuclide> {
    Set::new(|n: Nuclide| exists|i: int| 0 <= i < t.len() && (#[trigger] t[i]).0 == n)
}

/// No path of the table has the same decay constant at two positions; the Bateman
/// formula divides by the differences of a path's decay constants and holds only then.
pub open spec fn distinct_constants<W>(tb: Seq<Step<W>>) -> bool {
    forall|i: int| 0 <= i < tb.len() ==> (#[trigger] tb[i]).2.no_duplicates()
}

/// Whether some value stands twice in `v`.
fn repeats<W: Arithmetic>(v: &Vec<W>) -> (r: bool)
    ensures
        r == !v@.no_duplicates(),
{
    let mut i: usize = 0;
    while i < v.len()
        invariant
            i <= v@.len(),
            forall|a: int, b: int| 0 <= a < i && 0 <= b < v@.len() && a != b ==> v@[a] != v@[b],
        decreases v@.len() - i,
    {
        let mut j: usize = 0;
        while j < v.len()
            invariant
                i < v@.len(),
                j <= v@.len(),
                forall|a: int, b: int| 0 <= a < i && 0 <= b < v@.len() && a != b ==> v@[a] != v@[b],
                forall|b: int| 0 <= b < j && b != i ==> v@[i as int] != v@[b],
            decreases v@.len() - j,
        {
            if j != i && v[i].same(v[j]) {
                return true;
            }
            j = j + 1;
        }
        i = i + 1;
    }
    false
}

/// The activity after time `t` of every nuclide that a table reaches, per unit of the
/// root's activity: the shares of all paths to each nuclide added up. `None` where some
/// path has the same decay constant twice, which the formula cannot take.
pub fn table_activities<W: Arithmetic>(table: &PathTable<W>, t: W) -> (r: Option<Inventory<W>>)
    ensures
        match r {
            Some(inv) => distinct_constants(table@) && inv.wf() && inv@ == table_map(
                table@,
                t,
                table@.len() as int,
            ) && inv@.dom() == table_nuclides(table@),
            None => !distinct_constants(table@),
        },
{
    let mut k: usize = 0;
    while k < table.paths.len()
        invariant
            k <= table.paths@.len(),
            forall|q: int| 0 <= q < k ==> (#[trigger] table@[q]).2.no_duplicates(),
        decreases table.paths@.len() - k,
    {
        if repeats(&table.paths[k].lambdas) {
            assert(table@[k as int].2 == table.paths@[k as int].lambdas@);
            return None;
        }
        assert(table@[k as int].2 == table.paths@[k as int].lambdas@);
        k = k + 1;
    }
    let mut res: Inventory<W> = Inventory::new();
    let mut i: usize = 0;
    while i < table.paths.len()
        invariant
            i <= table.paths@.len(),
            res.wf(),
            res@ == table_map(table@, t, i as int),
            res@.dom() == table_nuclides(table@.subrange(0, i as int)),
        decreases table.paths@.len() - i,
    {
        let entry = &table.paths[i];
        let share = path_contribution(entry, t);
        assert(entry@ == table@[i as int]);
        let ghost before = res@.dom();
        res.add(entry.nuclide, share);
        proof {
            let pre = table@.subrange(0, i as int);
            let next = table@.subrange(0, i + 1);
            assert(next[i as int] == table@[i as int]);
            assert(table@[i as int].0 == entry.nuclide);
            assert forall|n: Nuclide| #[trigger] table_nuclides(next).contains(n) == before.insert(entry.nuclide).contains(n) by {
                if table_nuclides(next).contains(n) && n != entry.nuclide {
                    let k = choose|k: int| 0 <= k < next.len() && (#[trigger] next[k]).0 == n;
                    assert(pre[k] == next[k]);
                }
                if before.contains(n) {
                    let k = choose|k: int| 0 <= k < pre.len() && (#[trigger] pre[k]).0 == n;
                    assert(next[k] == pre[k]);
                }
            }
            assert(table_nuclides(next) =~= before.insert(entry.nuclide));
        }
        i = i + 1;
    }
    assert(table@.subrange(0, table.paths@.len() as int) =~= table@);
    Some(res)
}

} // verus!
