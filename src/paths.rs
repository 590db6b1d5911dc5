use vstd::prelude::*;

use crate::decay_data::{lambda_of, progeny_of, DecayData, Progeny};
use crate::nuclide::Nuclide;

verus! {

/// What the enumeration knows of the decay data: per nuclide, its decay constant and its
/// progeny.
pub type DataView<W> = Map<Nuclide, (Option<W>, Seq<Progeny<W>>)>;

/// A nuclide reached by one decay path from the root, with the branch rates of the edges
/// taken and the decay constants of every nuclide on the path, the root's first.
pub type Step<W> = (Nuclide, Seq<W>, Seq<W>);

/// The steps one edge further than `s`, one for each progeny in `ps` whose decay
/// constant is known, in the order of `ps`.
pub open spec fn children_of<W>(data: DataView<W>, s: Step<W>, ps: Seq<Progeny<W>>) -> Seq<Step<W>>
    decreases ps.len(),
{
    if ps.len() == 0 {
        seq![]
    } else {
        let p = ps.last();
        let prev = children_of(data, s, ps.drop_last());
        match lambda_of(data, p.nuclide) {
            Some(l) => prev.push((p.nuclide, s.1.push(p.branch_rate), s.2.push(l))),
            None => prev,
        }
    }
}

pub open spec fn step_children<W>(data: DataView<W>, s: Step<W>) -> Seq<Step<W>> {
    children_of(data, s, progeny_of(data, s.0))
}

/// Every path that starts with step `s`, in the order in which a stack visits them: `s`
/// itself, then the paths below its last child, then those below the child before, and
/// so on. Each step carries the depth budget left to it; a step whose budget is spent
/// ends its branch.
pub open spec fn walk<W>(data: DataView<W>, s: Step<W>, fuel: nat) -> Seq<(Step<W>, nat)>
    decreases fuel, 0nat,
{
    if fuel == 0 {
        seq![(s, 0nat)]
    } else {
        seq![(s, fuel)] + walk_all(data, step_children(data, s), (fuel - 1) as nat)
    }
}

/// The walks below each step of `cs`, the last step's first.
pub open spec fn walk_all<W>(data: DataView<W>, cs: Seq<Step<W>>, fuel: nat) -> Seq<(Step<W>, nat)>
    decreases fuel, cs.len() + 1,
{
    if cs.len() == 0 {
        seq![]
    } else {
        walk(data, cs.last(), fuel) + walk_all(data, cs.drop_last(), fuel)
    }
}

/// Why no path table could be built.
#[derive(Debug, Clone, Copy, PartialEq, Eq, Structural)]
pub enum PathError {
    /// The root has no known decay constant.
    NotFound,
    /// A path is longer than the number of nuclides the data knows: the data holds a cycle.
    Cyclic,
    /// Two nuclides on one path have the same decay constant, so a Bateman denominator
    /// would be zero.
    EqualConstants,
}

/// The paths from `root`, or why there are none. Each path is as deep as the data is
/// large at most: a longer one must pass some nuclide twice.
pub open spec fn path_table_spec<W>(data: DataView<W>, n_records: nat, root: Nuclide) -> Result<
    Seq<Step<W>>,
    PathError,
> {
    match lambda_of(data, root) {
        None => Err(PathError::NotFound),
        Some(l) => {
            let w = walk(data, (root, seq![], seq![l]), n_records);
            if exists|i: int| 0 <= i < w.len() && (#[trigger] w[i]).1 == 0 {
                Err(PathError::Cyclic)
            } else {
                Ok(Seq::new(w.len(), |i: int| w[i].0))
            }
        },
    }
}

/// One decay path from a root nuclide to `nuclide`: the branch rates of the edges taken
/// (none for the root itself) and the decay constants of every nuclide on the path, the
/// root's first.
pub struct PathEntry<W> {
    pub nuclide: Nuclide,
    pub branch_rates: Vec<W>,
    pub lambdas: Vec<W>,
}

impl<W> View for PathEntry<W> {
    type V = Step<W>;

    open spec fn view(&self) -> Step<W> {
        (self.nuclide, self.branch_rates@, self.lambdas@)
    }
}

/// Every decay path from one root to each nuclide reachable from it, one entry per
/// distinct path, so a nuclide reached by two routes has two entries.
pub struct PathTable<W> {
    pub paths: Vec<PathEntry<W>>,
}

impl<W> View for PathTable<W> {
    type V = Seq<Step<W>>;

    open spec fn view(&self) -> Seq<Step<W>> {
        Seq::new(self.paths@.len(), |i: int| self.paths@[i]@)
    }
}

/// The walks still owed for the entries of a stack, the top entry's first.
pub open spec fn pending<W>(data: DataView<W>, st: Seq<(Step<W>, nat)>) -> Seq<(Step<W>, nat)>
    decreases st.len(),
{
    if st.len() == 0 {
        seq![]
    } else {
        walk(data, st.last().0, st.last().1) + pending(data, st.drop_last())
    }
}

pub open spec fn with_fuel<W>(cs: Seq<Step<W>>, f: nat) -> Seq<(Step<W>, nat)> {
    Seq::new(cs.len(), |i: int| (cs[i], f))
}

type StackItem<W> = (Nuclide, Vec<W>, Vec<W>, usize);

spec fn stack_view<W>(st: Seq<StackItem<W>>) -> Seq<(Step<W>, nat)> {
    Seq::new(st.len(), |i: int| ((st[i].0, st[i].1@, st[i].2@), st[i].3 as nat))
}

/// Pushing the children of a step onto a stack puts their walks, last child first, in
/// front of what the stack already owed.
proof fn lemma_pending_push<W>(data: DataView<W>, base: Seq<(Step<W>, nat)>, cs: Seq<Step<W>>, f: nat)
    ensures
        pending(data, base + with_fuel(cs, f)) == walk_all(data, cs, f) + pending(data, base),
    decreases cs.len(),
{
    if cs.len() == 0 {
        assert(base + with_fuel(cs, f) =~= base);
        assert(walk_all(data, cs, f) + pending(data, base) =~= pending(data, base));
    } else {
        let st = base + with_fuel(cs, f);
        assert(st.drop_last() =~= base + with_fuel(cs.drop_last(), f));
        assert(st.last() == (cs.last(), f));
        lemma_pending_push(data, base, cs.drop_last(), f);
        assert(pending(data, st) =~= walk_all(data, cs, f) + pending(data, base));
    }
}

/// Lists every decay path from `root` through nuclides whose decay constant is known.
///
/// The paths are found with an explicit stack: the entry on top is taken off and recorded,
/// and one entry for each of its progeny with a known decay constant is pushed, with the
/// progeny's branch rate and decay constant appended to the entry's chains. A branch ends
/// at a nuclide without progeny. Fails where the root has no decay constant, or where a
/// path grows longer than the data has nuclides, which only a cycle allows.
pub fn enumerate_paths<W: Copy>(data: &DecayData<W>, root: Nuclide) -> (r: Result<
    PathTable<W>,
    PathError,
>)
    ensures
        match r {
            Ok(t) => path_table_spec(data@, data.spec_len(), root) == Ok::<
                Seq<Step<W>>,
                PathError,
            >(t@),
            Err(e) => path_table_spec(data@, data.spec_len(), root) == Err::<
                Seq<Step<W>>,
                PathError,
            >(e),
        },
{
    let l0 = match data.lambda(root) {
        Some(l) => l,
        None => {
            return Err(PathError::NotFound);
        },
    };
    let n_records = data.len();
    let ghost root_step: Step<W> = (root, seq![], seq![l0]);
    let ghost w = walk(data@, root_step, n_records as nat);
    let mut lam0: Vec<W> = Vec::new();
    lam0.push(l0);
    let mut stack: Vec<StackItem<W>> = Vec::new();
    stack.push((root, Vec::new(), lam0, n_records));
    let mut out: Vec<PathEntry<W>> = Vec::new();
    proof {
        let sv = stack_view(stack@);
        assert(sv.drop_last() =~= Seq::<(Step<W>, nat)>::empty());
        assert(sv.last().0 =~= root_step);
        assert(pending(data@, sv.drop_last()) == Seq::<(Step<W>, nat)>::empty());
        assert(pending(data@, sv) =~= w);
        assert(w.subrange(0, w.len() as int) =~= w);
    }
    while stack.len() > 0
        invariant
            lambda_of(data@, root) == Some(l0),
            root_step == (root, Seq::<W>::empty(), seq![l0]),
            n_records == data.spec_len(),
            w == walk(data@, root_step, n_records as nat),
            out@.len() <= w.len(),
            pending(data@, stack_view(stack@)) == w.subrange(out@.len() as int, w.len() as int),
            forall|i: int| 0 <= i < out@.len() ==> (#[trigger] out@[i])@ == w[i].0 && w[i].1 > 0,
        decreases w.len() - out@.len(),
    {
        let ghost before = stack_view(stack@);
        let ghost k = out@.len() as int;
        let (nuc, br, lam, fuel) = stack.pop().unwrap();
        let ghost s: Step<W> = (nuc, br@, lam@);
        let ghost base = stack_view(stack@);
        proof {
            assert(before.drop_last() =~= base);
            assert(before.last() == (s, fuel as nat));
            assert(pending(data@, before) == walk(data@, s, fuel as nat) + pending(data@, base));
            assert(walk(data@, s, fuel as nat)[0] == (s, fuel as nat));
            assert(pending(data@, before)[0] == (s, fuel as nat));
            assert(k < w.len());
            assert(w.subrange(k, w.len() as int)[0] == w[k]);
            assert(w[k] == (s, fuel as nat));
        }
        if fuel == 0 {
            proof {
                assert(w[k].1 == 0);
                assert(path_table_spec(data@, data.spec_len(), root) == Err::<
                    Seq<Step<W>>,
                    PathError,
                >(PathError::Cyclic));
            }
            return Err(PathError::Cyclic);
        }
        let f = fuel - 1;
        match data.progeny(nuc) {
            Some(ps) => {
                let mut i: usize = 0;
                assert(ps@.subrange(0, 0) =~= Seq::<Progeny<W>>::empty());
                assert(base + with_fuel(children_of(data@, s, ps@.subrange(0, 0)), f as nat)
                    =~= base);
                while i < ps.len()
                    invariant
                        i <= ps@.len(),
                        s == (nuc, br@, lam@),
                        ps@ == progeny_of(data@, nuc),
                        stack_view(stack@) == base + with_fuel(
                            children_of(data@, s, ps@.subrange(0, i as int)),
                            f as nat,
                        ),
                    decreases ps@.len() - i,
                {
                    let ghost prev = children_of(data@, s, ps@.subrange(0, i as int));
                    assert(ps@.subrange(0, i + 1).drop_last() =~= ps@.subrange(0, i as int));
                    let p = &ps[i];
                    match data.lambda(p.nuclide) {
                        Some(l) => {
                            let mut br2 = copy_vec(&br);
                            br2.push(p.branch_rate);
                            let mut lam2 = copy_vec(&lam);
                            lam2.push(l);
                            let ghost child: Step<W> = (p.nuclide, br2@, lam2@);
                            let ghost old_sv = stack_view(stack@);
                            stack.push((p.nuclide, br2, lam2, f));
                            assert(stack_view(stack@) =~= old_sv.push((child, f as nat)));
                            assert(with_fuel(prev.push(child), f as nat) =~= with_fuel(
                                prev,
                                f as nat,
                            ).push((child, f as nat)));
                            assert(stack_view(stack@) =~= base + with_fuel(prev.push(child), f as nat));
                        },
                        None => {},
                    }
                    i = i + 1;
                }
                assert(ps@.subrange(0, ps@.len() as int) =~= ps@);
            },
            None => {
                assert(stack_view(stack@) =~= base + with_fuel(step_children(data@, s), f as nat));
            },
        }
        proof {
            lemma_pending_push(data@, base, step_children(data@, s), f as nat);
            let rest = walk_all(data@, step_children(data@, s), f as nat) + pending(data@, base);
            assert(walk(data@, s, fuel as nat) == seq![(s, fuel as nat)] + walk_all(
                data@,
                step_children(data@, s),
                f as nat,
            ));
            assert(w.subrange(k, w.len() as int) =~= seq![(s, fuel as nat)] + rest);
            assert(w.subrange(k + 1, w.len() as int) =~= w.subrange(k, w.len() as int).drop_first());
            assert((seq![(s, fuel as nat)] + rest).drop_first() =~= rest);
        }
        out.push(PathEntry { nuclide: nuc, branch_rates: br, lambdas: lam });
    }
    proof {
        assert(w.subrange(out@.len() as int, w.len() as int).len() == 0);
    }
    let ghost out_v = out@;
    let t = PathTable { paths: out };
    proof {
        let ws = Seq::new(w.len(), |i: int| w[i].0);
        assert forall|i: int| 0 <= i < w.len() implies (#[trigger] w[i]).1 > 0 && t.paths@[i]@
            == w[i].0 by {
            assert(t.paths@[i] == out_v[i]);
        }
        assert(t@ =~= ws);
        assert(!exists|i: int| 0 <= i < w.len() && (#[trigger] w[i]).1 == 0);
    }
    Ok(t)
}

/// The chain `v` without its entry at `i`: for the decay constant at `i` of a path, the
/// others, against which its partial-fraction term is formed. Exactly that one position is
/// left out, whatever the values.
pub fn without_index<W: Copy>(v: &Vec<W>, i: usize) -> (r: Vec<W>)
    requires
        i < v@.len(),
    ensures
        r@ == v@.remove(i as int),
{
    let mut r: Vec<W> = Vec::new();
    let mut k: usize = 0;
    while k < v.len()
        invariant
            i < v@.len(),
            k <= v@.len(),
            r@ == (if k <= i {
                v@.subrange(0, k as int)
            } else {
                v@.subrange(0, k as int).remove(i as int)
            }),
        decreases v@.len() - k,
    {
        if k != i {
            r.push(v[k]);
        }
        proof {
            if k < i {
                assert(v@.subrange(0, k + 1) =~= v@.subrange(0, k as int).push(v@[k as int]));
            } else if k == i {
                assert(v@.subrange(0, k + 1).remove(i as int) =~= v@.subrange(0, k as int));
            } else {
                assert(v@.subrange(0, k + 1).remove(i as int) =~= v@.subrange(0, k as int).remove(
                    i as int,
                ).push(v@[k as int]));
            }
        }
        k = k + 1;
    }
    assert(v@.subrange(0, v@.len() as int) =~= v@);
    r
}

/// `d` is a progeny of `p` whose decay constant is known.
pub open spec fn decays_to<W>(data: DataView<W>, p: Nuclide, d: Nuclide) -> bool {
    lambda_of(data, d) is Some && exists|j: int|
        0 <= j < progeny_of(data, p).len() && (#[trigger] progeny_of(data, p)[j]).nuclide == d
}

/// `r` leads from `start` one decay at a time, each to a progeny with a known decay
/// constant.
pub open spec fn is_decay_route<W>(data: DataView<W>, start: Nuclide, r: Seq<Nuclide>) -> bool {
    &&& r.len() >= 1
    &&& r[0] == start
    &&& forall|i: int| 0 <= i < r.len() - 1 ==> #[trigger] decays_to(data, r[i], r[i + 1])
}

/// `n` is reached from `start` by decays whose daughters all have known decay constants.
pub open spec fn decay_reachable<W>(data: DataView<W>, start: Nuclide, n: Nuclide) -> bool {
    exists|r: Seq<Nuclide>| #[trigger] is_decay_route(data, start, r) && r.last() == n
}

proof fn lemma_route_prepend<W>(data: DataView<W>, p: Nuclide, c: Nuclide, n: Nuclide)
    requires
        decays_to(data, p, c),
        decay_reachable(data, c, n),
    ensures
        decay_reachable(data, p, n),
{
    let r = choose|r: Seq<Nuclide>| #[trigger] is_decay_route(data, c, r) && r.last() == n;
    let r2 = seq![p] + r;
    assert forall|i: int| 0 <= i < r2.len() - 1 implies #[trigger] decays_to(data, r2[i], r2[i + 1]) by {
        if i > 0 {
            assert(r2[i] == r[i - 1] && r2[i + 1] == r[i]);
            assert(decays_to(data, r[i - 1], r[(i - 1) + 1]));
        }
    }
    assert(is_decay_route(data, p, r2));
    assert(r2.last() == n);
}

proof fn lemma_route_append<W>(data: DataView<W>, start: Nuclide, p: Nuclide, d: Nuclide)
    requires
        decay_reachable(data, start, p),
        decays_to(data, p, d),
    ensures
        decay_reachable(data, start, d),
{
    let r = choose|r: Seq<Nuclide>| #[trigger] is_decay_route(data, start, r) && r.last() == p;
    let r2 = r.push(d);
    assert forall|i: int| 0 <= i < r2.len() - 1 implies #[trigger] decays_to(data, r2[i], r2[i + 1]) by {
        if i < r.len() - 1 {
            assert(decays_to(data, r[i], r[i + 1]));
        }
    }
    assert(is_decay_route(data, start, r2));
    assert(r2.last() == d);
}

/// The children of a step are its progeny with known decay constants, one each.
proof fn lemma_children<W>(data: DataView<W>, s: Step<W>, ps: Seq<Progeny<W>>)
    ensures
        forall|k: int|
            0 <= k < children_of(data, s, ps).len() ==> lambda_of(
                data,
                (#[trigger] children_of(data, s, ps)[k]).0,
            ) is Some && exists|j: int|
                0 <= j < ps.len() && (#[trigger] ps[j]).nuclide == children_of(data, s, ps)[k].0,
        forall|j: int|
            0 <= j < ps.len() && lambda_of(data, (#[trigger] ps[j]).nuclide) is Some ==> exists|k: int|
                0 <= k < children_of(data, s, ps).len() && (#[trigger] children_of(data, s, ps)[k]).0
                    == ps[j].nuclide,
    decreases ps.len(),
{
    if ps.len() > 0 {
        let prev = ps.drop_last();
        lemma_children(data, s, prev);
        let cs = children_of(data, s, ps);
        let pc = children_of(data, s, prev);
        assert forall|k: int| 0 <= k < cs.len() implies lambda_of(data, (#[trigger] cs[k]).0) is Some
            && exists|j: int| 0 <= j < ps.len() && (#[trigger] ps[j]).nuclide == cs[k].0 by {
            if k < pc.len() {
                assert(cs[k] == pc[k]);
                let j = choose|j: int| 0 <= j < prev.len() && (#[trigger] prev[j]).nuclide == pc[k].0;
                assert(ps[j] == prev[j]);
            } else {
                assert(ps[ps.len() - 1] == ps.last());
            }
        }
        assert forall|j: int| 0 <= j < ps.len() && lambda_of(data, (#[trigger] ps[j]).nuclide) is Some implies exists|k: int|
            0 <= k < cs.len() && (#[trigger] cs[k]).0 == ps[j].nuclide by {
            if j < prev.len() {
                assert(prev[j] == ps[j]);
                let k = choose|k: int| 0 <= k < pc.len() && (#[trigger] pc[k]).0 == prev[j].nuclide;
                assert(cs[k] == pc[k]);
            } else {
                assert(cs[cs.len() - 1].0 == ps.last().nuclide);
            }
        }
    }
}

/// Every step of the walk from `s` ends at a nuclide reached from `s`'s by decays.
proof fn lemma_walk_sound<W>(data: DataView<W>, s: Step<W>, fuel: nat, i: int)
    requires
        0 <= i < walk(data, s, fuel).len(),
    ensures
        decay_reachable(data, s.0, walk(data, s, fuel)[i].0.0),
    decreases fuel, 0nat,
{
    if i == 0 {
        assert(is_decay_route(data, s.0, seq![s.0]));
    } else {
        let cs = step_children(data, s);
        let rest = walk_all(data, cs, (fuel - 1) as nat);
        assert(walk(data, s, fuel)[i] == rest[i - 1]);
        let c = lemma_walk_all_sound(data, cs, (fuel - 1) as nat, i - 1);
        lemma_children(data, s, progeny_of(data, s.0));
        let k = choose|k: int| 0 <= k < cs.len() && cs[k] == c;
        assert(lambda_of(data, cs[k].0) is Some);
        let j = choose|j: int| 0 <= j < progeny_of(data, s.0).len() && (#[trigger] progeny_of(data, s.0)[j]).nuclide == cs[k].0;
        assert(decays_to(data, s.0, c.0));
        lemma_route_prepend(data, s.0, c.0, rest[i - 1].0.0);
    }
}

/// Each step of the walks below `cs` lies in the walk below one of `cs`.
proof fn lemma_walk_all_sound<W>(data: DataView<W>, cs: Seq<Step<W>>, fuel: nat, i: int) -> (c: Step<W>)
    requires
        0 <= i < walk_all(data, cs, fuel).len(),
    ensures
        exists|k: int| 0 <= k < cs.len() && cs[k] == c,
        decay_reachable(data, c.0, walk_all(data, cs, fuel)[i].0.0),
    decreases fuel, cs.len() + 1,
{
    let first = walk(data, cs.last(), fuel);
    if i < first.len() {
        lemma_walk_sound(data, cs.last(), fuel, i);
        assert(cs[cs.len() - 1] == cs.last());
        cs.last()
    } else {
        let c = lemma_walk_all_sound(data, cs.drop_last(), fuel, i - first.len());
        let k = choose|k: int| 0 <= k < cs.drop_last().len() && cs.drop_last()[k] == c;
        assert(cs[k] == c);
        c
    }
}

/// The walks below `cs` hold every step of the walk below each of `cs`.
proof fn lemma_walk_all_holds<W>(data: DataView<W>, cs: Seq<Step<W>>, fuel: nat, k: int, q: int)
    requires
        0 <= k < cs.len(),
        0 <= q < walk(data, cs[k], fuel).len(),
    ensures
        exists|i: int|
            0 <= i < walk_all(data, cs, fuel).len() && walk_all(data, cs, fuel)[i] == walk(
                data,
                cs[k],
                fuel,
            )[q],
    decreases cs.len(),
{
    let first = walk(data, cs.last(), fuel);
    let rest = walk_all(data, cs.drop_last(), fuel);
    assert(walk_all(data, cs, fuel) == first + rest);
    if k == cs.len() - 1 {
        assert(walk_all(data, cs, fuel)[q] == first[q]);
    } else {
        assert(cs.drop_last()[k] == cs[k]);
        lemma_walk_all_holds(data, cs.drop_last(), fuel, k, q);
        let i = choose|i: int|
            0 <= i < rest.len() && rest[i] == walk(data, cs.drop_last()[k], fuel)[q];
        assert(walk_all(data, cs, fuel)[first.len() + i] == rest[i]);
    }
}

/// Each step of the walks below `cs` is a step of the walk below one of `cs`.
proof fn lemma_walk_all_member<W>(data: DataView<W>, cs: Seq<Step<W>>, fuel: nat, i: int) -> (kq: (
    int,
    int,
))
    requires
        0 <= i < walk_all(data, cs, fuel).len(),
    ensures
        0 <= kq.0 < cs.len(),
        0 <= kq.1 < walk(data, cs[kq.0], fuel).len(),
        walk_all(data, cs, fuel)[i] == walk(data, cs[kq.0], fuel)[kq.1],
    decreases cs.len(),
{
    let first = walk(data, cs.last(), fuel);
    if i < first.len() {
        (cs.len() - 1, i)
    } else {
        let (k, q) = lemma_walk_all_member(data, cs.drop_last(), fuel, i - first.len());
        assert(cs.drop_last()[k] == cs[k]);
        (k, q)
    }
}

/// Where a step with budget left lies on a walk, each of its children lies on it too.
proof fn lemma_child_on_walk<W>(data: DataView<W>, s: Step<W>, fuel: nat, i: int, k: int)
    requires
        0 <= i < walk(data, s, fuel).len(),
        walk(data, s, fuel)[i].1 > 0,
        0 <= k < step_children(data, walk(data, s, fuel)[i].0).len(),
    ensures
        exists|i2: int|
            0 <= i2 < walk(data, s, fuel).len() && walk(data, s, fuel)[i2] == (
                step_children(data, walk(data, s, fuel)[i].0)[k],
                (walk(data, s, fuel)[i].1 - 1) as nat,
            ),
    decreases fuel,
{
    let w = walk(data, s, fuel);
    let cs = step_children(data, s);
    let f1 = (fuel - 1) as nat;
    let rest = walk_all(data, cs, f1);
    assert(fuel > 0);
    assert(w == seq![(s, fuel)] + rest);
    if i == 0 {
        assert(w[0] == (s, fuel));
        lemma_walk_all_holds(data, cs, f1, k, 0);
        let j = choose|j: int| 0 <= j < rest.len() && rest[j] == walk(data, cs[k], f1)[0];
        assert(w[j + 1] == rest[j]);
    } else {
        assert(w[i] == rest[i - 1]);
        let (k2, q) = lemma_walk_all_member(data, cs, f1, i - 1);
        lemma_child_on_walk(data, cs[k2], f1, q, k);
        let sub = walk(data, cs[k2], f1);
        let q2 = choose|q2: int|
            0 <= q2 < sub.len() && sub[q2] == (step_children(data, sub[q].0)[k], (sub[q].1 - 1) as nat);
        lemma_walk_all_holds(data, cs, f1, k2, q2);
        let j = choose|j: int| 0 <= j < rest.len() && rest[j] == sub[q2];
        assert(w[j + 1] == rest[j]);
    }
}

/// Where no step of the walk from `s` has spent its budget, the end of every decay route
/// from `s`'s nuclide lies on it.
proof fn lemma_route_on_walk<W>(data: DataView<W>, s: Step<W>, fuel: nat, r: Seq<Nuclide>)
    requires
        is_decay_route(data, s.0, r),
        forall|i: int| 0 <= i < walk(data, s, fuel).len() ==> (#[trigger] walk(data, s, fuel)[i]).1 > 0,
    ensures
        exists|i: int| 0 <= i < walk(data, s, fuel).len() && (#[trigger] walk(data, s, fuel)[i]).0.0 == r.last(),
    decreases r.len(),
{
    let w = walk(data, s, fuel);
    if r.len() == 1 {
        assert(w[0].0.0 == r.last());
    } else {
        let q = r.drop_last();
        assert forall|i: int| 0 <= i < q.len() - 1 implies #[trigger] decays_to(data, q[i], q[i + 1]) by {
            assert(decays_to(data, r[i], r[i + 1]));
        }
        lemma_route_on_walk(data, s, fuel, q);
        let i = choose|i: int| 0 <= i < w.len() && (#[trigger] w[i]).0.0 == q.last();
        let p = w[i].0;
        let last = r.len() - 2;
        assert(decays_to(data, r[last], r[last + 1]));
        assert(r[last] == p.0);
        let ps = progeny_of(data, p.0);
        let j = choose|j: int| 0 <= j < ps.len() && (#[trigger] ps[j]).nuclide == r.last();
        lemma_children(data, p, ps);
        assert(lambda_of(data, ps[j].nuclide) is Some);
        let k = choose|k: int|
            0 <= k < children_of(data, p, ps).len() && (#[trigger] children_of(data, p, ps)[k]).0
                == ps[j].nuclide;
        lemma_child_on_walk(data, s, fuel, i, k);
        let i2 = choose|i2: int|
            0 <= i2 < w.len() && w[i2] == (step_children(data, p)[k], (w[i].1 - 1) as nat);
        assert(w[i2].0.0 == r.last());
    }
}

/// The nuclides of a root's path table are exactly the root and those it reaches by decays
/// whose daughters all have a known decay constant.
pub proof fn lemma_table_nuclides<W>(
    data: DataView<W>,
    n_records: nat,
    root: Nuclide,
    t: Seq<Step<W>>,
    n: Nuclide,
)
    requires
        path_table_spec(data, n_records, root) == Ok::<Seq<Step<W>>, PathError>(t),
    ensures
        (exists|i: int| 0 <= i < t.len() && (#[trigger] t[i]).0 == n) <==> decay_reachable(
            data,
            root,
            n,
        ),
{
    let l = lambda_of(data, root)->Some_0;
    let rs: Step<W> = (root, seq![], seq![l]);
    let w = walk(data, rs, n_records);
    assert(!exists|i: int| 0 <= i < w.len() && (#[trigger] w[i]).1 == 0);
    assert(t == Seq::new(w.len(), |i: int| w[i].0));
    if exists|i: int| 0 <= i < t.len() && (#[trigger] t[i]).0 == n {
        let i = choose|i: int| 0 <= i < t.len() && (#[trigger] t[i]).0 == n;
        lemma_walk_sound(data, rs, n_records, i);
    }
    if decay_reachable(data, root, n) {
        let r = choose|r: Seq<Nuclide>| #[trigger] is_decay_route(data, root, r) && r.last() == n;
        assert forall|i: int| 0 <= i < w.len() implies (#[trigger] w[i]).1 > 0 by {
            if w[i].1 == 0 {
                assert(exists|i: int| 0 <= i < w.len() && (#[trigger] w[i]).1 == 0);
            }
        }
        lemma_route_on_walk(data, rs, n_records, r);
        let i = choose|i: int| 0 <= i < w.len() && (#[trigger] w[i]).0.0 == n;
        assert(t[i] == w[i].0);
    }
}

/// A nuclide with a known decay constant and no progeny has a table of one path: itself,
/// with no branch rate and its own decay constant alone.
pub proof fn lemma_terminal_table<W>(data: DecayData<W>, root: Nuclide, l: W)
    requires
        lambda_of(data@, root) == Some(l),
        progeny_of(data@, root).len() == 0,
    ensures
        path_table_spec(data@, data.spec_len(), root) == Ok::<Seq<Step<W>>, PathError>(
            seq![(root, Seq::<W>::empty(), seq![l])],
        ),
{
    data.lemma_slot(root, root);
    let rs: Step<W> = (root, Seq::<W>::empty(), seq![l]);
    let n = data.spec_len();
    assert(n >= 1);
    assert(step_children(data@, rs) =~= Seq::<Step<W>>::empty());
    let w = walk(data@, rs, n);
    assert(w =~= seq![(rs, n)]);
    assert(Seq::new(w.len(), |i: int| w[i].0) =~= seq![rs]);
}

/// A copy of `v`.
fn copy_vec<W: Copy>(v: &Vec<W>) -> (r: Vec<W>)
    ensures
        r@ == v@,
{
    let mut r: Vec<W> = Vec::new();
    let mut i: usize = 0;
    while i < v.len()
        invariant
            i <= v@.len(),
            r@ == v@.subrange(0, i as int),
        decreases v@.len() - i,
    {
        r.push(v[i]);
        i = i + 1;
    }
    assert(r@ =~= v@);
    r
}

} // verus!
