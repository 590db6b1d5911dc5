use std::collections::{BTreeMap, BTreeSet};
use std::sync::Arc;

use petgraph::graph::{Graph, NodeIndex};
use petgraph::Directed;
use vstd::prelude::*;

use crate::decay_data::{progeny_of, DecayData};
use crate::decay_mode::DecayModeSet;
use crate::nuclide::Nuclide;
use crate::paths::DataView;
use crate::time_unit::HalfLife;

verus! {

#[verifier::external_type_specification]
#[verifier::external_body]
#[verifier::reject_recursive_types(N)]
#[verifier::reject_recursive_types(E)]
#[verifier::reject_recursive_types(Ty)]
#[verifier::reject_recursive_types(Ix)]
pub struct ExGraph<N, E, Ty, Ix>(Graph<N, E, Ty, Ix>);

#[verifier::external_type_specification]
#[verifier::external_body]
pub struct ExDirected(Directed);

/// A node of the decay-chain graph: a nuclide and its half-life, where the data gives one;
/// the fission products have none.
#[derive(Debug, Clone, Copy, PartialEq, Eq, Structural)]
pub struct ChainNode {
    pub nuclide: Nuclide,
    pub half_life: Option<HalfLife>,
}

/// An edge of the decay-chain graph, from a parent to a daughter: the position of the
/// transition in the parent's progeny list, which holds its branch rate, and its decay
/// modes.
#[derive(Debug, Clone, Copy, PartialEq, Eq, Structural)]
pub struct ChainEdge {
    pub progeny_index: usize,
    pub decay_mode: DecayModeSet,
}

/// A decay chain as a directed graph, with node indices of type `usize`.
pub type DecayChain = Graph<ChainNode, ChainEdge, Directed, usize>;

/// The nodes of a graph, in the order of their indices.
pub uninterp spec fn chain_nodes(g: DecayChain) -> Seq<ChainNode>;

/// The edges of a graph, in the order of their indices, each as source node index,
/// target node index and weight.
pub uninterp spec fn chain_edges(g: DecayChain) -> Seq<(nat, nat, ChainEdge)>;

/// Relies on petgraph's `Graph::default`: a graph with no node and no edge.
#[verifier::external_body]
fn empty_chain() -> (g: DecayChain)
    ensures
        chain_nodes(g) == Seq::<ChainNode>::empty(),
        chain_edges(g) == Seq::<(nat, nat, ChainEdge)>::empty(),
{
    Graph::default()
}

/// Relies on petgraph's `Graph::add_node`: the node is appended and its index is the
/// former number of nodes; with `usize` indices it cannot run out of indices.
#[verifier::external_body]
fn add_chain_node(g: &mut DecayChain, n: ChainNode) -> (r: usize)
    ensures
        chain_nodes(*final(g)) == chain_nodes(*old(g)).push(n),
        chain_edges(*final(g)) == chain_edges(*old(g)),
        r == chain_nodes(*old(g)).len(),
{
    g.add_node(n).index()
}

/// Relies on petgraph's `Graph::add_edge`: the edge is appended and the nodes stay as they
/// were; it panics unless both ends are nodes of the graph.
#[verifier::external_body]
fn add_chain_edge(g: &mut DecayChain, a: usize, b: usize, e: ChainEdge)
    requires
        a < chain_nodes(*old(g)).len(),
        b < chain_nodes(*old(g)).len(),
    ensures
        chain_nodes(*final(g)) == chain_nodes(*old(g)),
        chain_edges(*final(g)) == chain_edges(*old(g)).push((a as nat, b as nat, e)),
{
    g.add_edge(NodeIndex::new(a), NodeIndex::new(b), e);
}


/// A nuclide whose progeny the builder expands: one the data knows, other than the
/// fission products.
pub open spec fn expandable<W>(data: DataView<W>, n: Nuclide) -> bool {
    data.contains_key(n) && n != Nuclide::FissionProducts
}

/// `d` is one of the progeny of the expandable nuclide `p`.
pub open spec fn steps_to<W>(data: DataView<W>, p: Nuclide, d: Nuclide) -> bool {
    expandable(data, p) && exists|j: int|
        0 <= j < progeny_of(data, p).len() && (#[trigger] progeny_of(data, p)[j]).nuclide == d
}

/// `r` is a route from `root`: each nuclide on it after the first is a progeny of the one
/// before, which is expandable.
pub open spec fn is_route<W>(data: DataView<W>, root: Nuclide, r: Seq<Nuclide>) -> bool {
    &&& r.len() >= 1
    &&& r[0] == root
    &&& forall|i: int| 0 <= i < r.len() - 1 ==> #[trigger] steps_to(data, r[i], r[i + 1])
}

pub open spec fn reachable<W>(data: DataView<W>, root: Nuclide, n: Nuclide) -> bool {
    exists|r: Seq<Nuclide>| #[trigger] is_route(data, root, r) && r.last() == n
}

/// The nuclides whose progeny the chain of `root` shows.
pub open spec fn expanded_set<W>(data: DataView<W>, root: Nuclide) -> Set<Nuclide> {
    Set::new(|n: Nuclide| expandable(data, n) && reachable(data, root, n))
}

/// `n` is one of `parents`, or a daughter of one.
pub open spec fn in_chain_of<W>(data: DataView<W>, parents: Set<Nuclide>, n: Nuclide) -> bool {
    parents.contains(n) || exists|p: Nuclide, j: int|
        #![trigger parents.contains(p), progeny_of(data, p)[j]]
        parents.contains(p) && 0 <= j < progeny_of(data, p).len() && progeny_of(data, p)[j].nuclide
            == n
}

/// No two nodes hold the same nuclide.
pub open spec fn nodes_distinct(nodes: Seq<ChainNode>) -> bool {
    forall|i: int, j: int|
        0 <= i < nodes.len() && 0 <= j < nodes.len() && i != j ==> (#[trigger] nodes[i]).nuclide
            != (#[trigger] nodes[j]).nuclide
}

/// Each edge goes from the node of one of `parents` to the node of the daughter that the
/// parent's progeny entry at `progeny_index` names, with that entry's decay modes.
pub open spec fn edges_sound<W>(
    data: DataView<W>,
    parents: Set<Nuclide>,
    nodes: Seq<ChainNode>,
    edges: Seq<(nat, nat, ChainEdge)>,
) -> bool {
    forall|k: int|
        0 <= k < edges.len() ==> {
            let (a, b, e) = #[trigger] edges[k];
            let ps = progeny_of(data, nodes[a as int].nuclide);
            &&& a < nodes.len()
            &&& b < nodes.len()
            &&& parents.contains(nodes[a as int].nuclide)
            &&& e.progeny_index < ps.len()
            &&& ps[e.progeny_index as int].nuclide == nodes[b as int].nuclide
            &&& ps[e.progeny_index as int].decay_mode == e.decay_mode
        }
}

/// Some edge leaves the node of `p` for its progeny entry `j`.
pub open spec fn covered(nodes: Seq<ChainNode>, edges: Seq<(nat, nat, ChainEdge)>, p: Nuclide, j: int) -> bool {
    exists|k: int|
        0 <= k < edges.len() && nodes[(#[trigger] edges[k]).0 as int].nuclide == p
            && edges[k].2.progeny_index == j
}

/// Every progeny entry of every one of `parents` has an edge.
pub open spec fn edges_complete<W>(
    data: DataView<W>,
    parents: Set<Nuclide>,
    nodes: Seq<ChainNode>,
    edges: Seq<(nat, nat, ChainEdge)>,
) -> bool {
    forall|p: Nuclide, j: int|
        parents.contains(p) && 0 <= j < progeny_of(data, p).len() ==> #[trigger] covered(
            nodes,
            edges,
            p,
            j,
        )
}

/// No progeny entry of a parent has two edges.
pub open spec fn edges_unique(edges: Seq<(nat, nat, ChainEdge)>) -> bool {
    forall|k1: int, k2: int|
        0 <= k1 < edges.len() && 0 <= k2 < edges.len() && k1 != k2 ==> !((#[trigger] edges[k1]).0
            == (#[trigger] edges[k2]).0 && edges[k1].2.progeny_index
            == edges[k2].2.progeny_index)
}

/// What the chain from `root` over `parents` is: the root's node first, one node per
/// nuclide, for the root, each of `parents` and each of their daughters and for nothing
/// else, and one edge per progeny entry of each of `parents`.
pub open spec fn is_chain_of<W>(data: DataView<W>, root: Nuclide, parents: Set<Nuclide>, g: DecayChain) -> bool {
    let nodes = chain_nodes(g);
    let edges = chain_edges(g);
    &&& nodes_distinct(nodes)
    &&& nodes.len() >= 1
    &&& nodes[0].nuclide == root
    &&& forall|i: int| 0 <= i < nodes.len() ==> (#[trigger] nodes[i]).nuclide == root || in_chain_of(data, parents, nodes[i].nuclide)
    &&& forall|n: Nuclide| #[trigger] parents.contains(n) ==> exists|i: int|
        0 <= i < nodes.len() && (#[trigger] nodes[i]).nuclide == n
    &&& edges_sound(data, parents, nodes, edges)
    &&& edges_complete(data, parents, nodes, edges)
    &&& edges_unique(edges)
}

/// The half-life a node of `n` carries: the one `half_lives` gives, none for the fission
/// products.
pub open spec fn node_half_life(half_lives: Map<Nuclide, HalfLife>, n: Nuclide) -> Option<HalfLife> {
    if n != Nuclide::FissionProducts && half_lives.contains_key(n) {
        Some(half_lives[n])
    } else {
        None
    }
}

pub open spec fn as_nodes(half_lives: Map<Nuclide, HalfLife>, s: Seq<Nuclide>) -> Seq<ChainNode> {
    Seq::new(s.len(), |i: int| ChainNode { nuclide: s[i], half_life: node_half_life(half_lives, s[i]) })
}

/// `index` maps the key of each node's nuclide to that node's index, and nothing else.
pub open spec fn index_of_nodes(index: Map<u64, usize>, nucs: Seq<Nuclide>) -> bool {
    &&& forall|i: int|
        0 <= i < nucs.len() ==> #[trigger] index.contains_key(nucs[i].spec_key()) && index[nucs[i].spec_key()] == i
    &&& forall|k: u64|
        #[trigger] index.contains_key(k) ==> index[k] < nucs.len() && nucs[index[k] as int].spec_key() == k
}

/// The index of the node of `n`, added where there is none yet.
fn node_for<W>(
    g: &mut DecayChain,
    nucs: &mut Vec<Nuclide>,
    index: &mut BTreeMap<u64, usize>,
    data: &DecayData<W>,
    n: Nuclide,
) -> (r: usize)
    requires
        chain_nodes(*old(g)) == as_nodes(data.half_life_map(), old(nucs)@),
        nodes_distinct(chain_nodes(*old(g))),
        index_of_nodes(old(index)@, old(nucs)@),
    ensures
        index_of_nodes(final(index)@, final(nucs)@),
        chain_nodes(*final(g)) == as_nodes(data.half_life_map(), final(nucs)@),
        nodes_distinct(chain_nodes(*final(g))),
        chain_edges(*final(g)) == chain_edges(*old(g)),
        r < final(nucs)@.len(),
        final(nucs)@[r as int] == n,
        old(nucs)@.contains(n) ==> final(nucs)@ == old(nucs)@,
        !old(nucs)@.contains(n) ==> final(nucs)@ == old(nucs)@.push(n),
{
    broadcast use {vstd::laws_cmp::group_laws_cmp, vstd::std_specs::btree::group_btree_axioms};

    let key = n.key();
    match index.get(&key) {
        Some(i) => {
            let i = *i;
            proof {
                Nuclide::lemma_key_injective(nucs@[i as int], n);
                assert(nucs@.contains(n));
            }
            i
        },
        None => {
            proof {
                if nucs@.contains(n) {
                    let j = choose|j: int| 0 <= j < nucs@.len() && nucs@[j] == n;
                    assert(index@.contains_key(nucs@[j].spec_key()));
                }
            }
            let half_life = if n == Nuclide::FissionProducts {
                None
            } else {
                data.half_life(n)
            };
            let r = add_chain_node(g, ChainNode { nuclide: n, half_life });
            nucs.push(n);
            index.insert(key, r);
            proof {
                assert forall|i: int| 0 <= i < nucs@.len() implies #[trigger] index@.contains_key(nucs@[i].spec_key())
                    && index@[nucs@[i].spec_key()] == i by {
                    if i < nucs@.len() - 1 {
                        assert(nucs@[i] == old(nucs)@[i]);
                        Nuclide::lemma_key_injective(nucs@[i], n);
                    }
                }
                assert forall|k: u64| #[trigger] index@.contains_key(k) implies index@[k] < nucs@.len()
                    && nucs@[index@[k] as int].spec_key() == k by {
                    if k != key {
                        assert(nucs@[index@[k] as int] == old(nucs)@[index@[k] as int]);
                    }
                }
                assert(chain_nodes(*g) =~= as_nodes(data.half_life_map(), nucs@));
                let nodes = chain_nodes(*g);
                assert forall|i: int, j: int|
                    0 <= i < nodes.len() && 0 <= j < nodes.len() && i != j implies (#[trigger] nodes[i]).nuclide
                    != (#[trigger] nodes[j]).nuclide by {
                    if i < nodes.len() - 1 && j < nodes.len() - 1 {
                        assert(nodes[i] == chain_nodes(*old(g))[i]);
                        assert(nodes[j] == chain_nodes(*old(g))[j]);
                    } else if i == nodes.len() - 1 {
                        assert(nodes[j].nuclide == old(nucs)@[j]);
                    } else {
                        assert(nodes[i].nuclide == old(nucs)@[i]);
                    }
                }
            }
            r
        },
    }
}


/// Some edge leaves node `a` for its progeny entry `i`.
pub open spec fn has_edge(edges: Seq<(nat, nat, ChainEdge)>, a: nat, i: int) -> bool {
    exists|k: int|
        0 <= k < edges.len() && (#[trigger] edges[k]).0 == a && edges[k].2.progeny_index == i
}

pub open spec fn members(s: Seq<Nuclide>) -> Set<Nuclide> {
    Set::new(|n: Nuclide| s.contains(n))
}

/// Every expandable daughter of a nuclide in `visited` is in `visited` or in `stack`, and
/// so is the root where it is expandable.
pub open spec fn closed_under<W>(data: DataView<W>, root: Nuclide, visited: Seq<Nuclide>, stack: Seq<Nuclide>) -> bool {
    &&& forall|p: Nuclide, j: int|
        #![trigger visited.contains(p), progeny_of(data, p)[j]]
        visited.contains(p) && 0 <= j < progeny_of(data, p).len() && expandable(
            data,
            progeny_of(data, p)[j].nuclide,
        ) ==> visited.contains(progeny_of(data, p)[j].nuclide) || stack.contains(
            progeny_of(data, p)[j].nuclide,
        )
    &&& expandable(data, root) ==> visited.contains(root) || stack.contains(root)
}

/// Taking `p` off the stack keeps the closure where `p` needs no expansion.
proof fn lemma_pop_keeps_closure<W>(
    data: DataView<W>,
    root: Nuclide,
    visited: Seq<Nuclide>,
    pre: Seq<Nuclide>,
    stack: Seq<Nuclide>,
    p: Nuclide,
)
    requires
        closed_under(data, root, visited, pre),
        forall|v: Nuclide| #[trigger] pre.contains(v) ==> v == p || stack.contains(v),
        expandable(data, p) ==> visited.contains(p),
    ensures
        closed_under(data, root, visited, stack),
{
    assert forall|q: Nuclide, j: int|
        #![trigger visited.contains(q), progeny_of(data, q)[j]]
        visited.contains(q) && 0 <= j < progeny_of(data, q).len() && expandable(
            data,
            progeny_of(data, q)[j].nuclide,
        ) implies visited.contains(progeny_of(data, q)[j].nuclide) || stack.contains(
            progeny_of(data, q)[j].nuclide,
        ) by {
        let d = progeny_of(data, q)[j].nuclide;
        if !visited.contains(d) {
            assert(pre.contains(d));
        }
    }
    if expandable(data, root) && !visited.contains(root) {
        assert(pre.contains(root));
    }
}

/// A set that holds the root, where it is expandable, and every expandable daughter of
/// each expandable nuclide it holds, holds every expandable nuclide on a route from the
/// root.
proof fn lemma_closed_holds_route<W>(
    data: DataView<W>,
    root: Nuclide,
    vis: Set<Nuclide>,
    r: Seq<Nuclide>,
)
    requires
        expandable(data, root) ==> vis.contains(root),
        forall|p: Nuclide, j: int|
            #![trigger vis.contains(p), progeny_of(data, p)[j]]
            vis.contains(p) && 0 <= j < progeny_of(data, p).len() && expandable(
                data,
                progeny_of(data, p)[j].nuclide,
            ) ==> vis.contains(progeny_of(data, p)[j].nuclide),
        is_route(data, root, r),
        expandable(data, r.last()),
    ensures
        vis.contains(r.last()),
    decreases r.len(),
{
    if r.len() > 1 {
        let q = r.drop_last();
        assert forall|i: int| 0 <= i < q.len() - 1 implies #[trigger] steps_to(data, q[i], q[i + 1]) by {
            assert(steps_to(data, r[i], r[i + 1]));
        }
        let i = r.len() - 2;
        assert(steps_to(data, r[i], r[i + 1]));
        assert(q.last() == r[i]);
        lemma_closed_holds_route(data, root, vis, q);
        let j = choose|j: int|
            0 <= j < progeny_of(data, r[i]).len() && (#[trigger] progeny_of(data, r[i])[j]).nuclide
                == r[i + 1];
        assert(vis.contains(r[i]));
        assert(r[i + 1] == r.last());
    }
}

/// Extending a route to `p` by one of `p`'s progeny gives a route to it.
proof fn lemma_route_extends<W>(data: DataView<W>, root: Nuclide, p: Nuclide, j: int)
    requires
        reachable(data, root, p),
        expandable(data, p),
        0 <= j < progeny_of(data, p).len(),
    ensures
        reachable(data, root, progeny_of(data, p)[j].nuclide),
{
    let r = choose|r: Seq<Nuclide>| #[trigger] is_route(data, root, r) && r.last() == p;
    let d = progeny_of(data, p)[j].nuclide;
    let r2 = r.push(d);
    assert forall|i: int| 0 <= i < r2.len() - 1 implies #[trigger] steps_to(data, r2[i], r2[i + 1]) by {
        if i < r.len() - 1 {
            assert(steps_to(data, r[i], r[i + 1]));
        } else {
            assert(r2[i] == p);
            assert(r2[i + 1] == d);
        }
    }
    assert(is_route(data, root, r2));
    assert(r2.last() == d);
}

/// In the chain of `root`, a nuclide that two distinct expanded parents list among their
/// progeny, and no other progeny entry of an expanded parent names, has exactly one node,
/// and exactly two edges lead into it: one from each parent.
pub proof fn lemma_shared_daughter<W>(
    data: DataView<W>,
    root: Nuclide,
    g: DecayChain,
    pa: Nuclide,
    ja: int,
    pb: Nuclide,
    jb: int,
)
    requires
        is_chain_of(data, root, expanded_set(data, root), g),
        pa != pb,
        expanded_set(data, root).contains(pa),
        expanded_set(data, root).contains(pb),
        0 <= ja < progeny_of(data, pa).len(),
        0 <= jb < progeny_of(data, pb).len(),
        progeny_of(data, pa)[ja].nuclide == progeny_of(data, pb)[jb].nuclide,
        forall|q: Nuclide, j: int|
            #![trigger expanded_set(data, root).contains(q), progeny_of(data, q)[j]]
            expanded_set(data, root).contains(q) && 0 <= j < progeny_of(data, q).len()
                && progeny_of(data, q)[j].nuclide == progeny_of(data, pa)[ja].nuclide ==> (q == pa
                && j == ja) || (q == pb && j == jb),
    ensures
        ({
            let nodes = chain_nodes(g);
            let edges = chain_edges(g);
            let d = progeny_of(data, pa)[ja].nuclide;
            exists|i: int|
                0 <= i < nodes.len() && (#[trigger] nodes[i]).nuclide == d && (forall|i2: int|
                    0 <= i2 < nodes.len() && (#[trigger] nodes[i2]).nuclide == d ==> i2 == i)
                    && exists|ka: int, kb: int|
                    0 <= ka < edges.len() && 0 <= kb < edges.len() && ka != kb
                        && (#[trigger] edges[ka]).1 == i && (#[trigger] edges[kb]).1 == i
                        && nodes[edges[ka].0 as int].nuclide == pa && nodes[edges[kb].0 as int].nuclide
                        == pb && forall|k: int|
                        0 <= k < edges.len() && (#[trigger] edges[k]).1 == i ==> k == ka || k == kb
        }),
{
    let nodes = chain_nodes(g);
    let edges = chain_edges(g);
    let parents = expanded_set(data, root);
    let d = progeny_of(data, pa)[ja].nuclide;
    assert(covered(nodes, edges, pa, ja));
    assert(covered(nodes, edges, pb, jb));
    let ka = choose|k: int|
        0 <= k < edges.len() && nodes[(#[trigger] edges[k]).0 as int].nuclide == pa
            && edges[k].2.progeny_index == ja;
    let kb = choose|k: int|
        0 <= k < edges.len() && nodes[(#[trigger] edges[k]).0 as int].nuclide == pb
            && edges[k].2.progeny_index == jb;
    let i = edges[ka].1 as int;
    assert(nodes[i].nuclide == d);
    assert(nodes[edges[kb].1 as int].nuclide == d);
    assert(edges[kb].1 == i);
    assert forall|i2: int| 0 <= i2 < nodes.len() && (#[trigger] nodes[i2]).nuclide == d implies i2
        == i by {}
    assert forall|k: int| 0 <= k < edges.len() && (#[trigger] edges[k]).1 == i implies k == ka
        || k == kb by {
        let q = nodes[edges[k].0 as int].nuclide;
        let j = edges[k].2.progeny_index as int;
        assert(parents.contains(q));
        assert(progeny_of(data, q)[j].nuclide == d);
        if q == pa && j == ja {
            assert(edges[k].0 == edges[ka].0);
        } else {
            assert(edges[k].0 == edges[kb].0);
        }
    }
}

/// Builds the decay chain graph of nuclides reachable from a root.
pub struct DecayChainBuilder<W> {
    data: Arc<DecayData<W>>,
}

impl<W> DecayChainBuilder<W> {
    pub closed spec fn data_view(&self) -> DataView<W> {
        self.data@
    }

    pub closed spec fn half_lives(&self) -> Map<Nuclide, HalfLife> {
        self.data.half_life_map()
    }

    pub fn new(data: Arc<DecayData<W>>) -> (r: Self)
        ensures
            r.data_view() == data@,
            r.half_lives() == data.half_life_map(),
    {
        DecayChainBuilder { data }
    }

    /// The decay chain of `root`: a depth-first walk from `root` that expands each
    /// nuclide the data knows once, gives every nuclide met one node, and adds one edge
    /// per progeny entry of each expanded nuclide. Fission products are never expanded.
    pub fn build(self, root: Nuclide) -> (g: DecayChain)
        ensures
            is_chain_of(self.data_view(), root, expanded_set(self.data_view(), root), g),
            forall|i: int|
                0 <= i < chain_nodes(g).len() ==> (#[trigger] chain_nodes(g)[i]).half_life == node_half_life(
                    self.half_lives(),
                    chain_nodes(g)[i].nuclide,
                ),
    {
        broadcast use {vstd::laws_cmp::group_laws_cmp, vstd::std_specs::btree::group_btree_axioms};

        let data: &DecayData<W> = &self.data;
        let ghost dv = data@;
        let ghost hl = data.half_life_map();
        let mut g = empty_chain();
        let mut nucs: Vec<Nuclide> = Vec::new();
        let mut index: BTreeMap<u64, usize> = BTreeMap::new();
        let ghost mut visited: Seq<Nuclide> = Seq::empty();
        let mut seen: BTreeSet<u64> = BTreeSet::new();
        let mut stack: Vec<Nuclide> = Vec::new();
        stack.push(root);
        let ghost mut slots: Set<int> = Set::empty();
        proof {
            assert(chain_nodes(g) =~= as_nodes(data.half_life_map(), nucs@));
            assert(nodes_distinct(chain_nodes(g)));
        }
        node_for(&mut g, &mut nucs, &mut index, data, root);
        proof {
            assert(nucs@ =~= seq![root]);
            assert(members(visited) =~= Set::<Nuclide>::empty());
            assert(stack@[0] == root);
            assert(is_route(dv, root, seq![root]));
            assert(seq![root].last() == root);
        }
        while stack.len() > 0
            invariant
                dv == data@,
                dv == self.data_view(),
                hl == data.half_life_map(),
                hl == self.half_lives(),
                chain_nodes(g) == as_nodes(data.half_life_map(), nucs@),
                index_of_nodes(index@, nucs@),
                forall|v: Nuclide|
                    #![trigger visited.contains(v)]
                    #![trigger seen@.contains(v.spec_key())]
                    visited.contains(v) == seen@.contains(v.spec_key()),
                is_chain_of(dv, root, members(visited), g),
                forall|i: int, j: int|
                    0 <= i < visited.len() && 0 <= j < visited.len() && i != j ==> visited[i]
                        != visited[j],
                forall|v: Nuclide|
                    #[trigger] visited.contains(v) ==> expandable(dv, v) && reachable(dv, root, v),
                forall|v: Nuclide| #[trigger] stack@.contains(v) ==> reachable(dv, root, v),
                closed_under(dv, root, visited, stack@),
                slots.finite(),
                slots.len() == visited.len(),
                slots.len() <= data.spec_len(),
                forall|i: int| #[trigger] slots.contains(i) ==> 0 <= i < data.spec_len(),
                forall|i: int|
                    #[trigger] slots.contains(i) ==> exists|v: Nuclide|
                        #[trigger] visited.contains(v) && data.slot(v) == i,
            decreases data.spec_len() - slots.len(), stack@.len(),
        {
            let ghost old_stack = stack@;
            let p = stack.pop().unwrap();
            proof {
                assert(old_stack =~= stack@.push(p));
                assert forall|v: Nuclide| #[trigger] stack@.contains(v) implies old_stack.contains(v) by {
                    let i = choose|i: int| 0 <= i < stack@.len() && stack@[i] == v;
                    assert(old_stack[i] == v);
                }
                assert forall|v: Nuclide| #[trigger] old_stack.contains(v) implies v == p || stack@.contains(v) by {
                    let i = choose|i: int| 0 <= i < old_stack.len() && old_stack[i] == v;
                    if i < stack@.len() {
                        assert(stack@[i] == v);
                    }
                }
                assert(old_stack[old_stack.len() - 1] == p);
            }
            let p_seen = seen.contains(&p.key());
            proof {
                assert(p_seen == visited.contains(p));
            }
            if p == Nuclide::FissionProducts || p_seen {
                proof {
                    lemma_pop_keeps_closure(dv, root, visited, old_stack, stack@, p);
                }
                continue;
            }
            let ps = match data.progeny(p) {
                Some(ps) => ps,
                None => {
                    proof {
                        lemma_pop_keeps_closure(dv, root, visited, old_stack, stack@, p);
                    }
                    continue;
                },
            };
            let ghost old_visited = visited;
            let ghost old_nodes = chain_nodes(g);
            let ghost old_edges = chain_edges(g);
            let ghost parents = members(old_visited);
            let ghost old_slots = slots;
            let ghost old_seen = seen@;
            proof {
                visited = visited.push(p);
            }
            seen.insert(p.key());
            proof {
                assert forall|v: Nuclide|
                    #![trigger visited.contains(v)]
                    #![trigger seen@.contains(v.spec_key())]
                    visited.contains(v) == seen@.contains(v.spec_key()) by {
                    Nuclide::lemma_key_injective(v, p);
                    if visited.contains(v) && v != p {
                        let k = choose|k: int| 0 <= k < visited.len() && visited[k] == v;
                        assert(old_visited[k] == v);
                        assert(old_visited.contains(v));
                    }
                    if old_visited.contains(v) {
                        let k = choose|k: int| 0 <= k < old_visited.len() && old_visited[k] == v;
                        assert(visited[k] == v);
                    }
                    if v == p {
                        assert(visited[visited.len() - 1] == p);
                    }
                }
            }
            proof {
                data.lemma_slot(p, p);
                if slots.contains(data.slot(p)) {
                    let v = choose|v: Nuclide| #[trigger] old_visited.contains(v) && data.slot(v) == data.slot(p);
                    data.lemma_slot(p, v);
                }
                slots = slots.insert(data.slot(p));
                assert(!old_slots.contains(data.slot(p)));
                vstd::set_lib::lemma_int_range(0, data.spec_len() as int);
                vstd::set_lib::lemma_len_subset(slots, vstd::set_lib::set_int_range(0, data.spec_len() as int));
                assert forall|x: Nuclide| #[trigger] members(visited).contains(x) == parents.insert(p).contains(x) by {
                    if old_visited.contains(x) {
                        let i = choose|i: int| 0 <= i < old_visited.len() && old_visited[i] == x;
                        assert(visited[i] == x);
                    }
                    if visited.contains(x) && x != p {
                        let i = choose|i: int| 0 <= i < visited.len() && visited[i] == x;
                        assert(old_visited[i] == x);
                    }
                    assert(visited[visited.len() - 1] == p);
                }
                assert(members(visited) =~= parents.insert(p));
                assert(old_stack.contains(p));
            }
            let a = node_for(&mut g, &mut nucs, &mut index, data, p);
            proof {
                let nodes = chain_nodes(g);
                assert forall|i: int| 0 <= i < nodes.len() implies (#[trigger] nodes[i]).nuclide == root || in_chain_of(
                    dv,
                    members(visited),
                    nodes[i].nuclide,
                ) by {
                    if i < old_nodes.len() {
                        assert(nodes[i] == old_nodes[i]);
                        assert(old_nodes[i].nuclide == root || in_chain_of(dv, parents, old_nodes[i].nuclide));
                        if old_nodes[i].nuclide != root && !parents.contains(old_nodes[i].nuclide) {
                            let (q, jj) = choose|q: Nuclide, jj: int|
                                #![trigger parents.contains(q), progeny_of(dv, q)[jj]]
                                parents.contains(q) && 0 <= jj < progeny_of(dv, q).len()
                                    && progeny_of(dv, q)[jj].nuclide == old_nodes[i].nuclide;
                            assert(members(visited).contains(q));
                        }
                    } else {
                        assert(nodes[i].nuclide == p);
                    }
                }
                assert forall|n: Nuclide| #[trigger] members(visited).contains(n) implies exists|i: int|
                    0 <= i < nodes.len() && (#[trigger] nodes[i]).nuclide == n by {
                    if n == p {
                        assert(nodes[a as int].nuclide == p);
                    } else {
                        assert(parents.contains(n));
                        let i = choose|i: int| 0 <= i < old_nodes.len() && (#[trigger] old_nodes[i]).nuclide == n;
                        assert(nodes[i] == old_nodes[i]);
                    }
                }
                assert forall|k: int| 0 <= k < old_edges.len() && (#[trigger] old_edges[k]).0 == a
                    implies false by {
                    assert(parents.contains(old_nodes[old_edges[k].0 as int].nuclide));
                    assert(nodes[a as int].nuclide == p);
                    assert(nodes[old_edges[k].0 as int] == old_nodes[old_edges[k].0 as int]);
                }
                assert(edges_sound(dv, members(visited), nodes, chain_edges(g))) by {
                    assert forall|k: int| 0 <= k < old_edges.len() implies {
                        let (a2, b2, e2) = #[trigger] old_edges[k];
                        let ps2 = progeny_of(dv, nodes[a2 as int].nuclide);
                        &&& a2 < nodes.len()
                        &&& b2 < nodes.len()
                        &&& members(visited).contains(nodes[a2 as int].nuclide)
                        &&& e2.progeny_index < ps2.len()
                        &&& ps2[e2.progeny_index as int].nuclide == nodes[b2 as int].nuclide
                        &&& ps2[e2.progeny_index as int].decay_mode == e2.decay_mode
                    } by {
                        assert(nodes[old_edges[k].0 as int] == old_nodes[old_edges[k].0 as int]);
                        assert(nodes[old_edges[k].1 as int] == old_nodes[old_edges[k].1 as int]);
                    }
                }
            }
            let mut j: usize = 0;
            while j < ps.len()
                invariant
                    dv == data@,
                    ps@ == progeny_of(dv, p),
                    expandable(dv, p),
                    reachable(dv, root, p),
                    !parents.contains(p),
                    visited == old_visited.push(p),
                    members(visited) == parents.insert(p),
                    chain_nodes(g) == as_nodes(data.half_life_map(), nucs@),
                    index_of_nodes(index@, nucs@),
                    forall|v: Nuclide|
                        #![trigger visited.contains(v)]
                        #![trigger seen@.contains(v.spec_key())]
                        visited.contains(v) == seen@.contains(v.spec_key()),
                    nodes_distinct(chain_nodes(g)),
                    a < nucs@.len(),
                    nucs@[a as int] == p,
                    chain_nodes(g).len() >= old_nodes.len(),
                    forall|i: int| 0 <= i < old_nodes.len() ==> chain_nodes(g)[i] == old_nodes[i],
                    chain_edges(g).len() >= old_edges.len(),
                    forall|k: int| 0 <= k < old_edges.len() ==> chain_edges(g)[k] == old_edges[k],
                    chain_nodes(g).len() >= 1,
                    chain_nodes(g)[0].nuclide == root,
                    forall|i: int|
                        0 <= i < chain_nodes(g).len() ==> (#[trigger] chain_nodes(g)[i]).nuclide == root || in_chain_of(
                            dv,
                            members(visited),
                            chain_nodes(g)[i].nuclide,
                        ),
                    forall|n: Nuclide|
                        #[trigger] members(visited).contains(n) ==> exists|i: int|
                            0 <= i < chain_nodes(g).len() && (#[trigger] chain_nodes(g)[i]).nuclide == n,
                    edges_sound(dv, members(visited), chain_nodes(g), chain_edges(g)),
                    edges_complete(dv, parents, old_nodes, old_edges),
                    edges_sound(dv, parents, old_nodes, old_edges),
                    forall|i: int| 0 <= i < j ==> #[trigger] has_edge(chain_edges(g), a as nat, i),
                    edges_unique(chain_edges(g)),
                    forall|k: int|
                        0 <= k < chain_edges(g).len() && (#[trigger] chain_edges(g)[k]).0 == a
                            ==> chain_edges(g)[k].2.progeny_index < j,
                    forall|v: Nuclide| #[trigger] stack@.contains(v) ==> reachable(dv, root, v),
                    forall|v: Nuclide| #[trigger] old_stack.contains(v) && v != p ==> stack@.contains(v),
                    forall|i: int|
                        0 <= i < j && expandable(dv, (#[trigger] ps@[i]).nuclide) ==> visited.contains(
                            ps@[i].nuclide,
                        ) || stack@.contains(ps@[i].nuclide),
                    j <= ps@.len(),
                decreases ps@.len() - j,
            {
                let d = ps[j].nuclide;
                let ghost stack_before = stack@;
                let d_seen = seen.contains(&d.key());
                proof {
                    assert(d_seen == visited.contains(d));
                }
                if !d_seen {
                    stack.push(d);
                    proof {
                        lemma_route_extends(dv, root, p, j as int);
                        assert(progeny_of(dv, p)[j as int].nuclide == d);
                        assert forall|v: Nuclide| #[trigger] stack@.contains(v) implies reachable(dv, root, v) by {
                            if v != d {
                                let i = choose|i: int| 0 <= i < stack@.len() && stack@[i] == v;
                                assert(stack_before[i] == v);
                                assert(stack_before.contains(v));
                            }
                        }
                        assert forall|v: Nuclide| #[trigger] stack_before.contains(v) implies stack@.contains(v) by {
                            let i = choose|i: int| 0 <= i < stack_before.len() && stack_before[i] == v;
                            assert(stack@[i] == v);
                        }
                        assert(stack@[stack@.len() - 1] == d);
                    }
                }
                let ghost nodes_before = chain_nodes(g);
                let ghost edges_before = chain_edges(g);
                let b = node_for(&mut g, &mut nucs, &mut index, data, d);
                let ghost nodes_mid = chain_nodes(g);
                add_chain_edge(&mut g, a, b, ChainEdge { progeny_index: j, decay_mode: ps[j].decay_mode });
                proof {
                    let nodes = chain_nodes(g);
                    let edges = chain_edges(g);
                    assert(nodes == nodes_mid);
                    assert forall|i: int| 0 <= i < nodes_before.len() implies nodes[i] == nodes_before[i] by {}
                    assert(nodes[a as int].nuclide == p);
                    assert(nodes[b as int].nuclide == d);
                    assert(ps@[j as int].nuclide == d);
                    assert(nodes[0] == nodes_before[0]);
                    assert forall|i: int| 0 <= i < nodes.len() implies (#[trigger] nodes[i]).nuclide == root || in_chain_of(
                        dv,
                        members(visited),
                        nodes[i].nuclide,
                    ) by {
                        if i >= nodes_before.len() {
                            assert(nodes[i].nuclide == d);
                            assert(members(visited).contains(p));
                            assert(progeny_of(dv, p)[j as int].nuclide == d);
                        } else {
                            assert(nodes[i] == nodes_before[i]);
                        }
                    }
                    assert forall|n: Nuclide| #[trigger] members(visited).contains(n) implies exists|i: int|
                        0 <= i < nodes.len() && (#[trigger] nodes[i]).nuclide == n by {
                        let i = choose|i: int| 0 <= i < nodes_before.len() && (#[trigger] nodes_before[i]).nuclide == n;
                        assert(nodes[i] == nodes_before[i]);
                    }
                    assert(edges_sound(dv, members(visited), nodes, edges)) by {
                        assert forall|k: int| 0 <= k < edges.len() implies {
                            let (a2, b2, e2) = #[trigger] edges[k];
                            let ps2 = progeny_of(dv, nodes[a2 as int].nuclide);
                            &&& a2 < nodes.len()
                            &&& b2 < nodes.len()
                            &&& members(visited).contains(nodes[a2 as int].nuclide)
                            &&& e2.progeny_index < ps2.len()
                            &&& ps2[e2.progeny_index as int].nuclide == nodes[b2 as int].nuclide
                            &&& ps2[e2.progeny_index as int].decay_mode == e2.decay_mode
                        } by {
                            if k < edges_before.len() {
                                assert(edges[k] == edges_before[k]);
                                assert(nodes[edges[k].0 as int] == nodes_before[edges[k].0 as int]);
                                assert(nodes[edges[k].1 as int] == nodes_before[edges[k].1 as int]);
                            } else {
                                assert(edges[k] == (a as nat, b as nat, ChainEdge { progeny_index: j, decay_mode: ps@[j as int].decay_mode }));
                            }
                        }
                    }
                    assert forall|i: int| 0 <= i < j + 1 implies #[trigger] has_edge(edges, a as nat, i) by {
                        if i < j {
                            assert(has_edge(edges_before, a as nat, i));
                            let k = choose|k: int|
                                0 <= k < edges_before.len() && (#[trigger] edges_before[k]).0 == a
                                    && edges_before[k].2.progeny_index == i;
                            assert(edges[k] == edges_before[k]);
                        } else {
                            assert(edges[edges.len() - 1].0 == a);
                        }
                    }
                    assert forall|k1: int, k2: int|
                        0 <= k1 < edges.len() && 0 <= k2 < edges.len() && k1 != k2 implies !((#[trigger] edges[k1]).0
                        == (#[trigger] edges[k2]).0 && edges[k1].2.progeny_index
                        == edges[k2].2.progeny_index) by {
                        if k1 < edges_before.len() {
                            assert(edges[k1] == edges_before[k1]);
                        }
                        if k2 < edges_before.len() {
                            assert(edges[k2] == edges_before[k2]);
                        }
                    }
                    assert forall|k: int|
                        0 <= k < edges.len() && (#[trigger] edges[k]).0 == a
                            implies edges[k].2.progeny_index < j + 1 by {
                        if k < edges_before.len() {
                            assert(edges[k] == edges_before[k]);
                        }
                    }
                    assert forall|k: int| 0 <= k < old_edges.len() implies edges[k] == old_edges[k] by {
                        assert(edges[k] == edges_before[k]);
                    }
                    assert forall|i: int| 0 <= i < old_nodes.len() implies nodes[i] == old_nodes[i] by {
                        assert(nodes[i] == nodes_before[i]);
                    }
                    assert forall|i: int|
                        0 <= i < j + 1 && expandable(dv, (#[trigger] ps@[i]).nuclide) implies visited.contains(
                            ps@[i].nuclide,
                        ) || stack@.contains(ps@[i].nuclide) by {
                        if i < j && !visited.contains(ps@[i].nuclide) {
                            assert(stack_before.contains(ps@[i].nuclide));
                            let q = choose|q: int| 0 <= q < stack_before.len() && stack_before[q] == ps@[i].nuclide;
                            assert(stack@[q] == stack_before[q]);
                        }
                        if i == j && !visited.contains(d) {
                            assert(stack@[stack@.len() - 1] == d);
                        }
                    }
                    assert forall|v: Nuclide| #[trigger] old_stack.contains(v) && v != p implies stack@.contains(v) by {
                        assert(stack_before.contains(v));
                        let q = choose|q: int| 0 <= q < stack_before.len() && stack_before[q] == v;
                        assert(stack@[q] == stack_before[q]);
                    }
                }
                j = j + 1;
            }
            proof {
                let nodes = chain_nodes(g);
                let edges = chain_edges(g);
                assert(edges_complete(dv, members(visited), nodes, edges)) by {
                    assert forall|q: Nuclide, i: int|
                        members(visited).contains(q) && 0 <= i < progeny_of(dv, q).len() implies #[trigger] covered(
                        nodes,
                        edges,
                        q,
                        i,
                    ) by {
                        if q == p {
                            assert(has_edge(edges, a as nat, i));
                            let k = choose|k: int|
                                0 <= k < edges.len() && (#[trigger] edges[k]).0 == a
                                    && edges[k].2.progeny_index == i;
                            assert(nodes[a as int].nuclide == p);
                        } else {
                            assert(parents.contains(q));
                            assert(covered(old_nodes, old_edges, q, i));
                            let k = choose|k: int|
                                0 <= k < old_edges.len() && old_nodes[(#[trigger] old_edges[k]).0 as int].nuclide == q
                                    && old_edges[k].2.progeny_index == i;
                            assert(edges[k] == old_edges[k]);
                            assert(old_edges[k].0 < old_nodes.len());
                            assert(nodes[old_edges[k].0 as int] == old_nodes[old_edges[k].0 as int]);
                        }
                    }
                }
                assert forall|v: Nuclide| #[trigger] visited.contains(v) implies expandable(dv, v) && reachable(dv, root, v) by {
                    if v != p {
                        assert(old_visited.contains(v)) by {
                            let i = choose|i: int| 0 <= i < visited.len() && visited[i] == v;
                            assert(old_visited[i] == v);
                        }
                    }
                }
                assert forall|x: int, y: int|
                    0 <= x < visited.len() && 0 <= y < visited.len() && x != y implies visited[x]
                    != visited[y] by {
                    if x < old_visited.len() && y < old_visited.len() {
                        assert(visited[x] == old_visited[x]);
                        assert(visited[y] == old_visited[y]);
                    } else if x < old_visited.len() {
                        assert(visited[x] == old_visited[x]);
                        assert(old_visited.contains(visited[x]));
                    } else if y < old_visited.len() {
                        assert(visited[y] == old_visited[y]);
                        assert(old_visited.contains(visited[y]));
                    }
                }
                assert(closed_under(dv, root, visited, stack@)) by {
                    assert forall|q: Nuclide, i: int|
                        #![trigger visited.contains(q), progeny_of(dv, q)[i]]
                        visited.contains(q) && 0 <= i < progeny_of(dv, q).len() && expandable(
                            dv,
                            progeny_of(dv, q)[i].nuclide,
                        ) implies visited.contains(progeny_of(dv, q)[i].nuclide) || stack@.contains(
                            progeny_of(dv, q)[i].nuclide,
                        ) by {
                        let d = progeny_of(dv, q)[i].nuclide;
                        assert(members(visited).contains(q));
                        if q == p {
                            assert(ps@[i] == progeny_of(dv, q)[i]);
                        } else {
                            assert(old_visited.contains(q));
                            if !old_visited.contains(d) {
                                assert(old_stack.contains(d));
                            } else {
                                assert(members(visited).contains(d));
                            }
                        }
                    }
                    if expandable(dv, root) && !visited.contains(root) {
                        assert(!old_visited.contains(root)) by {
                            if old_visited.contains(root) {
                                assert(members(visited).contains(root));
                            }
                        }
                        assert(old_stack.contains(root));
                    }
                }
                assert forall|i: int| #[trigger] slots.contains(i) implies exists|v: Nuclide|
                    #[trigger] visited.contains(v) && data.slot(v) == i by {
                    if i == data.slot(p) {
                        assert(visited.contains(p));
                    } else {
                        assert(old_slots.contains(i));
                        let v = choose|v: Nuclide| #[trigger] old_visited.contains(v) && data.slot(v) == i;
                        assert(members(visited).contains(v));
                    }
                }
            }
        }
        proof {
            let vis = members(visited);
            assert(stack@.len() == 0);
            assert forall|n: Nuclide| #[trigger] vis.contains(n) == expanded_set(dv, root).contains(n) by {
                if expanded_set(dv, root).contains(n) {
                    let r = choose|r: Seq<Nuclide>| #[trigger] is_route(dv, root, r) && r.last() == n;
                    assert forall|q: Nuclide, i: int|
                        #![trigger vis.contains(q), progeny_of(dv, q)[i]]
                        vis.contains(q) && 0 <= i < progeny_of(dv, q).len() && expandable(
                            dv,
                            progeny_of(dv, q)[i].nuclide,
                        ) implies vis.contains(progeny_of(dv, q)[i].nuclide) by {
                        assert(visited.contains(q));
                        assert(!stack@.contains(progeny_of(dv, q)[i].nuclide));
                    }
                    if expandable(dv, root) {
                        assert(!stack@.contains(root));
                    }
                    lemma_closed_holds_route(dv, root, vis, r);
                }
            }
            assert(vis =~= expanded_set(dv, root));
        }
        g
    }
}

} // verus!
