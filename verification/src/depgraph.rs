//! The dependency graph of a resolution, held in a `petgraph` `GraphMap`
//! whose nodes are item indices and whose edges run from a dependency to
//! the package that needs it.
use vstd::prelude::*;
use petgraph::algo::toposort;
use petgraph::graphmap::GraphMap;
use petgraph::Directed;
use std::collections::hash_map::RandomState;

verus! {

#[verifier::external_type_specification]
#[verifier::external_body]
#[verifier::reject_recursive_types(N)]
#[verifier::reject_recursive_types(E)]
#[verifier::reject_recursive_types(Ty)]
#[verifier::reject_recursive_types(S)]
pub struct ExGraphMap<N, E, Ty, S: std::hash::BuildHasher>(GraphMap<N, E, Ty, S>);

#[verifier::external_type_specification]
#[verifier::external_body]
pub struct ExDirected(Directed);

/// The node set of a graph.
pub uninterp spec fn graph_nodes(g: GraphMap<u32, (), Directed, RandomState>) -> Set<u32>;

/// The edge set of a graph, as `(from, to)` pairs.
pub uninterp spec fn graph_edges(g: GraphMap<u32, (), Directed, RandomState>) -> Set<(u32, u32)>;

/// A closed walk along `edges`: at least one step, back to its start.
pub open spec fn is_closed_walk(edges: Set<(u32, u32)>, w: Seq<u32>) -> bool {
    &&& w.len() >= 2
    &&& w[0] == w[w.len() - 1]
    &&& forall|k: int| 0 <= k < w.len() - 1 ==> #[trigger] edges.contains((w[k], w[k + 1]))
}

/// Whether `edges` hold a cycle (a self loop counts).
pub open spec fn has_cycle(edges: Set<(u32, u32)>) -> bool {
    exists|w: Seq<u32>| is_closed_walk(edges, w)
}

/// `order` lists every node exactly once, and every edge goes forward.
pub open spec fn is_topological(
    nodes: Set<u32>,
    edges: Set<(u32, u32)>,
    order: Seq<u32>,
) -> bool {
    &&& order.no_duplicates()
    &&& forall|x: u32| nodes.contains(x) <==> order.contains(x)
    &&& forall|i: int, j: int|
        0 <= i < order.len() && 0 <= j < order.len() && #[trigger] edges.contains(
            (order[j], order[i]),
        ) ==> j < i
}

/// `DiGraphMap::new`: an empty graph.
#[verifier::external_body]
pub fn graph_new() -> (g: GraphMap<u32, (), Directed, RandomState>)
    ensures
        graph_nodes(g) == Set::<u32>::empty(),
        graph_edges(g) == Set::<(u32, u32)>::empty(),
{
    GraphMap::new()
}

/// `GraphMap::add_node`: inserts `n` (no change if present).
#[verifier::external_body]
pub fn graph_add_node(g: &mut GraphMap<u32, (), Directed, RandomState>, n: u32)
    ensures
        graph_nodes(*final(g)) == graph_nodes(*old(g)).insert(n),
        graph_edges(*final(g)) == graph_edges(*old(g)),
{
    g.add_node(n);
}

/// `GraphMap::add_edge` on a directed graph: inserts the edge `a -> b`,
/// adding `a` and `b` as nodes when missing; an existing edge only has
/// its (unit) weight replaced.
#[verifier::external_body]
pub fn graph_add_edge(g: &mut GraphMap<u32, (), Directed, RandomState>, a: u32, b: u32)
    ensures
        graph_nodes(*final(g)) == graph_nodes(*old(g)).insert(a).insert(b),
        graph_edges(*final(g)) == graph_edges(*old(g)).insert((a, b)),
{
    g.add_edge(a, b, ());
}

/// `petgraph::algo::toposort`: on an acyclic graph, every node once, each
/// before its successors; `None` (its `Err(Cycle)`) only on a graph with a
/// cycle, self loops included.
#[verifier::external_body]
pub fn graph_toposort(g: &GraphMap<u32, (), Directed, RandomState>) -> (r: Option<Vec<u32>>)
    ensures
        r matches Some(order) ==> is_topological(graph_nodes(*g), graph_edges(*g), order@),
        r is None ==> has_cycle(graph_edges(*g)),
{
    toposort(g, None).ok()
}

/// A graph whose edges all climb a ranking has no cycle.
pub proof fn lemma_ranked_acyclic(edges: Set<(u32, u32)>, rank: spec_fn(u32) -> int)
    requires
        forall|a: u32, b: u32| #[trigger] edges.contains((a, b)) ==> rank(a) < rank(b),
    ensures
        !has_cycle(edges),
{
    if has_cycle(edges) {
        let w = choose|w: Seq<u32>| is_closed_walk(edges, w);
        lemma_walk_climbs(edges, rank, w, w.len() - 1);
    }
}

proof fn lemma_walk_climbs(edges: Set<(u32, u32)>, rank: spec_fn(u32) -> int, w: Seq<u32>, k: int)
    requires
        forall|a: u32, b: u32| #[trigger] edges.contains((a, b)) ==> rank(a) < rank(b),
        1 <= k < w.len(),
        forall|i: int| 0 <= i < w.len() - 1 ==> #[trigger] edges.contains((w[i], w[i + 1])),
    ensures
        rank(w[0]) < rank(w[k]),
    decreases k,
{
    let i = k - 1;
    assert(edges.contains((w[i], w[i + 1])));
    assert(i + 1 == k);
    if k > 1 {
        lemma_walk_climbs(edges, rank, w, k - 1);
    }
}

} // verus!
