//! The dependency graph of a topology-aware annealing run, kept in a
//! `petgraph` graph, with its cycle check and its topological order.

use petgraph::algo::toposort;
use petgraph::graph::{DiGraph, NodeIndex};
use vstd::prelude::*;

verus! {

#[verifier::external_type_specification]
#[verifier::external_body]
#[verifier::reject_recursive_types(N)]
#[verifier::reject_recursive_types(E)]
#[verifier::reject_recursive_types(Ty)]
#[verifier::reject_recursive_types(Ix)]
pub struct ExGraph<N, E, Ty, Ix>(petgraph::graph::Graph<N, E, Ty, Ix>);

#[verifier::external_type_specification]
#[verifier::external_body]
pub struct ExDirected(petgraph::Directed);

/// The successors of each node of a petgraph graph, one sequence per node in
/// node-index order, each in the order `Graph::neighbors` yields them.
pub uninterp spec fn petgraph_successors(g: DiGraph<(), ()>) -> Seq<Seq<usize>>;

/// The edges of a petgraph graph, by edge index, as (source, target) node indices.
pub uninterp spec fn petgraph_edges(g: DiGraph<(), ()>) -> Seq<(usize, usize)>;

/// The order in which `petgraph::algo::toposort` lists the nodes of an acyclic
/// graph whose successor lists are `successors`.
pub uninterp spec fn petgraph_toposort_order(successors: Seq<Seq<usize>>) -> Seq<usize>;

// ── The model: a node count and a sequence of edges ─────────────────────────

/// `edges` holds an edge from `a` to `b`.
pub open spec fn has_edge(edges: Seq<(usize, usize)>, a: usize, b: usize) -> bool {
    exists|k: int| 0 <= k < edges.len() && #[trigger] edges[k] == (a, b)
}

/// `path` follows edges of `edges` from its first node to its last.
pub open spec fn is_walk(edges: Seq<(usize, usize)>, path: Seq<usize>) -> bool {
    forall|i: int| 0 <= i < path.len() - 1 ==> has_edge(edges, #[trigger] path[i], path[i + 1])
}

/// Node `c` lies on a cycle: some walk of at least one edge leads from `c` back to `c`.
pub open spec fn on_cycle(edges: Seq<(usize, usize)>, c: usize) -> bool {
    exists|path: Seq<usize>|
        #![trigger is_walk(edges, path)]
        path.len() >= 2 && path[0] == c && path[path.len() - 1] == c && is_walk(edges, path)
}

/// No node lies on a cycle (a self-loop is a cycle too).
pub open spec fn is_acyclic(edges: Seq<(usize, usize)>) -> bool {
    forall|c: usize| !on_cycle(edges, c)
}

/// `v` appears in `order`.
pub open spec fn is_listed(order: Seq<usize>, v: usize) -> bool {
    exists|i: int| 0 <= i < order.len() && #[trigger] order[i] == v
}

/// `a` appears in `order` at a place before one where `b` appears.
pub open spec fn listed_before(order: Seq<usize>, a: usize, b: usize) -> bool {
    exists|i: int, j: int|
        #![trigger order[i], order[j]]
        0 <= i < j < order.len() && order[i] == a && order[j] == b
}

/// `order` lists each of the `n` nodes exactly once, and every edge leads
/// from a node to one listed after it.
pub open spec fn is_topological_order(n: nat, edges: Seq<(usize, usize)>, order: Seq<usize>) -> bool {
    &&& order.len() == n
    &&& forall|i: int| 0 <= i < n ==> #[trigger] order[i] < n
    &&& forall|i: int, j: int| 0 <= i < j < n ==> order[i] != order[j]
    &&& forall|v: usize| v < n ==> #[trigger] is_listed(order, v)
    &&& forall|k: int|
        0 <= k < edges.len() ==> listed_before(order, (#[trigger] edges[k]).0, edges[k].1)
}

/// Some listing of the nodes is a topological order.
pub open spec fn has_topological_order(n: nat, edges: Seq<(usize, usize)>) -> bool {
    exists|order: Seq<usize>| is_topological_order(n, edges, order)
}

/// The successor lists of a graph with `n` nodes into which `edges` were
/// added one after another: each edge `a -> b` puts `b` in front of the
/// successors of `a` (an edge from a node that does not exist is passed over).
pub open spec fn successors_from(n: nat, edges: Seq<(usize, usize)>) -> Seq<Seq<usize>>
    decreases edges.len(),
{
    if edges.len() == 0 {
        Seq::new(n, |v: int| Seq::<usize>::empty())
    } else {
        let s = successors_from(n, edges.drop_last());
        let e = edges.last();
        if e.0 < s.len() {
            s.update(e.0 as int, seq![e.1] + s[e.0 as int])
        } else {
            s
        }
    }
}

// ── Trusted calls into petgraph ─────────────────────────────────────────────

/// `petgraph::graph::Graph::new`: a directed graph with no nodes and no edges.
#[verifier::external_body]
fn petgraph_new() -> (g: DiGraph<(), ()>)
    ensures
        petgraph_successors(g) == Seq::<Seq<usize>>::empty(),
        petgraph_edges(g) == Seq::<(usize, usize)>::empty(),
{
    DiGraph::new()
}

/// `petgraph::graph::Graph::node_count`: the number of nodes.
#[verifier::external_body]
fn petgraph_count_nodes(g: &DiGraph<(), ()>) -> (n: usize)
    ensures
        n == petgraph_successors(*g).len(),
{
    g.node_count()
}

/// `petgraph::graph::Graph::edge_count`: the number of edges.
#[verifier::external_body]
fn petgraph_count_edges(g: &DiGraph<(), ()>) -> (n: usize)
    ensures
        n == petgraph_edges(*g).len(),
{
    g.edge_count()
}

/// `petgraph::graph::Graph::add_node`: appends a node with no successors, whose
/// index is the old node count, and leaves the edges as they were. It panics
/// when the index would be `u32::MAX`, the end marker of its default index
/// type, so that is ruled out.
#[verifier::external_body]
fn petgraph_add_node(g: &mut DiGraph<(), ()>) -> (idx: usize)
    requires
        petgraph_successors(*old(g)).len() < u32::MAX,
    ensures
        idx == petgraph_successors(*old(g)).len(),
        petgraph_successors(*final(g)) == petgraph_successors(*old(g)).push(
            Seq::<usize>::empty(),
        ),
        petgraph_edges(*final(g)) == petgraph_edges(*old(g)),
{
    g.add_node(()).index()
}

/// `petgraph::graph::Graph::add_edge`: appends the edge `a -> b` to the edges
/// and links it at the head of the outgoing list of `a`, so `b` becomes the
/// first successor of `a`. It panics on an endpoint that is not a node and when
/// the edge index would be `u32::MAX`; both are ruled out.
#[verifier::external_body]
fn petgraph_add_edge(g: &mut DiGraph<(), ()>, a: usize, b: usize)
    requires
        a < petgraph_successors(*old(g)).len(),
        b < petgraph_successors(*old(g)).len(),
        petgraph_edges(*old(g)).len() < u32::MAX,
    ensures
        petgraph_successors(*final(g)) == petgraph_successors(*old(g)).update(
            a as int,
            seq![b] + petgraph_successors(*old(g))[a as int],
        ),
        petgraph_edges(*final(g)) == petgraph_edges(*old(g)).push((a, b)),
{
    g.add_edge(NodeIndex::new(a), NodeIndex::new(b), ());
}

/// `petgraph::algo::toposort`, with node indices as `usize`. Its documentation:
/// on an acyclic graph it returns the nodes in topological order, each node
/// before its successors; otherwise a `Cycle` error holding a node that
/// participates in a cycle (self-loops count as cycles). Which topological
/// order comes back is decided by its depth-first search over the nodes in
/// index order and over each node's successors in list order: a function of
/// the successor lists, named `petgraph_toposort_order`.
#[verifier::external_body]
fn petgraph_toposort(g: &DiGraph<(), ()>) -> (r: Result<Vec<usize>, usize>)
    ensures
        r is Ok <==> is_acyclic(petgraph_edges(*g)),
        r matches Ok(order) ==> is_topological_order(
            petgraph_successors(*g).len(),
            petgraph_edges(*g),
            order@,
        ),
        r matches Ok(order) ==> order@ == petgraph_toposort_order(petgraph_successors(*g)),
        r matches Err(c) ==> c < petgraph_successors(*g).len() && on_cycle(petgraph_edges(*g), c),
{
    match toposort(g, None) {
        Ok(order) => Ok(order.into_iter().map(|n| n.index()).collect()),
        Err(cycle) => Err(cycle.node_id().index()),
    }
}

// ── Why a topological order rules out cycles ────────────────────────────────

/// The place at which `v` appears in `order` (meaningful when it appears).
pub open spec fn position(order: Seq<usize>, v: usize) -> int {
    choose|i: int| 0 <= i < order.len() && order[i] == v
}

/// An edge leads from a node to one at a later place of a topological order.
proof fn lemma_edge_moves_forward(
    n: nat,
    edges: Seq<(usize, usize)>,
    order: Seq<usize>,
    a: usize,
    b: usize,
)
    requires
        is_topological_order(n, edges, order),
        has_edge(edges, a, b),
    ensures
        0 <= position(order, a) < position(order, b) < n,
{
    let k = choose|k: int| 0 <= k < edges.len() && #[trigger] edges[k] == (a, b);
    assert(listed_before(order, edges[k].0, edges[k].1));
    let (i, j) = choose|i: int, j: int|
        #![trigger order[i], order[j]]
        0 <= i < j < order.len() && order[i] == a && order[j] == b;
    let pa = position(order, a);
    let pb = position(order, b);
    assert(0 <= pa < order.len() && order[pa] == a);
    assert(0 <= pb < order.len() && order[pb] == b);
    if pa != i {
        if pa < i {
            assert(order[pa] != order[i]);
        } else {
            assert(order[i] != order[pa]);
        }
    }
    if pb != j {
        if pb < j {
            assert(order[pb] != order[j]);
        } else {
            assert(order[j] != order[pb]);
        }
    }
}

/// Along a walk, each node after the first sits later in a topological order
/// than the first.
proof fn lemma_walk_moves_forward(
    n: nat,
    edges: Seq<(usize, usize)>,
    order: Seq<usize>,
    path: Seq<usize>,
    m: int,
)
    requires
        is_topological_order(n, edges, order),
        is_walk(edges, path),
        1 <= m < path.len(),
    ensures
        position(order, path[0]) < position(order, path[m]),
    decreases m,
{
    assert(has_edge(edges, path[m - 1], path[m]));
    lemma_edge_moves_forward(n, edges, order, path[m - 1], path[m]);
    if m > 1 {
        lemma_walk_moves_forward(n, edges, order, path, m - 1);
    }
}

/// A graph whose nodes can be listed in topological order has no cycle.
pub proof fn lemma_ordered_graph_is_acyclic(n: nat, edges: Seq<(usize, usize)>, order: Seq<usize>)
    requires
        is_topological_order(n, edges, order),
    ensures
        is_acyclic(edges),
{
    assert forall|c: usize| !on_cycle(edges, c) by {
        if on_cycle(edges, c) {
            let path = choose|path: Seq<usize>|
                #![trigger is_walk(edges, path)]
                path.len() >= 2 && path[0] == c && path[path.len() - 1] == c && is_walk(edges, path);
            lemma_walk_moves_forward(n, edges, order, path, path.len() - 1);
        }
    }
}

/// A graph in which some node lies on a cycle has no topological order.
pub proof fn lemma_cycle_excludes_order(n: nat, edges: Seq<(usize, usize)>, c: usize)
    requires
        on_cycle(edges, c),
    ensures
        !has_topological_order(n, edges),
{
    if has_topological_order(n, edges) {
        let order = choose|order: Seq<usize>| is_topological_order(n, edges, order);
        lemma_ordered_graph_is_acyclic(n, edges, order);
    }
}

// ── Successor lists built edge by edge ──────────────────────────────────────

/// Every edge of `edges` joins two of the `n` nodes.
pub open spec fn edges_within(n: nat, edges: Seq<(usize, usize)>) -> bool {
    forall|k: int| 0 <= k < edges.len() ==> (#[trigger] edges[k]).0 < n && edges[k].1 < n
}

proof fn lemma_successors_len(n: nat, edges: Seq<(usize, usize)>)
    ensures
        successors_from(n, edges).len() == n,
    decreases edges.len(),
{
    if edges.len() > 0 {
        lemma_successors_len(n, edges.drop_last());
        let s = successors_from(n, edges.drop_last());
        let e = edges.last();
    } else {
        assert(successors_from(n, edges) == Seq::new(n, |v: int| Seq::<usize>::empty()));
    }
}

/// A node added after the edges has no successors, and the others keep theirs.
proof fn lemma_successors_extra_node(n: nat, edges: Seq<(usize, usize)>)
    requires
        edges_within(n, edges),
    ensures
        successors_from(n + 1, edges) == successors_from(n, edges).push(Seq::<usize>::empty()),
    decreases edges.len(),
{
    if edges.len() == 0 {
        assert(successors_from(n + 1, edges) =~= successors_from(n, edges).push(
            Seq::<usize>::empty(),
        ));
    } else {
        let rest = edges.drop_last();
        assert(edges_within(n, rest)) by {
            assert forall|k: int| 0 <= k < rest.len() implies (#[trigger] rest[k]).0 < n
                && rest[k].1 < n by {
                assert(rest[k] == edges[k]);
            }
        }
        lemma_successors_extra_node(n, rest);
        lemma_successors_len(n, rest);
        let e = edges.last();
        assert(edges[edges.len() - 1] == e);
        let s = successors_from(n, rest);
        assert(successors_from(n + 1, edges) =~= successors_from(n, edges).push(
            Seq::<usize>::empty(),
        ));
    }
}

// ── The dependency graph ────────────────────────────────────────────────────

/// The dependency structure of a topology-aware annealing run: nodes are
/// numbered from 0 in the order they were added, and an edge `a -> b` says
/// that `b` depends on `a`.
pub struct DependencyGraph {
    graph: DiGraph<(), ()>,
}

/// The message with which a graph that holds a cycle is refused.
pub open spec fn cycle_message() -> Seq<char> {
    "Graph contains a cycle; must be a DAG"@
}

impl DependencyGraph {
    /// The number of nodes.
    pub closed spec fn num_nodes(&self) -> nat {
        petgraph_successors(self.graph).len()
    }

    /// The edges, in the order they were added.
    pub closed spec fn edge_list(&self) -> Seq<(usize, usize)> {
        petgraph_edges(self.graph)
    }

    /// Every edge joins two nodes, and each node's successors are those that
    /// adding the edges one after another gives it.
    pub closed spec fn well_formed(&self) -> bool {
        &&& edges_within(self.num_nodes(), self.edge_list())
        &&& petgraph_successors(self.graph) == successors_from(self.num_nodes(), self.edge_list())
    }

    /// A graph with no nodes and no edges.
    pub fn new() -> (g: Self)
        ensures
            g.well_formed(),
            g.num_nodes() == 0,
            g.edge_list() == Seq::<(usize, usize)>::empty(),
    {
        let g = DependencyGraph { graph: petgraph_new() };
        assert(successors_from(0, Seq::<(usize, usize)>::empty()) =~= Seq::<Seq<usize>>::empty());
        g
    }

    /// Adds a node and returns its index, which is the former node count.
    pub fn add_node(&mut self) -> (idx: usize)
        requires
            old(self).well_formed(),
            old(self).num_nodes() < u32::MAX,
        ensures
            final(self).well_formed(),
            idx == old(self).num_nodes(),
            final(self).num_nodes() == old(self).num_nodes() + 1,
            final(self).edge_list() == old(self).edge_list(),
    {
        proof {
            lemma_successors_extra_node(self.num_nodes(), self.edge_list());
        }
        let idx = petgraph_add_node(&mut self.graph);
        assert(edges_within(self.num_nodes(), self.edge_list()));
        idx
    }

    /// Adds the edge `a -> b`.
    pub fn add_edge(&mut self, a: usize, b: usize)
        requires
            old(self).well_formed(),
            a < old(self).num_nodes(),
            b < old(self).num_nodes(),
            old(self).edge_list().len() < u32::MAX,
        ensures
            final(self).well_formed(),
            final(self).num_nodes() == old(self).num_nodes(),
            final(self).edge_list() == old(self).edge_list().push((a, b)),
    {
        let ghost n = self.num_nodes();
        let ghost edges = self.edge_list();
        petgraph_add_edge(&mut self.graph, a, b);
        proof {
            lemma_successors_len(n, edges);
            let pushed = edges.push((a, b));
            assert(pushed.drop_last() =~= edges);
            assert(pushed.last() == (a, b));
            assert(self.num_nodes() == n);
            assert(petgraph_successors(self.graph) == successors_from(n, pushed));
            assert forall|k: int| 0 <= k < pushed.len() implies (#[trigger] pushed[k]).0 < n
                && pushed[k].1 < n by {
                if k < edges.len() {
                    assert(pushed[k] == edges[k]);
                }
            }
        }
    }

    /// The number of nodes.
    pub fn node_count(&self) -> (n: usize)
        ensures
            n == self.num_nodes(),
    {
        petgraph_count_nodes(&self.graph)
    }

    /// The number of edges.
    pub fn edge_count(&self) -> (n: usize)
        ensures
            n == self.edge_list().len(),
    {
        petgraph_count_edges(&self.graph)
    }

    /// The graph with nodes `0..node_count` and the given edges, added in order.
    pub fn from_edges(node_count: usize, edges: &Vec<(usize, usize)>) -> (g: Self)
        requires
            node_count <= u32::MAX,
            edges.len() <= u32::MAX,
            edges_within(node_count as nat, edges@),
        ensures
            g.well_formed(),
            g.num_nodes() == node_count,
            g.edge_list() == edges@,
    {
        let mut g = DependencyGraph::new();
        let mut i: usize = 0;
        while i < node_count
            invariant
                i <= node_count <= u32::MAX,
                g.well_formed(),
                g.num_nodes() == i,
                g.edge_list() == Seq::<(usize, usize)>::empty(),
            decreases node_count - i,
        {
            g.add_node();
            i = i + 1;
        }
        let mut k: usize = 0;
        while k < edges.len()
            invariant
                k <= edges.len() <= u32::MAX,
                edges_within(node_count as nat, edges@),
                g.well_formed(),
                g.num_nodes() == node_count,
                g.edge_list() == edges@.take(k as int),
            decreases edges.len() - k,
        {
            let (a, b) = edges[k];
            assert(edges@[k as int].0 < node_count && edges@[k as int].1 < node_count);
            g.add_edge(a, b);
            assert(edges@.take(k as int).push((a, b)) =~= edges@.take(k + 1));
            k = k + 1;
        }
        assert(edges@.take(edges.len() as int) =~= edges@);
        g
    }

    /// Whether no node lies on a cycle.
    pub fn is_acyclic(&self) -> (r: bool)
        ensures
            r == is_acyclic(self.edge_list()),
            r == has_topological_order(self.num_nodes(), self.edge_list()),
    {
        let sorted = petgraph_toposort(&self.graph);
        proof {
            self.lemma_sorted_iff_ordered(sorted);
        }
        sorted.is_ok()
    }

    /// The nodes in topological order, or no nodes at all when the graph has a
    /// cycle. The order is the one petgraph's `toposort` gives for the graph's
    /// successor lists.
    pub fn topological_order(&self) -> (order: Vec<usize>)
        requires
            self.well_formed(),
        ensures
            is_acyclic(self.edge_list()) ==> is_topological_order(
                self.num_nodes(),
                self.edge_list(),
                order@,
            ),
            is_acyclic(self.edge_list()) ==> order@ == petgraph_toposort_order(
                successors_from(self.num_nodes(), self.edge_list()),
            ),
            !is_acyclic(self.edge_list()) ==> order@.len() == 0,
    {
        match petgraph_toposort(&self.graph) {
            Ok(order) => order,
            Err(_) => Vec::new(),
        }
    }

    /// Accepts the graph if it has no cycle, and refuses it otherwise.
    pub fn check_acyclic(&self) -> (r: Result<(), &'static str>)
        ensures
            r is Ok <==> is_acyclic(self.edge_list()),
            r is Ok <==> has_topological_order(self.num_nodes(), self.edge_list()),
            r matches Err(msg) ==> msg@ == cycle_message(),
    {
        if self.is_acyclic() {
            Ok(())
        } else {
            Err("Graph contains a cycle; must be a DAG")
        }
    }

    proof fn lemma_sorted_iff_ordered(&self, sorted: Result<Vec<usize>, usize>)
        requires
            sorted is Ok <==> is_acyclic(self.edge_list()),
            sorted matches Ok(order) ==> is_topological_order(
                self.num_nodes(),
                self.edge_list(),
                order@,
            ),
        ensures
            sorted is Ok <==> has_topological_order(self.num_nodes(), self.edge_list()),
    {
        if let Ok(order) = sorted {
            assert(is_topological_order(self.num_nodes(), self.edge_list(), order@));
        } else if has_topological_order(self.num_nodes(), self.edge_list()) {
            let order = choose|order: Seq<usize>|
                is_topological_order(self.num_nodes(), self.edge_list(), order);
            lemma_ordered_graph_is_acyclic(self.num_nodes(), self.edge_list(), order);
        }
    }
}

} // verus!
