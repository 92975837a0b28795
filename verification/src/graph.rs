//! The graph model: a finite undirected multigraph with `i32` vertex
//! labels and `String` edge labels.
//!
//! Vertices and edges are identified by small dense indices.  Vertices are
//! never removed; an edge is consumed by replacing its slot with `None`, so
//! edge identifiers stay stable while the trail builder works.  Parallel
//! edges are permitted and each counts separately toward degree; a
//! self-loop contributes two to the degree of its endpoint.

use vstd::prelude::*;

verus! {

/// Capacity bound on the vertex and edge arrays.  It keeps degree sums and
/// index conversions comfortably inside `usize` and `u32` ranges.
pub const CAPACITY: usize = 0x4000_0000;

/// The mathematical value of one edge slot: the two endpoint indices and
/// the label.
pub ghost struct EdgeView {
    pub u: usize,
    pub v: usize,
    pub label: Seq<char>,
}

/// The mathematical value of a graph: the vertex labels, indexed by vertex
/// identifier, and the edge slots, indexed by edge identifier.  A `None`
/// slot is an edge that has been consumed.
pub ghost struct GraphView {
    pub labels: Seq<i32>,
    pub edges: Seq<Option<EdgeView>>,
}

/// One undirected edge: the two endpoint vertex indices and a label.
pub struct Edge {
    u: usize,
    v: usize,
    label: String,
}

/// An undirected multigraph.
pub struct Graph {
    labels: Vec<i32>,
    edges: Vec<Option<Edge>>,
}

/// Errors reported by the graph model.
#[derive(Clone, Copy, Debug, PartialEq, Eq, Structural)]
pub enum GraphError {
    /// An operation referenced a vertex identifier that is not in the graph.
    InvalidVertex,
    /// An edge removal referenced a slot that is absent or already consumed.
    EdgeNotFound,
}

impl View for Edge {
    type V = EdgeView;

    closed spec fn view(&self) -> EdgeView {
        EdgeView { u: self.u, v: self.v, label: self.label@ }
    }
}

impl View for Graph {
    type V = GraphView;

    closed spec fn view(&self) -> GraphView {
        GraphView {
            labels: self.labels@,
            edges: Seq::new(
                self.edges@.len(),
                |i: int| match self.edges@[i] {
                    Some(e) => Some(e@),
                    None => None,
                },
            ),
        }
    }
}

/// True when the edge joins `a` and `b`, in either orientation.
pub open spec fn edge_connects(e: EdgeView, a: usize, b: usize) -> bool {
    (e.u == a && e.v == b) || (e.u == b && e.v == a)
}

/// True when `a` is an endpoint of the edge.
pub open spec fn edge_touches(e: EdgeView, a: usize) -> bool {
    e.u == a || e.v == a
}

/// True when slot `j` holds a live edge joining `a` and `b`.
pub open spec fn connecting_at(edges: Seq<Option<EdgeView>>, j: int, a: usize, b: usize) -> bool {
    edges[j] is Some && edge_connects(edges[j]->0, a, b)
}

/// How much one edge slot contributes to the degree of `a`: one per
/// endpoint equal to `a`, so a self-loop contributes two.
pub open spec fn degree_contrib(slot: Option<EdgeView>, a: usize) -> nat {
    match slot {
        Some(e) => (if e.u == a { 1nat } else { 0nat }) + (if e.v == a { 1nat } else { 0nat }),
        None => 0nat,
    }
}

/// Number of endpoints of vertex `a` among the first `n` edge slots; a
/// self-loop at `a` counts twice.
pub open spec fn degree_upto(edges: Seq<Option<EdgeView>>, a: usize, n: int) -> nat
    decreases n,
{
    if n <= 0 {
        0
    } else {
        degree_upto(edges, a, n - 1) + degree_contrib(edges[n - 1], a)
    }
}

/// Degree of vertex `a`: endpoints incident to `a` over all live edges.
pub open spec fn degree_of(edges: Seq<Option<EdgeView>>, a: usize) -> nat {
    degree_upto(edges, a, edges.len() as int)
}

/// The neighbor entries one edge slot contributes for vertex `a`: the
/// opposite endpoint of a live incident edge, and nothing otherwise.  A
/// self-loop contributes `a` itself, once.
pub open spec fn neighbor_contrib(slot: Option<EdgeView>, a: usize) -> Seq<usize> {
    match slot {
        Some(e) => if e.u == a {
            seq![e.v]
        } else if e.v == a {
            seq![e.u]
        } else {
            Seq::empty()
        },
        None => Seq::empty(),
    }
}

/// Neighbor entries of `a` among the first `n` edge slots, one entry per
/// incident live edge, in edge-insertion order.
pub open spec fn neighbors_upto(edges: Seq<Option<EdgeView>>, a: usize, n: int) -> Seq<usize>
    decreases n,
{
    if n <= 0 {
        Seq::empty()
    } else {
        neighbors_upto(edges, a, n - 1) + neighbor_contrib(edges[n - 1], a)
    }
}

/// Neighbor entries of `a` over all live edges, in edge-insertion order.
pub open spec fn neighbors_of(edges: Seq<Option<EdgeView>>, a: usize) -> Seq<usize> {
    neighbors_upto(edges, a, edges.len() as int)
}

/// Number of live edges among the first `n` slots.
pub open spec fn live_upto(edges: Seq<Option<EdgeView>>, n: int) -> nat
    decreases n,
{
    if n <= 0 {
        0
    } else {
        live_upto(edges, n - 1) + if edges[n - 1] is Some { 1nat } else { 0nat }
    }
}

/// Number of live edges in the graph.
pub open spec fn live_count(edges: Seq<Option<EdgeView>>) -> nat {
    live_upto(edges, edges.len() as int)
}

/// Endpoint pairs of the live edges among the first `n` slots, in
/// edge-insertion order.
pub open spec fn live_pairs_upto(edges: Seq<Option<EdgeView>>, n: int) -> Seq<(usize, usize)>
    decreases n,
{
    if n <= 0 {
        Seq::empty()
    } else {
        live_pairs_upto(edges, n - 1) + match edges[n - 1] {
            Some(e) => seq![(e.u, e.v)],
            None => Seq::empty(),
        }
    }
}

/// Endpoint pairs of all live edges, in edge-insertion order.
pub open spec fn live_pairs(edges: Seq<Option<EdgeView>>) -> Seq<(usize, usize)> {
    live_pairs_upto(edges, edges.len() as int)
}

/// Well-formedness of a graph value: every live edge joins existing
/// vertices, and the arrays stay under the capacity bound.
pub open spec fn view_wf(gv: GraphView) -> bool {
    &&& gv.labels.len() <= CAPACITY
    &&& gv.edges.len() <= CAPACITY
    &&& forall|j: int|
        0 <= j < gv.edges.len() && (#[trigger] gv.edges[j]) is Some ==> gv.edges[j]->0.u
            < gv.labels.len() && gv.edges[j]->0.v < gv.labels.len()
}

impl Graph {
    /// Well-formedness: every live edge joins existing vertices, and the
    /// arrays stay under the capacity bound.
    pub open spec fn wf(self) -> bool {
        view_wf(self@)
    }

    /// Creates an empty graph.
    pub fn new() -> (r: Graph)
        ensures
            r.wf(),
            r@.labels.len() == 0,
            r@.edges.len() == 0,
    {
        Graph { labels: Vec::new(), edges: Vec::new() }
    }

    /// Number of vertices.
    pub fn vertex_count(&self) -> (r: usize)
        ensures
            r == self@.labels.len(),
    {
        self.labels.len()
    }

    /// Number of edge slots, consumed ones included.
    pub fn edge_slot_count(&self) -> (r: usize)
        ensures
            r == self@.edges.len(),
    {
        self.edges.len()
    }

    /// The label of vertex `v`.
    pub fn vertex_label(&self, v: usize) -> (r: i32)
        requires
            v < self@.labels.len(),
        ensures
            r == self@.labels[v as int],
    {
        self.labels[v]
    }

    /// Inserts a new vertex carrying `label` and returns its identifier.
    /// Labels need not be distinct.
    pub fn add_vertex(&mut self, label: i32) -> (r: usize)
        requires
            old(self).wf(),
            old(self)@.labels.len() < CAPACITY,
        ensures
            final(self).wf(),
            r == old(self)@.labels.len(),
            final(self)@.labels == old(self)@.labels.push(label),
            final(self)@.edges == old(self)@.edges,
    {
        let r = self.labels.len();
        self.labels.push(label);
        proof {
            assert(self@.edges =~= old(self)@.edges);
        }
        r
    }

    /// Inserts an undirected edge between `u` and `v` carrying `label` and
    /// returns its identifier.  Fails with `InvalidVertex` exactly when an
    /// endpoint is not a vertex of the graph; self-loops are permitted.
    pub fn add_edge(&mut self, u: usize, v: usize, label: String) -> (r: Result<
        usize,
        GraphError,
    >)
        requires
            old(self).wf(),
            old(self)@.edges.len() < CAPACITY,
        ensures
            final(self).wf(),
            final(self)@.labels == old(self)@.labels,
            u < old(self)@.labels.len() && v < old(self)@.labels.len() ==> {
                &&& r == Ok::<usize, GraphError>(old(self)@.edges.len() as usize)
                &&& final(self)@.edges == old(self)@.edges.push(
                    Some(EdgeView { u, v, label: label@ }),
                )
            },
            !(u < old(self)@.labels.len() && v < old(self)@.labels.len()) ==> {
                &&& r == Err::<usize, GraphError>(GraphError::InvalidVertex)
                &&& final(self)@ == old(self)@
            },
    {
        if u < self.labels.len() && v < self.labels.len() {
            let r = self.edges.len();
            let ghost lv = label@;
            self.edges.push(Some(Edge { u, v, label }));
            proof {
                assert(self@.edges =~= old(self)@.edges.push(Some(EdgeView { u, v, label: lv })));
            }
            Ok(r)
        } else {
            Err(GraphError::InvalidVertex)
        }
    }

    /// Deletes exactly the edge instance `e`.  Fails with `EdgeNotFound`
    /// exactly when the slot is absent or already consumed; the graph is
    /// then unchanged.
    pub fn remove_edge(&mut self, e: usize) -> (r: Result<(), GraphError>)
        requires
            old(self).wf(),
        ensures
            final(self).wf(),
            final(self)@.labels == old(self)@.labels,
            e < old(self)@.edges.len() && old(self)@.edges[e as int] is Some ==> r == Ok::<
                (),
                GraphError,
            >(()) && final(self)@.edges == old(self)@.edges.update(e as int, None::<EdgeView>),
            !(e < old(self)@.edges.len() && old(self)@.edges[e as int] is Some) ==> r == Err::<
                (),
                GraphError,
            >(GraphError::EdgeNotFound) && final(self)@ == old(self)@,
    {
        if e < self.edges.len() {
            if self.edges[e].is_some() {
                self.edges[e] = None;
                proof {
                    assert(self@.edges =~= old(self)@.edges.update(e as int, None::<EdgeView>));
                }
                return Ok(());
            }
        }
        Err(GraphError::EdgeNotFound)
    }

    /// Degree of vertex `a`: the number of live edge endpoints incident to
    /// `a`; a self-loop counts twice.  Reading it does not change the graph.
    pub fn degree(&self, a: usize) -> (r: usize)
        requires
            self.wf(),
        ensures
            r == degree_of(self@.edges, a),
    {
        let n = self.edges.len();
        let mut r: usize = 0;
        let mut i: usize = 0;
        while i < n
            invariant
                self.wf(),
                n == self@.edges.len(),
                i <= n,
                r == degree_upto(self@.edges, a, i as int),
                r <= 2 * i,
            decreases n - i,
        {
            match &self.edges[i] {
                Some(e) => {
                    if e.u == a {
                        r = r + 1;
                    }
                    if e.v == a {
                        r = r + 1;
                    }
                }
                None => {}
            }
            i = i + 1;
        }
        r
    }

    /// The neighbor entries of `a`, one per incident live edge, in
    /// edge-insertion order; the same vertex repeats once per parallel
    /// edge, and a self-loop yields `a` itself.  Reading them does not
    /// change the graph.
    pub fn neighbors(&self, a: usize) -> (r: Vec<usize>)
        requires
            self.wf(),
        ensures
            r@ == neighbors_of(self@.edges, a),
    {
        let n = self.edges.len();
        let mut r: Vec<usize> = Vec::new();
        let mut i: usize = 0;
        while i < n
            invariant
                self.wf(),
                n == self@.edges.len(),
                i <= n,
                r@ == neighbors_upto(self@.edges, a, i as int),
            decreases n - i,
        {
            match &self.edges[i] {
                Some(e) => {
                    if e.u == a {
                        r.push(e.v);
                    } else if e.v == a {
                        r.push(e.u);
                    }
                }
                None => {}
            }
            proof {
                assert(r@ =~= neighbors_upto(self@.edges, a, i + 1));
            }
            i = i + 1;
        }
        r
    }

    /// Finds the first live edge joining `a` and `b`, in either
    /// orientation, and returns its identifier.
    pub fn find_edge(&self, a: usize, b: usize) -> (r: Option<usize>)
        requires
            self.wf(),
        ensures
            r is Some ==> r->0 < self@.edges.len() && connecting_at(self@.edges, r->0 as int, a, b)
                && (forall|j: int| 0 <= j < r->0 ==> !connecting_at(self@.edges, j, a, b)),
            r is None ==> forall|j: int|
                0 <= j < self@.edges.len() ==> !connecting_at(self@.edges, j, a, b),
    {
        let n = self.edges.len();
        let mut i: usize = 0;
        while i < n
            invariant
                self.wf(),
                n == self@.edges.len(),
                i <= n,
                forall|j: int| 0 <= j < i ==> !connecting_at(self@.edges, j, a, b),
            decreases n - i,
        {
            match &self.edges[i] {
                Some(e) => {
                    if (e.u == a && e.v == b) || (e.u == b && e.v == a) {
                        return Some(i);
                    }
                }
                None => {}
            }
            i = i + 1;
        }
        None
    }

    /// The endpoint pair of edge `e`, or `None` when the slot is absent or
    /// already consumed.
    pub fn edge_endpoints(&self, e: usize) -> (r: Option<(usize, usize)>)
        ensures
            e < self@.edges.len() && self@.edges[e as int] is Some ==> r == Some(
                (self@.edges[e as int]->0.u, self@.edges[e as int]->0.v),
            ),
            !(e < self@.edges.len() && self@.edges[e as int] is Some) ==> r is None,
    {
        if e < self.edges.len() {
            match &self.edges[e] {
                Some(edge) => Some((edge.u, edge.v)),
                None => None,
            }
        } else {
            None
        }
    }

    /// The label of edge `e`, or `None` when the slot is absent or
    /// already consumed.
    pub fn edge_label(&self, e: usize) -> (r: Option<String>)
        ensures
            e < self@.edges.len() && self@.edges[e as int] is Some ==> r is Some && r->0@
                == self@.edges[e as int]->0.label,
            !(e < self@.edges.len() && self@.edges[e as int] is Some) ==> r is None,
    {
        if e < self.edges.len() {
            match &self.edges[e] {
                Some(edge) => Some(edge.label.clone()),
                None => None,
            }
        } else {
            None
        }
    }

    /// Number of live edges.
    pub fn edge_count(&self) -> (r: usize)
        requires
            self.wf(),
        ensures
            r == live_count(self@.edges),
    {
        let n = self.edges.len();
        let mut r: usize = 0;
        let mut i: usize = 0;
        while i < n
            invariant
                n == self@.edges.len(),
                i <= n,
                r == live_upto(self@.edges, i as int),
                r <= i,
            decreases n - i,
        {
            if self.edges[i].is_some() {
                r = r + 1;
            }
            i = i + 1;
        }
        r
    }

    /// An independent copy with the same mathematical value; mutating the
    /// copy leaves this graph untouched.
    pub fn duplicate(&self) -> (r: Graph)
        ensures
            r@ == self@,
    {
        let mut labels: Vec<i32> = Vec::new();
        let mut i: usize = 0;
        while i < self.labels.len()
            invariant
                i <= self@.labels.len(),
                labels@.len() == i,
                forall|j: int| 0 <= j < i ==> labels@[j] == self@.labels[j],
            decreases self@.labels.len() - i,
        {
            labels.push(self.labels[i]);
            i = i + 1;
        }
        let mut edges: Vec<Option<Edge>> = Vec::new();
        let mut k: usize = 0;
        while k < self.edges.len()
            invariant
                k <= self@.edges.len(),
                edges@.len() == k,
                forall|j: int|
                    0 <= j < k ==> (match edges@[j] {
                        Some(e) => Some(e@),
                        None => None,
                    }) == self@.edges[j],
            decreases self@.edges.len() - k,
        {
            match &self.edges[k] {
                Some(e) => {
                    edges.push(Some(Edge { u: e.u, v: e.v, label: e.label.clone() }));
                }
                None => {
                    edges.push(None);
                }
            }
            k = k + 1;
        }
        let r = Graph { labels, edges };
        proof {
            assert(r@.labels =~= self@.labels);
            assert(r@.edges =~= self@.edges);
        }
        r
    }
}

/// Consuming the live edge `e` lowers by one the live-edge count over any
/// prefix that contains it, and leaves other prefixes unchanged.
pub proof fn lemma_live_upto_update(edges: Seq<Option<EdgeView>>, e: int, n: int)
    requires
        0 <= e < edges.len(),
        edges[e] is Some,
        n <= edges.len(),
    ensures
        live_upto(edges, n) == live_upto(edges.update(e, None::<EdgeView>), n) + if e < n {
            1nat
        } else {
            0nat
        },
    decreases n,
{
    if n > 0 {
        lemma_live_upto_update(edges, e, n - 1);
    }
}

/// Consuming the live edge `e` lowers the degree of every vertex over any
/// prefix that contains it by exactly that edge's contribution.
pub proof fn lemma_degree_upto_update(edges: Seq<Option<EdgeView>>, a: usize, e: int, n: int)
    requires
        0 <= e < edges.len(),
        edges[e] is Some,
        n <= edges.len(),
    ensures
        degree_upto(edges, a, n) == degree_upto(edges.update(e, None::<EdgeView>), a, n) + if e
            < n {
            degree_contrib(edges[e], a)
        } else {
            0nat
        },
    decreases n,
{
    if n > 0 {
        lemma_degree_upto_update(edges, a, e, n - 1);
    }
}

/// Every neighbor entry of `a` is witnessed by a live edge joining `a` to
/// that entry.
pub proof fn lemma_neighbor_has_edge(edges: Seq<Option<EdgeView>>, a: usize, n: int, k: int)
    requires
        n <= edges.len(),
        0 <= k < neighbors_upto(edges, a, n).len(),
    ensures
        exists|j: int|
            0 <= j < n && #[trigger] connecting_at(edges, j, a, neighbors_upto(edges, a, n)[k]),
    decreases n,
{
    if n > 0 {
        let rest = neighbors_upto(edges, a, n - 1);
        if k < rest.len() {
            lemma_neighbor_has_edge(edges, a, n - 1, k);
            let j = choose|j: int| 0 <= j < n - 1 && #[trigger] connecting_at(edges, j, a, rest[k]);
            assert(connecting_at(edges, j, a, neighbors_upto(edges, a, n)[k]));
        } else {
            assert(connecting_at(edges, n - 1, a, neighbors_upto(edges, a, n)[k]));
        }
    }
}

/// A live edge at `a` among the first `n` slots shows up as a neighbor
/// entry, so the neighbor list is not empty.
pub proof fn lemma_touching_edge_has_neighbor(edges: Seq<Option<EdgeView>>, a: usize, n: int, j: int)
    requires
        0 <= j < n <= edges.len(),
        edges[j] is Some,
        edge_touches(edges[j]->0, a),
    ensures
        neighbors_upto(edges, a, n).len() > 0,
    decreases n,
{
    if j < n - 1 {
        lemma_touching_edge_has_neighbor(edges, a, n - 1, j);
    }
}

/// A vertex of positive degree over the first `n` slots has some live
/// incident edge among them.
pub proof fn lemma_degree_pos_has_edge(edges: Seq<Option<EdgeView>>, a: usize, n: int)
    requires
        n <= edges.len(),
        degree_upto(edges, a, n) > 0,
    ensures
        exists|j: int|
            0 <= j < n && (#[trigger] edges[j]) is Some && edge_touches(edges[j]->0, a),
    decreases n,
{
    if n > 0 {
        if degree_contrib(edges[n - 1], a) > 0 {
            assert(edges[n - 1] is Some && edge_touches(edges[n - 1]->0, a));
        } else {
            lemma_degree_pos_has_edge(edges, a, n - 1);
        }
    }
}

/// A vertex with no neighbor entries has degree zero.
pub proof fn lemma_no_neighbors_degree_zero(edges: Seq<Option<EdgeView>>, a: usize, n: int)
    requires
        neighbors_upto(edges, a, n).len() == 0,
    ensures
        degree_upto(edges, a, n) == 0,
    decreases n,
{
    if n > 0 {
        lemma_no_neighbors_degree_zero(edges, a, n - 1);
    }
}

/// When every live edge joins vertices below `l`, every live endpoint pair
/// lies below `l` in both coordinates.
pub proof fn lemma_live_pairs_bounds(edges: Seq<Option<EdgeView>>, l: int, n: int)
    requires
        n <= edges.len(),
        forall|j: int|
            0 <= j < edges.len() && (#[trigger] edges[j]) is Some ==> edges[j]->0.u < l
                && edges[j]->0.v < l,
    ensures
        forall|k: int|
            0 <= k < live_pairs_upto(edges, n).len() ==> (#[trigger] live_pairs_upto(edges, n)[k]).0
                < l && live_pairs_upto(edges, n)[k].1 < l,
    decreases n,
{
    if n > 0 {
        lemma_live_pairs_bounds(edges, l, n - 1);
        assert forall|k: int| 0 <= k < live_pairs_upto(edges, n).len() implies (#[trigger] live_pairs_upto(
            edges,
            n,
        )[k]).0 < l && live_pairs_upto(edges, n)[k].1 < l by {
            let q = live_pairs_upto(edges, n - 1);
            if k < q.len() {
                assert(live_pairs_upto(edges, n)[k] == q[k]);
            } else {
                assert(edges[n - 1] is Some);
                assert(live_pairs_upto(edges, n)[k] == (edges[n - 1]->0.u, edges[n - 1]->0.v));
            }
        }
    }
}

} // verus!
