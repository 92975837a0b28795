//! The Eulerian analyzer: degree-parity classification and the
//! feasibility verdict.
//!
//! The verdict follows the observed policy: a graph qualifies for an
//! Eulerian trail when its edges contain a cycle and the number of
//! odd-degree vertices is exactly zero (circuit) or exactly two (open
//! trail).  Containing a cycle is a structural proxy for connectivity: it
//! accepts graphs that are disconnected but locally cyclic, and rejects
//! acyclic graphs such as simple paths even though those carry a valid
//! trail.  Both edge cases are deliberate and documented behavior.

use vstd::prelude::*;

use crate::graph::CAPACITY;
use crate::graph::Graph;
use crate::graph::GraphView;
use crate::graph::degree_of;
use crate::graph::lemma_live_pairs_bounds;
use crate::graph::live_pairs;
use crate::graph::live_pairs_upto;
use crate::graph::view_wf;

verus! {

/// True when vertex `v` has odd degree.
pub open spec fn odd_at(gv: GraphView, v: usize) -> bool {
    degree_of(gv.edges, v) % 2 == 1
}

/// The odd-degree vertices among the first `n` vertex identifiers, in
/// ascending order.
pub open spec fn odd_upto(gv: GraphView, n: int) -> Seq<usize>
    decreases n,
{
    if n <= 0 {
        Seq::empty()
    } else {
        odd_upto(gv, n - 1) + if odd_at(gv, (n - 1) as usize) {
            seq![(n - 1) as usize]
        } else {
            Seq::empty()
        }
    }
}

/// All odd-degree vertices of the graph, in ascending order.
pub open spec fn odd_vertices_of(gv: GraphView) -> Seq<usize> {
    odd_upto(gv, gv.labels.len() as int)
}

/// The number of odd-degree vertices.
pub open spec fn odd_count(gv: GraphView) -> nat {
    odd_vertices_of(gv).len()
}

/// True when `vs` and `w` describe a closed walk through the endpoint
/// pairs `pairs`: `w` lists at least one edge, no edge twice, each edge
/// joins the consecutive walk vertices in some orientation, and the walk
/// returns to its first vertex.
pub open spec fn cycle_walk_ok(pairs: Seq<(usize, usize)>, w: Seq<int>, vs: Seq<usize>) -> bool {
    &&& w.len() >= 1
    &&& vs.len() == w.len() + 1
    &&& vs[0] == vs[vs.len() - 1]
    &&& forall|i: int| #![trigger w[i]]
        0 <= i < w.len() ==> 0 <= w[i] < pairs.len() && ((pairs[w[i]].0 == vs[i] && pairs[w[i]].1
            == vs[i + 1]) || (pairs[w[i]].0 == vs[i + 1] && pairs[w[i]].1 == vs[i]))
    &&& forall|i: int, j: int| #![trigger w[i], w[j]] 0 <= i < j < w.len() ==> w[i] != w[j]
}

/// True when the undirected graph whose edges are the endpoint pairs
/// `pairs` contains a cycle, that is, a closed walk repeating no edge.  A
/// self-loop and a pair of parallel edges both count.
pub open spec fn cyclic(pairs: Seq<(usize, usize)>) -> bool {
    exists|w: Seq<int>, vs: Seq<usize>| cycle_walk_ok(pairs, w, vs)
}

/// The feasibility policy: the edges contain a cycle, and the number of
/// odd-degree vertices is exactly zero or exactly two.
pub open spec fn euler_feasible(gv: GraphView) -> bool {
    &&& cyclic(live_pairs(gv.edges))
    &&& (odd_count(gv) == 0 || odd_count(gv) == 2)
}

/// The vertex `s` is odd-degree, of minimum degree among the odd-degree
/// vertices, and first in ascending vertex order among those of that
/// minimum degree.  At most one vertex satisfies this.
pub open spec fn is_lowest_odd(gv: GraphView, s: usize) -> bool {
    &&& s < gv.labels.len()
    &&& odd_at(gv, s)
    &&& forall|v: usize| #![trigger odd_at(gv, v)]
        v < gv.labels.len() && odd_at(gv, v) ==> degree_of(gv.edges, s) <= degree_of(gv.edges, v)
    &&& forall|v: usize| #![trigger odd_at(gv, v)]
        v < s && odd_at(gv, v) ==> degree_of(gv.edges, s) < degree_of(gv.edges, v)
}

/// A nonempty odd-vertex prefix names at least one odd-degree vertex.
pub proof fn lemma_odd_nonempty(gv: GraphView, n: int)
    requires
        odd_upto(gv, n).len() > 0,
    ensures
        exists|v: usize| v < n && #[trigger] odd_at(gv, v),
    decreases n,
{
    if n > 0 {
        if odd_at(gv, (n - 1) as usize) {
            assert(((n - 1) as usize) < n && odd_at(gv, (n - 1) as usize));
        } else {
            lemma_odd_nonempty(gv, n - 1);
        }
    }
}

/// When every vertex has even degree there are no odd-degree vertices.
pub proof fn lemma_all_even_no_odd(gv: GraphView, n: int)
    requires
        n <= gv.labels.len(),
        forall|v: usize| v < gv.labels.len() ==> !(#[trigger] odd_at(gv, v)),
    ensures
        odd_upto(gv, n).len() == 0,
    decreases n,
{
    if n > 0 {
        lemma_all_even_no_odd(gv, n - 1);
        assert(!odd_at(gv, (n - 1) as usize));
    }
}

/// A well-formed graph whose live edges contain a cycle has at least one
/// vertex.
pub proof fn lemma_cyclic_has_vertex(gv: GraphView)
    requires
        view_wf(gv),
        cyclic(live_pairs(gv.edges)),
    ensures
        gv.labels.len() > 0,
{
    let (w, vsc): (Seq<int>, Seq<usize>) = choose|w: Seq<int>, vsc: Seq<usize>|
        cycle_walk_ok(live_pairs(gv.edges), w, vsc);
    lemma_live_pairs_bounds(gv.edges, gv.labels.len() as int, gv.edges.len() as int);
    assert(0 <= w[0] < live_pairs(gv.edges).len());
    assert(live_pairs_upto(gv.edges, gv.edges.len() as int)[w[0]].0 < gv.labels.len());
}

/// All vertices whose degree is odd, in ascending identifier order.
/// Reading them does not change the graph.
pub fn odd_degree_vertices(g: &Graph) -> (r: Vec<usize>)
    requires
        g.wf(),
    ensures
        r@ == odd_vertices_of(g@),
{
    let n = g.vertex_count();
    let mut r: Vec<usize> = Vec::new();
    let mut v: usize = 0;
    while v < n
        invariant
            g.wf(),
            n == g@.labels.len(),
            v <= n,
            r@ == odd_upto(g@, v as int),
        decreases n - v,
    {
        let d = g.degree(v);
        if d % 2 == 1 {
            r.push(v);
        }
        proof {
            assert(r@ =~= odd_upto(g@, v + 1));
        }
        v = v + 1;
    }
    r
}

/// The number of vertices whose degree is odd.
pub fn count_odd_degree(g: &Graph) -> (r: usize)
    requires
        g.wf(),
    ensures
        r == odd_count(g@),
{
    odd_degree_vertices(g).len()
}

/// Among the odd-degree vertices, the one with minimum degree; ties go to
/// the first vertex in ascending identifier order.  Callers must know that
/// at least one odd-degree vertex exists.
pub fn lowest_odd_degree_vertex(g: &Graph) -> (r: usize)
    requires
        g.wf(),
        odd_count(g@) > 0,
    ensures
        is_lowest_odd(g@, r),
{
    let n = g.vertex_count();
    let mut best: usize = 0;
    let mut best_deg: usize = 0;
    let mut found = false;
    let mut v: usize = 0;
    while v < n
        invariant
            g.wf(),
            n == g@.labels.len(),
            v <= n,
            !found ==> forall|w: usize| w < v ==> !(#[trigger] odd_at(g@, w)),
            found ==> best < v && odd_at(g@, best) && best_deg == degree_of(g@.edges, best),
            found ==> forall|w: usize| #![trigger odd_at(g@, w)]
                w < v && odd_at(g@, w) ==> best_deg <= degree_of(g@.edges, w),
            found ==> forall|w: usize| #![trigger odd_at(g@, w)]
                w < best && odd_at(g@, w) ==> best_deg < degree_of(g@.edges, w),
        decreases n - v,
    {
        let d = g.degree(v);
        if d % 2 == 1 {
            if !found || d < best_deg {
                best = v;
                best_deg = d;
                found = true;
            }
        }
        v = v + 1;
    }
    proof {
        lemma_odd_nonempty(g@, n as int);
        assert(found);
    }
    best
}

/// The endpoint pairs of all live edges, in edge-insertion order.
fn live_edge_pairs(g: &Graph) -> (r: Vec<(usize, usize)>)
    ensures
        r@ == live_pairs(g@.edges),
        r@.len() <= g@.edges.len(),
{
    let n = g.edge_slot_count();
    let mut r: Vec<(usize, usize)> = Vec::new();
    let mut i: usize = 0;
    while i < n
        invariant
            n == g@.edges.len(),
            i <= n,
            r@ == live_pairs_upto(g@.edges, i as int),
            r@.len() <= i,
        decreases n - i,
    {
        match g.edge_endpoints(i) {
            Some(p) => {
                r.push(p);
            }
            None => {}
        }
        proof {
            assert(r@ =~= live_pairs_upto(g@.edges, i + 1));
        }
        i = i + 1;
    }
    r
}

/// Relies on petgraph's `algo::is_cyclic_undirected`: applied to the
/// undirected graph with `n` vertices and exactly the endpoint pairs in
/// `pairs` as its edges, it returns true exactly when that graph contains
/// a cycle (a closed walk repeating no edge); parallel edges and
/// self-loops count as cycles.
#[verifier::external_body]
fn pairs_contain_cycle(n: usize, pairs: &Vec<(usize, usize)>) -> (r: bool)
    requires
        n < 0xffff_ffff,
        pairs@.len() < 0xffff_ffff,
        forall|i: int| 0 <= i < pairs@.len() ==> (#[trigger] pairs@[i]).0 < n && pairs@[i].1 < n,
    ensures
        r == cyclic(pairs@),
{
    let mut pg = petgraph::graph::Graph::<(), (), petgraph::Undirected, u32>::with_capacity(
        n,
        pairs.len(),
    );
    for _ in 0..n {
        pg.add_node(());
    }
    for p in pairs.iter() {
        pg.add_edge(
            petgraph::graph::NodeIndex::new(p.0),
            petgraph::graph::NodeIndex::new(p.1),
            (),
        );
    }
    petgraph::algo::is_cyclic_undirected(&pg)
}

/// Decides whether the graph qualifies for trail construction: true
/// exactly when the edges contain a cycle and the odd-degree vertex count
/// is zero or two.  Containing a cycle stands in for connectivity here; a
/// disconnected graph of two cycles passes it, and an acyclic path does
/// not.
pub fn has_eulerian_trail(g: &Graph) -> (r: bool)
    requires
        g.wf(),
    ensures
        r == euler_feasible(g@),
{
    let pairs = live_edge_pairs(g);
    proof {
        lemma_live_pairs_bounds(g@.edges, g@.labels.len() as int, g@.edges.len() as int);
        assert(g@.labels.len() <= CAPACITY);
    }
    let cyc = pairs_contain_cycle(g.vertex_count(), &pairs);
    let odd = count_odd_degree(g);
    cyc && (odd == 0 || odd == 2)
}

} // verus!
