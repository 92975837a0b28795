//! The Fleury trail builder, in its first-available variant.
//!
//! The builder walks over an independent mutable copy of the graph.  It
//! starts at the lower-degree odd vertex when exactly two vertices have
//! odd degree, and at the first vertex otherwise.  Each step takes the
//! first remaining edge at the current vertex — without testing whether
//! that edge is a bridge — removes it from the working copy, records the
//! pair of vertex labels it walked over, and moves on.  The walk stops
//! when the current vertex has no remaining edge; when the feasibility
//! precondition did not genuinely hold, edges elsewhere may survive and
//! the result is a silent partial trail.

use vstd::prelude::*;

use crate::analyzer::euler_feasible;
use crate::analyzer::count_odd_degree;
use crate::analyzer::has_eulerian_trail;
use crate::analyzer::is_lowest_odd;
use crate::analyzer::lemma_cyclic_has_vertex;
use crate::analyzer::lowest_odd_degree_vertex;
use crate::analyzer::odd_at;
use crate::analyzer::odd_count;
use crate::graph::Graph;
use crate::graph::GraphView;
use crate::graph::connecting_at;
use crate::graph::degree_contrib;
use crate::graph::degree_of;
use crate::graph::edge_connects;
use crate::graph::edge_touches;
use crate::graph::lemma_degree_upto_update;
use crate::graph::lemma_live_upto_update;
use crate::graph::lemma_neighbor_has_edge;
use crate::graph::lemma_no_neighbors_degree_zero;
use crate::graph::lemma_touching_edge_has_neighbor;
use crate::graph::live_count;
use crate::graph::neighbors_of;

verus! {

/// Where the builder starts: the lower-degree odd vertex when exactly two
/// vertices have odd degree, and the first vertex otherwise.
pub open spec fn is_start_vertex(gv: GraphView, s: usize) -> bool {
    if odd_count(gv) == 2 {
        is_lowest_odd(gv, s)
    } else {
        s == 0
    }
}

/// True when `vs` and `eids` describe a walk in the graph that repeats no
/// edge: each listed edge slot is live and joins the consecutive walk
/// vertices, and no slot is listed twice.
pub open spec fn walk_ok(gv: GraphView, eids: Seq<int>, vs: Seq<usize>) -> bool {
    &&& vs.len() == eids.len() + 1
    &&& forall|i: int| #![trigger vs[i]] 0 <= i < vs.len() ==> vs[i] < gv.labels.len()
    &&& forall|i: int| #![trigger eids[i]]
        0 <= i < eids.len() ==> 0 <= eids[i] < gv.edges.len() && gv.edges[eids[i]] is Some
            && edge_connects(gv.edges[eids[i]]->0, vs[i], vs[i + 1])
    &&& forall|i: int, j: int| #![trigger eids[i], eids[j]]
        0 <= i < j < eids.len() ==> eids[i] != eids[j]
}

/// True when the walk is maximal: every live edge incident to its final
/// vertex has already been consumed by the walk.
pub open spec fn walk_maximal(gv: GraphView, eids: Seq<int>, vs: Seq<usize>) -> bool {
    forall|j: int| #![trigger gv.edges[j]]
        0 <= j < gv.edges.len() && gv.edges[j] is Some && edge_touches(
            gv.edges[j]->0,
            vs[vs.len() - 1],
        ) ==> eids.contains(j)
}

/// Degree parity pins down how a maximal walk ends: a walk that returns
/// to its start consumed an even number of endpoints there, so the start
/// has even degree; a walk that ends elsewhere ends at an odd-degree
/// vertex.
pub open spec fn walk_end_parity(gv: GraphView, vs: Seq<usize>) -> bool {
    if vs[vs.len() - 1] == vs[0] {
        !odd_at(gv, vs[vs.len() - 1])
    } else {
        odd_at(gv, vs[vs.len() - 1])
    }
}

/// Everything the builder guarantees of the walk it takes.
pub open spec fn fleury_walk_ok(gv: GraphView, eids: Seq<int>, vs: Seq<usize>) -> bool {
    &&& walk_ok(gv, eids, vs)
    &&& walk_maximal(gv, eids, vs)
    &&& is_start_vertex(gv, vs[0])
    &&& walk_end_parity(gv, vs)
}

/// True when `r` lists the label pairs along the walk `vs`, one pair per
/// traversed edge, in traversal order.
pub open spec fn trail_of_walk(gv: GraphView, vs: Seq<usize>, r: Seq<(i32, i32)>) -> bool {
    &&& r.len() + 1 == vs.len()
    &&& forall|i: int| #![trigger r[i]]
        0 <= i < r.len() ==> r[i] == (gv.labels[vs[i] as int], gv.labels[vs[i + 1] as int])
}

/// True when `r` is the label-pair trace of some maximal no-repeat walk
/// from the start vertex.
pub open spec fn fleury_result_ok(gv: GraphView, r: Seq<(i32, i32)>) -> bool {
    exists|eids: Seq<int>, vs: Seq<usize>| #![trigger fleury_walk_ok(gv, eids, vs)]
        fleury_walk_ok(gv, eids, vs) && trail_of_walk(gv, vs, r)
}

/// The vertex the builder starts from: the lower-degree odd vertex when
/// exactly two vertices have odd degree, and the first vertex otherwise.
pub fn fleury_start_point(g: &Graph) -> (r: usize)
    requires
        g.wf(),
        g@.labels.len() > 0,
    ensures
        is_start_vertex(g@, r),
        r < g@.labels.len(),
{
    if count_odd_degree(g) == 2 {
        lowest_odd_degree_vertex(g)
    } else {
        0
    }
}

/// Builds a trail by the first-available variant of Fleury's algorithm,
/// on an independent working copy; the given graph is unchanged.  The
/// result is the label-pair trace of a maximal walk without repeated
/// edges from the start vertex, so the number of pairs equals the number
/// of edges removed from the working copy, at most the live edge count.
pub fn fleury_trail(g: &Graph) -> (r: Vec<(i32, i32)>)
    requires
        g.wf(),
        g@.labels.len() > 0,
    ensures
        fleury_result_ok(g@, r@),
        r@.len() <= live_count(g@.edges),
{
    let s = fleury_start_point(g);
    let mut work = g.duplicate();
    let mut a = s;
    let mut trail: Vec<(i32, i32)> = Vec::new();
    let ghost mut eids: Seq<int> = Seq::empty();
    let ghost mut vs: Seq<usize> = seq![s];
    loop
        invariant
            g.wf(),
            work.wf(),
            g@.labels.len() > 0,
            work@.labels == g@.labels,
            work@.edges.len() == g@.edges.len(),
            forall|j: int| #![trigger work@.edges[j]]
                0 <= j < work@.edges.len() && work@.edges[j] is Some ==> work@.edges[j]
                    == g@.edges[j],
            forall|j: int| #![trigger g@.edges[j]]
                0 <= j < g@.edges.len() ==> ((g@.edges[j] is Some && work@.edges[j] is None)
                    <==> eids.contains(j)),
            a < g@.labels.len(),
            s < g@.labels.len(),
            is_start_vertex(g@, s),
            walk_ok(g@, eids, vs),
            vs[0] == s,
            vs[vs.len() - 1] == a,
            trail_of_walk(g@, vs, trail@),
            trail@.len() == eids.len(),
            live_count(work@.edges) + eids.len() == live_count(g@.edges),
            forall|v: usize| #![trigger degree_of(work@.edges, v)]
                v < g@.labels.len() ==> degree_of(work@.edges, v) as int % 2 == (degree_of(
                    g@.edges,
                    v,
                ) as int + (if v == s {
                    1int
                } else {
                    0int
                }) + (if v == a {
                    1int
                } else {
                    0int
                })) % 2,
        ensures
            work.wf(),
            neighbors_of(work@.edges, a).len() == 0,
            forall|j: int| #![trigger work@.edges[j]]
                0 <= j < work@.edges.len() && work@.edges[j] is Some ==> work@.edges[j]
                    == g@.edges[j],
            forall|j: int| #![trigger g@.edges[j]]
                0 <= j < g@.edges.len() ==> ((g@.edges[j] is Some && work@.edges[j] is None)
                    <==> eids.contains(j)),
            work@.edges.len() == g@.edges.len(),
            walk_ok(g@, eids, vs),
            vs[0] == s,
            vs[vs.len() - 1] == a,
            a < g@.labels.len(),
            trail_of_walk(g@, vs, trail@),
            trail@.len() == eids.len(),
            live_count(work@.edges) + eids.len() == live_count(g@.edges),
            forall|v: usize| #![trigger degree_of(work@.edges, v)]
                v < g@.labels.len() ==> degree_of(work@.edges, v) as int % 2 == (degree_of(
                    g@.edges,
                    v,
                ) as int + (if v == s {
                    1int
                } else {
                    0int
                }) + (if v == a {
                    1int
                } else {
                    0int
                })) % 2,
        decreases live_count(work@.edges),
    {
        let nbrs = work.neighbors(a);
        if nbrs.len() == 0 {
            break;
        }
        let b = nbrs[0];
        proof {
            lemma_neighbor_has_edge(work@.edges, a, work@.edges.len() as int, 0);
            let j = choose|j: int|
                0 <= j < work@.edges.len() && #[trigger] connecting_at(work@.edges, j, a, b);
            assert(work@.edges[j] is Some);
            assert(b < g@.labels.len());
        }
        let eid_opt = work.find_edge(a, b);
        proof {
            assert(eid_opt is Some) by {
                if eid_opt is None {
                    let j = choose|j: int|
                        0 <= j < work@.edges.len() && #[trigger] connecting_at(
                            work@.edges,
                            j,
                            a,
                            b,
                        );
                    assert(!connecting_at(work@.edges, j, a, b));
                }
            }
        }
        let eid = eid_opt.unwrap();
        let la = work.vertex_label(a);
        let lb = work.vertex_label(b);
        let ghost pre = work@;
        let removed = work.remove_edge(eid);
        proof {
            assert(removed is Ok);
            lemma_live_upto_update(pre.edges, eid as int, pre.edges.len() as int);
            let ghost old_eids = eids;
            let ghost old_vs = vs;
            eids = eids.push(eid as int);
            vs = vs.push(b);
            // the new edge was live in the working copy, so it is an edge
            // of the original graph and was not consumed before
            assert(pre.edges[eid as int] == g@.edges[eid as int]);
            assert(!old_eids.contains(eid as int));
            // the consumed set keeps step with the walk
            assert forall|j: int| 0 <= j < g@.edges.len() implies ((g@.edges[j] is Some
                && work@.edges[j] is None) <==> eids.contains(j)) by {
                if j == eid as int {
                    assert(eids[eids.len() - 1] == eid as int);
                    assert(eids.contains(j));
                } else {
                    if eids.contains(j) {
                        let k = choose|k: int| 0 <= k < eids.len() && eids[k] == j;
                        assert(old_eids[k] == j);
                        assert(old_eids.contains(j));
                    }
                    if old_eids.contains(j) {
                        let k = choose|k: int| 0 <= k < old_eids.len() && old_eids[k] == j;
                        assert(eids[k] == j);
                        assert(eids.contains(j));
                    }
                }
            }
            // the walk is extended by one live edge of the original graph
            assert(walk_ok(g@, eids, vs)) by {
                assert(edge_connects(g@.edges[eid as int]->0, a, b));
                assert(forall|i: int| 0 <= i < old_vs.len() ==> vs[i] == #[trigger] old_vs[i]);
                assert(forall|i: int|
                    0 <= i < old_eids.len() ==> eids[i] == #[trigger] old_eids[i]);
                assert(vs[vs.len() - 2] == a && vs[vs.len() - 1] == b);
            }
            // degree parity: consuming the edge moves the cursor term
            assert forall|v: usize| v < g@.labels.len() implies degree_of(
                work@.edges,
                v,
            ) as int % 2 == (degree_of(g@.edges, v) as int + (if v == s {
                1int
            } else {
                0int
            }) + (if v == b {
                1int
            } else {
                0int
            })) % 2 by {
                lemma_degree_upto_update(pre.edges, v, eid as int, pre.edges.len() as int);
                assert(degree_of(pre.edges, v) as int % 2 == (degree_of(g@.edges, v) as int + (
                if v == s {
                    1int
                } else {
                    0int
                }) + (if v == a {
                    1int
                } else {
                    0int
                })) % 2);
                assert(degree_of(pre.edges, v) == degree_of(work@.edges, v) + degree_contrib(
                    pre.edges[eid as int],
                    v,
                ));
                assert(degree_contrib(pre.edges[eid as int], v) == (if v == a {
                    1nat
                } else {
                    0nat
                }) + (if v == b {
                    1nat
                } else {
                    0nat
                }));
            }
        }
        trail.push((la, lb));
        proof {
            assert(trail_of_walk(g@, vs, trail@));
        }
        a = b;
    }
    proof {
        lemma_no_neighbors_degree_zero(work@.edges, a, work@.edges.len() as int);
        // maximality: a live original edge at the final vertex would have
        // survived in the working copy and shown up as a neighbor
        assert forall|j: int|
            0 <= j < g@.edges.len() && (#[trigger] g@.edges[j]) is Some && edge_touches(
                g@.edges[j]->0,
                vs[vs.len() - 1],
            ) implies eids.contains(j) by {
            if work@.edges[j] is Some {
                lemma_touching_edge_has_neighbor(work@.edges, a, work@.edges.len() as int, j);
            }
        }
        assert(walk_maximal(g@, eids, vs));
        // the walk ends on a vertex whose remaining degree is zero, and
        // parity turns that into the endpoint rule
        assert(degree_of(work@.edges, a) == 0);
        assert(walk_end_parity(g@, vs));
        assert(fleury_walk_ok(g@, eids, vs));
        assert(trail_of_walk(g@, vs, trail@));
    }
    trail
}

/// The feasibility gate: when the verdict is positive the trail is built
/// from a fresh working copy and returned; otherwise the builder is never
/// invoked and no pairs are produced.
pub fn apply_fleury(g: &Graph) -> (r: Option<Vec<(i32, i32)>>)
    requires
        g.wf(),
    ensures
        r is Some <==> euler_feasible(g@),
        r is Some ==> fleury_result_ok(g@, r->0@) && r->0@.len() <= live_count(g@.edges),
{
    if has_eulerian_trail(g) {
        proof {
            lemma_cyclic_has_vertex(g@);
        }
        Some(fleury_trail(g))
    } else {
        None
    }
}

} // verus!
