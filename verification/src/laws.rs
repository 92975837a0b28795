//! Statements that tie the analyzer and the builder together.
//!
//! Each proof function here is a promise over every graph, not over one
//! example: the feasibility verdict for the two parity classes the policy
//! accepts, the rejection of every other parity class, and how a built
//! trail must start and end.

use vstd::prelude::*;

use crate::analyzer::cyclic;
use crate::analyzer::euler_feasible;
use crate::analyzer::is_lowest_odd;
use crate::analyzer::lemma_all_even_no_odd;
use crate::analyzer::odd_at;
use crate::analyzer::odd_count;
use crate::fleury::fleury_walk_ok;
use crate::fleury::fleury_result_ok;
use crate::fleury::trail_of_walk;
use crate::graph::GraphView;
use crate::graph::degree_of;
use crate::graph::edge_touches;
use crate::graph::lemma_degree_pos_has_edge;
use crate::graph::live_pairs;
use crate::graph::view_wf;

verus! {

/// A graph with all-even degrees whose edges contain a cycle passes the
/// feasibility test; and any nonempty trail the builder produces for it
/// closes: the second label of its last pair is the first label of its
/// first pair.  (The trail need not consume every edge: on a graph that
/// is cyclic but disconnected the walk stops once its own component is
/// exhausted.)
pub proof fn lemma_even_cyclic_circuit(gv: GraphView, r: Seq<(i32, i32)>)
    requires
        view_wf(gv),
        forall|v: usize| v < gv.labels.len() ==> !(#[trigger] odd_at(gv, v)),
        cyclic(live_pairs(gv.edges)),
    ensures
        euler_feasible(gv),
        fleury_result_ok(gv, r) && r.len() > 0 ==> r[r.len() - 1].1 == r[0].0,
{
    lemma_all_even_no_odd(gv, gv.labels.len() as int);
    if fleury_result_ok(gv, r) && r.len() > 0 {
        let (eids, vs): (Seq<int>, Seq<usize>) = choose|eids: Seq<int>, vs: Seq<usize>|
            #[trigger] fleury_walk_ok(gv, eids, vs) && trail_of_walk(gv, vs, r);
        assert(vs[vs.len() - 1] < gv.labels.len());
        assert(!odd_at(gv, vs[vs.len() - 1]));
        assert(vs[vs.len() - 1] == vs[0]);
        assert(r[r.len() - 1] == (
            gv.labels[vs[r.len() - 1] as int],
            gv.labels[vs[r.len() as int] as int],
        ));
        assert(r[0] == (gv.labels[vs[0] as int], gv.labels[vs[1] as int]));
    }
}

/// A graph with exactly two odd-degree vertices whose edges contain a
/// cycle passes the feasibility test; and every trail the builder
/// produces for it is nonempty, starts at the label of the lower-degree
/// odd vertex, and ends at the label of an odd vertex different from it —
/// with only two odd vertices, the other one.
pub proof fn lemma_two_odd_cyclic_trail(gv: GraphView, r: Seq<(i32, i32)>)
    requires
        view_wf(gv),
        odd_count(gv) == 2,
        cyclic(live_pairs(gv.edges)),
        fleury_result_ok(gv, r),
    ensures
        euler_feasible(gv),
        r.len() > 0,
        exists|s: usize, e: usize| #![trigger is_lowest_odd(gv, s), odd_at(gv, e)]
            is_lowest_odd(gv, s) && odd_at(gv, e) && e != s && r[0].0 == gv.labels[s as int]
                && r[r.len() - 1].1 == gv.labels[e as int],
{
    let (eids, vs): (Seq<int>, Seq<usize>) = choose|eids: Seq<int>, vs: Seq<usize>|
        #[trigger] fleury_walk_ok(gv, eids, vs) && trail_of_walk(gv, vs, r);
    let s = vs[0];
    assert(is_lowest_odd(gv, s));
    assert(odd_at(gv, s));
    assert(degree_of(gv.edges, s) > 0);
    if eids.len() == 0 {
        lemma_degree_pos_has_edge(gv.edges, s, gv.edges.len() as int);
        let j = choose|j: int|
            0 <= j < gv.edges.len() && (#[trigger] gv.edges[j]) is Some && edge_touches(
                gv.edges[j]->0,
                s,
            );
        assert(eids.contains(j));
        assert(false);
    }
    let e = vs[vs.len() - 1];
    assert(e != s && odd_at(gv, e));
    assert(r[0].0 == gv.labels[s as int]);
    assert(r[r.len() - 1].1 == gv.labels[e as int]);
}

/// A graph whose odd-degree vertex count is neither zero nor two never
/// passes the feasibility test, whatever its shape; `apply_fleury` then
/// answers `None` and no trail construction takes place.
pub proof fn lemma_bad_parity_infeasible(gv: GraphView)
    requires
        odd_count(gv) != 0,
        odd_count(gv) != 2,
    ensures
        !euler_feasible(gv),
{
}

} // verus!
