//! True connectivity of the non-isolated vertices.
//!
//! `is_connected` answers whether every vertex of positive degree can
//! reach every other such vertex along live edges; zero-degree vertices
//! are ignored.  The trail feasibility policy does not call it — it uses
//! the contains-a-cycle proxy instead — but it lets a caller tell the two
//! criteria apart on graphs such as a disconnected pair of cycles.

use vstd::prelude::*;

use crate::graph::EdgeView;
use crate::graph::Graph;
use crate::graph::GraphView;
use crate::graph::connecting_at;
use crate::graph::degree_of;
use crate::graph::edge_touches;
use crate::graph::lemma_neighbor_has_edge;
use crate::graph::neighbors_of;
use crate::graph::neighbors_upto;

verus! {

/// The endpoint of the edge opposite to `a`; for a self-loop at `a`, `a`
/// itself.
pub open spec fn other_endpoint(e: EdgeView, a: usize) -> usize {
    if e.u == a {
        e.v
    } else {
        e.u
    }
}

/// Some live edge joins `a` and `b` directly.
pub open spec fn step_ok(edges: Seq<Option<EdgeView>>, a: usize, b: usize) -> bool {
    exists|j: int| 0 <= j < edges.len() && #[trigger] connecting_at(edges, j, a, b)
}

/// `vs` walks from its first to its last vertex along live edges.
pub open spec fn path_ok(edges: Seq<Option<EdgeView>>, vs: Seq<usize>) -> bool {
    &&& vs.len() >= 1
    &&& forall|i: int| #![trigger vs[i]] 0 <= i < vs.len() - 1 ==> step_ok(edges, vs[i], vs[i + 1])
}

/// Vertex `b` can be reached from `a` along live edges.
pub open spec fn reachable(edges: Seq<Option<EdgeView>>, a: usize, b: usize) -> bool {
    exists|vs: Seq<usize>| #![trigger path_ok(edges, vs)]
        path_ok(edges, vs) && vs[0] == a && vs[vs.len() - 1] == b
}

/// Connectivity in the Eulerian sense: every vertex of positive degree
/// reaches every other such vertex; isolated vertices do not count.
pub open spec fn euler_connected(gv: GraphView) -> bool {
    forall|a: usize, b: usize| #![trigger degree_of(gv.edges, a), degree_of(gv.edges, b)]
        a < gv.labels.len() && b < gv.labels.len() && degree_of(gv.edges, a) > 0 && degree_of(
            gv.edges,
            b,
        ) > 0 ==> reachable(gv.edges, a, b)
}

/// All neighbor entries of `v` are marked in `vis`.
pub open spec fn nbrs_done(gv: GraphView, vis: Seq<bool>, v: usize) -> bool {
    forall|k: int| #![trigger neighbors_of(gv.edges, v)[k]]
        0 <= k < neighbors_of(gv.edges, v).len() ==> neighbors_of(gv.edges, v)[k] < vis.len()
            && vis[neighbors_of(gv.edges, v)[k] as int]
}

/// A live edge at `a` puts its opposite endpoint among the neighbor
/// entries of `a`.
pub proof fn lemma_edge_neighbor_entry(edges: Seq<Option<EdgeView>>, a: usize, n: int, j: int)
    requires
        0 <= j < n <= edges.len(),
        edges[j] is Some,
        edge_touches(edges[j]->0, a),
    ensures
        neighbors_upto(edges, a, n).contains(other_endpoint(edges[j]->0, a)),
    decreases n,
{
    let w = other_endpoint(edges[j]->0, a);
    if j < n - 1 {
        lemma_edge_neighbor_entry(edges, a, n - 1, j);
        let k = choose|k: int|
            0 <= k < neighbors_upto(edges, a, n - 1).len() && #[trigger] neighbors_upto(
                edges,
                a,
                n - 1,
            )[k] == w;
        assert(neighbors_upto(edges, a, n)[k] == w);
        assert(neighbors_upto(edges, a, n).contains(w));
    } else {
        let m = neighbors_upto(edges, a, n - 1).len() as int;
        assert(neighbors_upto(edges, a, n)[m] == w);
        assert(neighbors_upto(edges, a, n).contains(w));
    }
}

/// Reachability is reflexive.
pub proof fn lemma_reach_refl(edges: Seq<Option<EdgeView>>, a: usize)
    ensures
        reachable(edges, a, a),
{
    let vs = seq![a];
    assert(path_ok(edges, vs));
    assert(vs[0] == a && vs[vs.len() - 1] == a);
}

/// A reachable vertex stays reachable after one more step.
pub proof fn lemma_reach_extend(edges: Seq<Option<EdgeView>>, s: usize, a: usize, b: usize)
    requires
        reachable(edges, s, a),
        step_ok(edges, a, b),
    ensures
        reachable(edges, s, b),
{
    let vs = choose|vs: Seq<usize>|
        #[trigger] path_ok(edges, vs) && vs[0] == s && vs[vs.len() - 1] == a;
    let vs2 = vs.push(b);
    assert forall|i: int| #![trigger vs2[i]] 0 <= i < vs2.len() - 1 implies step_ok(edges, vs2[i], vs2[i + 1]) by {
        if i < vs.len() - 1 {
            assert(vs2[i] == vs[i] && vs2[i + 1] == vs[i + 1]);
            assert(step_ok(edges, vs[i], vs[i + 1]));
        } else {
            assert(vs2[i] == a && vs2[i + 1] == b);
        }
    }
    assert(path_ok(edges, vs2));
    assert(vs2[0] == s && vs2[vs2.len() - 1] == b);
}

/// Reachability is symmetric, since every edge can be walked both ways.
pub proof fn lemma_reach_sym(edges: Seq<Option<EdgeView>>, a: usize, b: usize)
    requires
        reachable(edges, a, b),
    ensures
        reachable(edges, b, a),
{
    let vs = choose|vs: Seq<usize>|
        #[trigger] path_ok(edges, vs) && vs[0] == a && vs[vs.len() - 1] == b;
    let n = vs.len() as int;
    let rs = Seq::new(vs.len(), |i: int| vs[n - 1 - i]);
    assert forall|i: int| #![trigger rs[i]] 0 <= i < rs.len() - 1 implies step_ok(edges, rs[i], rs[i + 1]) by {
        assert(rs[i] == vs[n - 1 - i] && rs[i + 1] == vs[n - 2 - i]);
        assert(step_ok(edges, vs[n - 2 - i], vs[n - 1 - i]));
        let j = choose|j: int|
            0 <= j < edges.len() && #[trigger] connecting_at(edges, j, vs[n - 2 - i], vs[n - 1
                - i]);
        assert(connecting_at(edges, j, rs[i], rs[i + 1]));
    }
    assert(path_ok(edges, rs));
    assert(rs[0] == b && rs[rs.len() - 1] == a);
}

/// Reachability is transitive: the two walks compose.
pub proof fn lemma_reach_trans(edges: Seq<Option<EdgeView>>, a: usize, b: usize, c: usize)
    requires
        reachable(edges, a, b),
        reachable(edges, b, c),
    ensures
        reachable(edges, a, c),
{
    let vs1 = choose|vs: Seq<usize>|
        #[trigger] path_ok(edges, vs) && vs[0] == a && vs[vs.len() - 1] == b;
    let vs2 = choose|vs: Seq<usize>|
        #[trigger] path_ok(edges, vs) && vs[0] == b && vs[vs.len() - 1] == c;
    let vs = vs1 + vs2.subrange(1, vs2.len() as int);
    assert forall|i: int| #![trigger vs[i]] 0 <= i < vs.len() - 1 implies step_ok(edges, vs[i], vs[i + 1]) by {
        if i < vs1.len() - 1 {
            assert(vs[i] == vs1[i] && vs[i + 1] == vs1[i + 1]);
            assert(step_ok(edges, vs1[i], vs1[i + 1]));
        } else if i == vs1.len() - 1 {
            assert(vs[i] == vs1[i] && vs1[i] == b);
            assert(vs[i + 1] == vs2[1]);
            assert(step_ok(edges, vs2[0], vs2[1]));
        } else {
            let t = i - vs1.len() + 1;
            assert(vs[i] == vs2[t] && vs[i + 1] == vs2[t + 1]);
            assert(step_ok(edges, vs2[t], vs2[t + 1]));
        }
    }
    assert(path_ok(edges, vs));
    assert(vs[0] == a && vs[vs.len() - 1] == c);
}

/// A set of marks that holds the first vertex of a walk and is closed
/// under single steps holds the walk's last vertex too.
pub proof fn lemma_closed_path(edges: Seq<Option<EdgeView>>, vis: Seq<bool>, vs: Seq<usize>)
    requires
        path_ok(edges, vs),
        vs[0] < vis.len(),
        vis[vs[0] as int],
        forall|x: usize, y: usize| #![trigger step_ok(edges, x, y)]
            x < vis.len() && vis[x as int] && step_ok(edges, x, y) ==> y < vis.len() && vis[y as int],
    ensures
        vs[vs.len() - 1] < vis.len(),
        vis[vs[vs.len() - 1] as int],
    decreases vs.len(),
{
    if vs.len() > 1 {
        let prefix = vs.drop_last();
        assert(path_ok(edges, prefix)) by {
            assert forall|i: int| #![trigger prefix[i]] 0 <= i < prefix.len() - 1 implies step_ok(
                edges,
                prefix[i],
                prefix[i + 1],
            ) by {
                assert(prefix[i] == vs[i] && prefix[i + 1] == vs[i + 1]);
                assert(step_ok(edges, vs[i], vs[i + 1]));
            }
        }
        lemma_closed_path(edges, vis, prefix);
        assert(step_ok(edges, vs[vs.len() - 2], vs[vs.len() - 1]));
    }
}

/// Number of unmarked entries among the first `n`.
pub open spec fn unmarked_upto(vis: Seq<bool>, n: int) -> nat
    decreases n,
{
    if n <= 0 {
        0
    } else {
        unmarked_upto(vis, n - 1) + if vis[n - 1] {
            0nat
        } else {
            1nat
        }
    }
}

/// Marking one unmarked entry lowers the unmarked count of any prefix
/// that contains it by one.
pub proof fn lemma_unmarked_update(vis: Seq<bool>, w: int, n: int)
    requires
        0 <= w < vis.len(),
        !vis[w],
        n <= vis.len(),
    ensures
        unmarked_upto(vis, n) == unmarked_upto(vis.update(w, true), n) + if w < n {
            1nat
        } else {
            0nat
        },
    decreases n,
{
    if n > 0 {
        lemma_unmarked_update(vis, w, n - 1);
    }
}


impl Graph {
    /// True exactly when every vertex with positive degree is reachable
    /// from every other such vertex; isolated vertices are ignored.
    /// Reading it does not change the graph.
    pub fn is_connected(&self) -> (r: bool)
        requires
            self.wf(),
        ensures
            r == euler_connected(self@),
    {
        let n = self.vertex_count();
        let mut start: usize = 0;
        let mut have_start = false;
        let mut v: usize = 0;
        while v < n
            invariant
                self.wf(),
                n == self@.labels.len(),
                v <= n,
                !have_start ==> forall|w: usize|
                    w < v ==> #[trigger] degree_of(self@.edges, w) == 0,
                have_start ==> start < n && degree_of(self@.edges, start) > 0,
            decreases n - v,
        {
            if !have_start && self.degree(v) > 0 {
                start = v;
                have_start = true;
            }
            v = v + 1;
        }
        if !have_start {
            // no vertex carries an edge endpoint, so the condition holds
            // vacuously
            return true;
        }
        let mut visited: Vec<bool> = Vec::new();
        let mut i: usize = 0;
        while i < n
            invariant
                i <= n,
                visited@.len() == i,
                forall|k: int| 0 <= k < i ==> !(#[trigger] visited@[k]),
            decreases n - i,
        {
            visited.push(false);
            i = i + 1;
        }
        let mut stack: Vec<usize> = Vec::new();
        visited[start] = true;
        stack.push(start);
        proof {
            lemma_reach_refl(self@.edges, start);
            assert(stack@[0] == start);
            assert(stack@.contains(start));
            assert forall|w: usize|
                w < n && visited@[w as int] && !stack@.contains(w) implies nbrs_done(
                self@,
                visited@,
                w,
            ) by {
                assert(w == start);
                assert(false);
            }
        }
        loop
            invariant
                self.wf(),
                n == self@.labels.len(),
                visited@.len() == n,
                start < n,
                degree_of(self@.edges, start) > 0,
                visited@[start as int],
                forall|t: int| #![trigger stack@[t]]
                    0 <= t < stack@.len() ==> stack@[t] < n && visited@[stack@[t] as int],
                forall|w: usize| #![trigger visited@[w as int]]
                    w < n && visited@[w as int] ==> reachable(self@.edges, start, w),
                forall|w: usize| #![trigger nbrs_done(self@, visited@, w)]
                    w < n && visited@[w as int] && !stack@.contains(w) ==> nbrs_done(
                        self@,
                        visited@,
                        w,
                    ),
            ensures
                self.wf(),
                n == self@.labels.len(),
                visited@.len() == n,
                start < n,
                degree_of(self@.edges, start) > 0,
                visited@[start as int],
                stack@.len() == 0,
                forall|w: usize| #![trigger visited@[w as int]]
                    w < n && visited@[w as int] ==> reachable(self@.edges, start, w),
                forall|w: usize| #![trigger nbrs_done(self@, visited@, w)]
                    w < n && visited@[w as int] ==> nbrs_done(self@, visited@, w),
            decreases unmarked_upto(visited@, n as int), stack@.len(),
        {
            let ghost st_pre = stack@;
            let a = match stack.pop() {
                Some(a) => a,
                None => {
                    break ;
                }
            };
            let ghost st0 = stack@;
            let ghost vis0 = visited@;
            proof {
                assert forall|w: usize|
                    w < n && visited@[w as int] && !stack@.contains(w) && w != a implies nbrs_done(
                    self@,
                    visited@,
                    w,
                ) by {
                    if st_pre.contains(w) {
                        let k = choose|k: int| 0 <= k < st_pre.len() && #[trigger] st_pre[k] == w;
                        if k < st_pre.len() - 1 {
                            assert(stack@[k] == w);
                            assert(stack@.contains(w));
                        }
                    }
                }
            }
            let nbrs = self.neighbors(a);
            let mut t: usize = 0;
            while t < nbrs.len()
                invariant
                    self.wf(),
                    n == self@.labels.len(),
                    visited@.len() == n,
                    start < n,
                    visited@[start as int],
                    a < n,
                    visited@[a as int],
                    nbrs@ == neighbors_of(self@.edges, a),
                    t <= nbrs@.len(),
                    forall|k: int| #![trigger nbrs@[k]]
                        0 <= k < t ==> nbrs@[k] < n && visited@[nbrs@[k] as int],
                    forall|k: int| #![trigger stack@[k]]
                        0 <= k < stack@.len() ==> stack@[k] < n && visited@[stack@[k] as int],
                    forall|w: usize| #![trigger visited@[w as int]]
                        w < n && visited@[w as int] ==> reachable(self@.edges, start, w),
                    forall|w: usize| #![trigger nbrs_done(self@, visited@, w)]
                        w < n && visited@[w as int] && !stack@.contains(w) && w != a
                            ==> nbrs_done(self@, visited@, w),
                    (visited@ == vis0 && stack@ == st0) || unmarked_upto(visited@, n as int)
                        < unmarked_upto(vis0, n as int),
                decreases nbrs@.len() - t,
            {
                let b = nbrs[t];
                proof {
                    lemma_neighbor_has_edge(self@.edges, a, self@.edges.len() as int, t as int);
                    let j = choose|j: int|
                        0 <= j < self@.edges.len() && #[trigger] connecting_at(
                            self@.edges,
                            j,
                            a,
                            b,
                        );
                    assert(b < n);
                    assert(step_ok(self@.edges, a, b));
                }
                if !visited[b] {
                    let ghost vis_before = visited@;
                    let ghost stack_before = stack@;
                    visited[b] = true;
                    stack.push(b);
                    proof {
                        lemma_unmarked_update(vis_before, b as int, n as int);
                        lemma_reach_extend(self@.edges, start, a, b);
                        assert(stack@[stack@.len() - 1] == b);
                        assert(stack@.contains(b));
                        assert forall|w: usize|
                            w < n && visited@[w as int] && !stack@.contains(w) && w
                                != a implies nbrs_done(self@, visited@, w) by {
                            assert(w != b);
                            assert(vis_before[w as int]);
                            if stack_before.contains(w) {
                                let k = choose|k: int|
                                    0 <= k < stack_before.len() && #[trigger] stack_before[k]
                                        == w;
                                assert(stack@[k] == w);
                                assert(stack@.contains(w));
                            }
                            assert(nbrs_done(self@, vis_before, w));
                            assert forall|k: int|
                                0 <= k < neighbors_of(self@.edges, w).len() implies (
                            #[trigger] neighbors_of(self@.edges, w)[k]) < visited@.len()
                                && visited@[neighbors_of(self@.edges, w)[k] as int] by {
                                assert(vis_before[neighbors_of(self@.edges, w)[k] as int]);
                            }
                        }
                    }
                }
                t = t + 1;
            }
            proof {
                assert(nbrs_done(self@, visited@, a));
                assert forall|w: usize|
                    w < n && visited@[w as int] && !stack@.contains(w) implies nbrs_done(
                    self@,
                    visited@,
                    w,
                ) by {
                    if w != a {
                        assert(nbrs_done(self@, visited@, w));
                    }
                }
            }
        }
        // every marked vertex has all of its neighbor entries marked, so
        // the marked set is closed under single steps
        proof {
            assert forall|x: usize, y: usize|
                x < visited@.len() && visited@[x as int] && #[trigger] step_ok(
                    self@.edges,
                    x,
                    y,
                ) implies y < visited@.len() && visited@[y as int] by {
                let j = choose|j: int|
                    0 <= j < self@.edges.len() && #[trigger] connecting_at(self@.edges, j, x, y);
                lemma_edge_neighbor_entry(self@.edges, x, self@.edges.len() as int, j);
                let w = other_endpoint(self@.edges[j]->0, x);
                let k = choose|k: int|
                    0 <= k < neighbors_of(self@.edges, x).len() && #[trigger] neighbors_of(
                        self@.edges,
                        x,
                    )[k] == w;
                assert(nbrs_done(self@, visited@, x));
                assert(w < visited@.len() && visited@[w as int]);
                if y != w {
                    assert(y == x);
                }
            }
        }
        let mut ok = true;
        let ghost mut bad: usize = 0;
        let mut v2: usize = 0;
        while v2 < n
            invariant
                self.wf(),
                n == self@.labels.len(),
                visited@.len() == n,
                start < n,
                degree_of(self@.edges, start) > 0,
                visited@[start as int],
                v2 <= n,
                forall|w: usize| #![trigger visited@[w as int]]
                    w < n && visited@[w as int] ==> reachable(self@.edges, start, w),
                forall|x: usize, y: usize| #![trigger step_ok(self@.edges, x, y)]
                    x < visited@.len() && visited@[x as int] && step_ok(self@.edges, x, y)
                        ==> y < visited@.len() && visited@[y as int],
                ok ==> forall|w: usize|
                    w < v2 ==> #[trigger] degree_of(self@.edges, w) == 0 || visited@[w as int],
                !ok ==> bad < n && degree_of(self@.edges, bad) > 0 && !visited@[bad as int],
            decreases n - v2,
        {
            if self.degree(v2) > 0 && !visited[v2] {
                ok = false;
                proof {
                    bad = v2;
                }
            }
            v2 = v2 + 1;
        }
        proof {
            if ok {
                assert forall|a: usize, b: usize|
                    a < self@.labels.len() && b < self@.labels.len() && #[trigger] degree_of(
                        self@.edges,
                        a,
                    ) > 0 && #[trigger] degree_of(self@.edges, b) > 0 implies reachable(
                    self@.edges,
                    a,
                    b,
                ) by {
                    assert(visited@[a as int] && visited@[b as int]);
                    assert(reachable(self@.edges, start, a));
                    assert(reachable(self@.edges, start, b));
                    lemma_reach_sym(self@.edges, start, a);
                    lemma_reach_trans(self@.edges, a, start, b);
                }
            } else {
                assert(!reachable(self@.edges, start, bad)) by {
                    if reachable(self@.edges, start, bad) {
                        let vs = choose|vs: Seq<usize>|
                            #[trigger] path_ok(self@.edges, vs) && vs[0] == start && vs[vs.len()
                                - 1] == bad;
                        lemma_closed_path(self@.edges, visited@, vs);
                    }
                }
                assert(degree_of(self@.edges, start) > 0 && degree_of(self@.edges, bad) > 0);
                assert(!euler_connected(self@));
            }
        }
        ok
    }
}

} // verus!
