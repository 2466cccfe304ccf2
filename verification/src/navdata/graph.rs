//! The navigation graph: a directed multigraph whose vertices are fixes
//! and navaids and whose edges are airway segments and hold self-loops,
//! with the airway-constrained traversal.

use vstd::prelude::*;
use vstd::string::*;

use crate::navdata::scan::str_eq;
use crate::navdata::{sp_wpt_match, NavEdge, NavEntry, ParsedNodeRef};

verus! {

/// One directed edge: two vertex indices and the payload.
#[derive(Debug, Clone)]
pub struct GraphEdge {
    pub source: usize,
    pub target: usize,
    pub weight: NavEdge,
}

/// A directed multigraph over vertex indices.
#[derive(Debug, Clone)]
pub struct DiGraph {
    pub nodes: Vec<NavEntry>,
    pub edges: Vec<GraphEdge>,
}

impl DiGraph {
    /// No edge dangles: every endpoint names a vertex.
    pub open spec fn wf(self) -> bool {
        forall|e: int|
            0 <= e < self.edges@.len() ==> (#[trigger] self.edges@[e]).source < self.nodes@.len()
                && self.edges@[e].target < self.nodes@.len()
    }

    pub fn new() -> (r: DiGraph)
        ensures
            r.wf(),
            r.nodes@.len() == 0,
            r.edges@.len() == 0,
    {
        DiGraph { nodes: Vec::new(), edges: Vec::new() }
    }

    /// Append a vertex; its index is returned.
    pub fn add_node(&mut self, n: NavEntry) -> (r: usize)
        requires
            old(self).wf(),
        ensures
            final(self).wf(),
            final(self).nodes@ == old(self).nodes@.push(n),
            final(self).edges@ == old(self).edges@,
            r == old(self).nodes@.len(),
    {
        let r = self.nodes.len();
        self.nodes.push(n);
        r
    }

    /// Append a directed edge between two existing vertices.
    pub fn add_edge(&mut self, source: usize, target: usize, weight: NavEdge)
        requires
            old(self).wf(),
            source < old(self).nodes@.len(),
            target < old(self).nodes@.len(),
        ensures
            final(self).wf(),
            final(self).nodes@ == old(self).nodes@,
            final(self).edges@ == old(self).edges@.push(
                GraphEdge { source, target, weight },
            ),
    {
        self.edges.push(GraphEdge { source, target, weight });
    }

    /// The number of vertices.
    pub fn node_count(&self) -> (r: usize)
        ensures
            r == self.nodes@.len(),
    {
        self.nodes.len()
    }
}

/// Whether some edge is incident to `a` — leaving it or entering it —
/// along the airway `awy`.
pub open spec fn sp_has_awy_incident(g: DiGraph, awy: Seq<char>, a: int) -> bool {
    exists|e: int|
        0 <= e < g.edges@.len() && ((#[trigger] g.edges@[e]).source == a || g.edges@[e].target
            == a) && sp_edge_awy_name(g.edges@[e].weight) == Some(awy)
}

/// The airway name an edge payload carries, if it is an airway edge.
pub open spec fn sp_edge_awy_name(w: NavEdge) -> Option<Seq<char>> {
    match w {
        NavEdge::Airway(ae) => Some(ae.name@),
        NavEdge::Hold(_) => None,
    }
}

/// Whether the graph holds a directed edge from `a` to `b` labelled with
/// the airway `awy`.
pub open spec fn sp_awy_edge(g: DiGraph, awy: Seq<char>, a: int, b: int) -> bool {
    exists|e: int|
        0 <= e < g.edges@.len() && (#[trigger] g.edges@[e]).source == a && g.edges@[e].target == b
            && sp_edge_awy_name(g.edges@[e].weight) == Some(awy)
}

/// A path along `awy`-labelled edges: nonempty, through valid vertices,
/// each consecutive pair joined by such an edge.
pub open spec fn sp_awy_path(g: DiGraph, awy: Seq<char>, p: Seq<int>) -> bool {
    &&& p.len() >= 1
    &&& forall|k: int| 0 <= k < p.len() ==> 0 <= #[trigger] p[k] < g.nodes@.len()
    &&& forall|k: int| 0 <= k < p.len() - 1 ==> sp_awy_edge(g, awy, #[trigger] p[k], p[k + 1])
}

/// Whether `b` can be reached from `a` along `awy`-labelled edges (every
/// vertex reaches itself).
pub open spec fn sp_awy_reachable(g: DiGraph, awy: Seq<char>, a: int, b: int) -> bool {
    exists|p: Seq<int>| #[trigger] sp_awy_path(g, awy, p) && p.first() == a && p.last() == b
}

/// Whether `b` can be reached from `a` along at least one `awy`-labelled
/// edge: the trivial one-vertex path does not count, so a vertex reaches
/// itself only around a cycle.
pub open spec fn sp_awy_reachable_pos(g: DiGraph, awy: Seq<char>, a: int, b: int) -> bool {
    exists|p: Seq<int>|
        #[trigger] sp_awy_path(g, awy, p) && p.len() >= 2 && p.first() == a && p.last() == b
}

/// A positive-length walk is a walk.
pub proof fn lemma_pos_reachable_is_reachable(g: DiGraph, awy: Seq<char>, a: int, b: int)
    requires
        sp_awy_reachable_pos(g, awy, a, b),
    ensures
        sp_awy_reachable(g, awy, a, b),
{
    let p = choose|p: Seq<int>|
        #[trigger] sp_awy_path(g, awy, p) && p.len() >= 2 && p.first() == a && p.last() == b;
    assert(sp_awy_path(g, awy, p) && p.first() == a && p.last() == b);
}

/// A walk between two distinct vertices crosses at least one edge.
pub proof fn lemma_reachable_ne_pos(g: DiGraph, awy: Seq<char>, a: int, b: int)
    requires
        sp_awy_reachable(g, awy, a, b),
        a != b,
    ensures
        sp_awy_reachable_pos(g, awy, a, b),
{
    let p = choose|p: Seq<int>|
        #[trigger] sp_awy_path(g, awy, p) && p.first() == a && p.last() == b;
    assert(p.len() >= 2) by {
        if p.len() == 1 {
            assert(p.first() == p.last());
        }
    }
}

/// A vertex reaches itself over at least one edge exactly when some
/// labelled edge returns to it from a reachable vertex.
pub proof fn lemma_pos_cycle_char(g: DiGraph, awy: Seq<char>, a: int)
    requires
        0 <= a < g.nodes@.len(),
    ensures
        sp_awy_reachable_pos(g, awy, a, a) <==> exists|u: int|
            0 <= u < g.nodes@.len() && sp_awy_reachable(g, awy, a, u) && #[trigger] sp_awy_edge(
                g,
                awy,
                u,
                a,
            ),
{
    if sp_awy_reachable_pos(g, awy, a, a) {
        let p = choose|p: Seq<int>|
            #[trigger] sp_awy_path(g, awy, p) && p.len() >= 2 && p.first() == a && p.last() == a;
        let q = p.drop_last();
        assert(sp_awy_path(g, awy, q)) by {
            assert(forall|k: int| 0 <= k < q.len() ==> q[k] == p[k]);
            assert forall|k: int| 0 <= k < q.len() - 1 implies sp_awy_edge(
                g,
                awy,
                #[trigger] q[k],
                q[k + 1],
            ) by {
                assert(q[k] == p[k] && q[k + 1] == p[k + 1]);
            }
        }
        let u = q.last();
        assert(sp_awy_edge(g, awy, p[p.len() - 2], p[p.len() - 1]));
        assert(sp_awy_reachable(g, awy, a, u));
        assert(0 <= u < g.nodes@.len() && sp_awy_reachable(g, awy, a, u) && sp_awy_edge(
            g,
            awy,
            u,
            a,
        ));
    }
    if exists|u: int|
        0 <= u < g.nodes@.len() && sp_awy_reachable(g, awy, a, u) && #[trigger] sp_awy_edge(
            g,
            awy,
            u,
            a,
        ) {
        let u = choose|u: int|
            0 <= u < g.nodes@.len() && sp_awy_reachable(g, awy, a, u) && #[trigger] sp_awy_edge(
                g,
                awy,
                u,
                a,
            );
        let p = choose|p: Seq<int>|
            #[trigger] sp_awy_path(g, awy, p) && p.first() == a && p.last() == u;
        let q = p.push(a);
        assert(q.first() == a && q.last() == a && q.len() >= 2);
        assert forall|k: int| 0 <= k < q.len() - 1 implies sp_awy_edge(
            g,
            awy,
            #[trigger] q[k],
            q[k + 1],
        ) by {
            if k < p.len() - 1 {
                assert(q[k] == p[k] && q[k + 1] == p[k + 1]);
            } else {
                assert(q[k] == p.last() && q[k + 1] == a);
            }
        }
        assert(sp_awy_path(g, awy, q));
    }
}

/// Reaching a neighbour of a reachable vertex.
pub proof fn lemma_reachable_step(g: DiGraph, awy: Seq<char>, a: int, b: int, c: int)
    requires
        sp_awy_reachable(g, awy, a, b),
        sp_awy_edge(g, awy, b, c),
        0 <= c < g.nodes@.len(),
    ensures
        sp_awy_reachable(g, awy, a, c),
{
    let p = choose|p: Seq<int>| #[trigger] sp_awy_path(g, awy, p) && p.first() == a && p.last()
        == b;
    let q = p.push(c);
    assert(q.first() == a);
    assert(q.last() == c);
    assert forall|k: int| 0 <= k < q.len() - 1 implies sp_awy_edge(
        g,
        awy,
        #[trigger] q[k],
        q[k + 1],
    ) by {
        if k < p.len() - 1 {
            assert(q[k] == p[k] && q[k + 1] == p[k + 1]);
        } else {
            assert(q[k] == p.last() && q[k + 1] == c);
        }
    }
    assert(sp_awy_path(g, awy, q));
}

/// Reaching oneself.
pub proof fn lemma_reachable_self(g: DiGraph, awy: Seq<char>, a: int)
    requires
        0 <= a < g.nodes@.len(),
    ensures
        sp_awy_reachable(g, awy, a, a),
{
    let p = seq![a];
    assert(sp_awy_path(g, awy, p));
}

/// A set of vertices that contains `start` and is closed under
/// `awy`-labelled edges contains everything reachable from `start`.
proof fn lemma_closed_contains_reachable(
    g: DiGraph,
    awy: Seq<char>,
    start: int,
    marked: Seq<bool>,
    p: Seq<int>,
)
    requires
        marked.len() == g.nodes@.len(),
        0 <= start < g.nodes@.len(),
        marked[start],
        forall|a: int, b: int|
            0 <= a < g.nodes@.len() && 0 <= b < g.nodes@.len() && marked[a] && #[trigger]
            sp_awy_edge(g, awy, a, b) ==> marked[b],
        sp_awy_path(g, awy, p),
        p.first() == start,
    ensures
        marked[p.last()],
    decreases p.len(),
{
    if p.len() == 1 {
    } else {
        let q = p.drop_last();
        assert(sp_awy_path(g, awy, q)) by {
            assert(forall|k: int| 0 <= k < q.len() ==> q[k] == p[k]);
            assert forall|k: int| 0 <= k < q.len() - 1 implies sp_awy_edge(
                g,
                awy,
                #[trigger] q[k],
                q[k + 1],
            ) by {
                assert(q[k] == p[k] && q[k + 1] == p[k + 1]);
            }
        }
        lemma_closed_contains_reachable(g, awy, start, marked, q);
        assert(sp_awy_edge(g, awy, p[p.len() - 2], p[p.len() - 1]));
    }
}

impl DiGraph {
    /// Whether edge `e` goes out of `u` along the airway `awy`.
    fn edge_from_on(&self, e: usize, u: usize, awy: &str) -> (r: bool)
        requires
            e < self.edges@.len(),
        ensures
            r == (self.edges@[e as int].source == u && sp_edge_awy_name(
                self.edges@[e as int].weight,
            ) == Some(awy@)),
    {
        let ge = &self.edges[e];
        if ge.source != u {
            return false;
        }
        match &ge.weight {
            NavEdge::Airway(ae) => str_eq(ae.name.as_str(), awy),
            NavEdge::Hold(_) => false,
        }
    }

    /// Whether edge `e` is incident to `u` along the airway `awy`.
    fn edge_incident_on(&self, e: usize, u: usize, awy: &str) -> (r: bool)
        requires
            e < self.edges@.len(),
        ensures
            r == ((self.edges@[e as int].source == u || self.edges@[e as int].target == u)
                && sp_edge_awy_name(self.edges@[e as int].weight) == Some(awy@)),
    {
        let ge = &self.edges[e];
        if ge.source != u && ge.target != u {
            return false;
        }
        match &ge.weight {
            NavEdge::Airway(ae) => str_eq(ae.name.as_str(), awy),
            NavEdge::Hold(_) => false,
        }
    }

    /// Whether some edge is incident to `u` along the airway `awy`.
    pub fn has_awy_incident(&self, u: usize, awy: &str) -> (r: bool)
        ensures
            r == sp_has_awy_incident(*self, awy@, u as int),
    {
        let mut e: usize = 0;
        while e < self.edges.len()
            invariant
                e <= self.edges@.len(),
                forall|ei: int|
                    0 <= ei < e ==> !(((#[trigger] self.edges@[ei]).source == u as int
                        || self.edges@[ei].target == u as int) && sp_edge_awy_name(
                        self.edges@[ei].weight,
                    ) == Some(awy@)),
            decreases self.edges@.len() - e,
        {
            if self.edge_incident_on(e, u, awy) {
                return true;
            }
            e = e + 1;
        }
        false
    }

    /// Whether some `awy` edge returns to `start` from a vertex listed in
    /// `reach`.
    pub fn cycle_back(&self, reach: &Vec<usize>, start: usize, awy: &str) -> (r: bool)
        ensures
            r == exists|e: int|
                0 <= e < self.edges@.len() && (#[trigger] self.edges@[e]).target == start
                    && sp_edge_awy_name(self.edges@[e].weight) == Some(awy@) && (exists|k: int|
                    0 <= k < reach@.len() && #[trigger] reach@[k] == self.edges@[e].source),
    {
        let mut e: usize = 0;
        while e < self.edges.len()
            invariant
                e <= self.edges@.len(),
                forall|ei: int|
                    0 <= ei < e ==> !((#[trigger] self.edges@[ei]).target == start
                        && sp_edge_awy_name(self.edges@[ei].weight) == Some(awy@) && (exists|
                        k: int,
                    | 0 <= k < reach@.len() && #[trigger] reach@[k] == self.edges@[ei].source)),
            decreases self.edges@.len() - e,
        {
            let ge = &self.edges[e];
            let labelled = match &ge.weight {
                NavEdge::Airway(ae) => str_eq(ae.name.as_str(), awy),
                NavEdge::Hold(_) => false,
            };
            if ge.target == start && labelled && vec_contains(reach, ge.source) {
                return true;
            }
            e = e + 1;
        }
        false
    }

    /// Every vertex reachable from `start` along edges labelled `awy`,
    /// each exactly once.
    pub fn awy_reach(&self, start: usize, awy: &str) -> (r: Vec<usize>)
        requires
            self.wf(),
            start < self.nodes@.len(),
        ensures
            forall|k: int|
                0 <= k < r@.len() ==> (#[trigger] r@[k]) < self.nodes@.len() && sp_awy_reachable(
                    *self,
                    awy@,
                    start as int,
                    r@[k] as int,
                ),
            forall|i: int|
                0 <= i < self.nodes@.len() && sp_awy_reachable(*self, awy@, start as int, i)
                    ==> exists|k: int| 0 <= k < r@.len() && #[trigger] r@[k] == i,
            forall|k1: int, k2: int| 0 <= k1 < k2 < r@.len() ==> r@[k1] != r@[k2],
            exists|k: int| 0 <= k < r@.len() && #[trigger] r@[k] == start,
    {
        let n = self.nodes.len();
        let mut visited: Vec<bool> = Vec::new();
        let mut f: usize = 0;
        while f < n
            invariant
                visited@.len() == f <= n,
                forall|i: int| 0 <= i < f ==> !(#[trigger] visited@[i]),
            decreases n - f,
        {
            visited.push(false);
            f = f + 1;
        }
        let mut stack: Vec<usize> = Vec::new();
        let mut result: Vec<usize> = Vec::new();
        visited.set(start, true);
        stack.push(start);
        proof {
            lemma_reachable_self(*self, awy@, start as int);
            lemma_count_false_nonneg(visited@);
            assert(stack@[0] == start);
        }
        while stack.len() > 0
            invariant
                self.wf(),
                start < self.nodes@.len(),
                visited@.len() == self.nodes@.len(),
                visited@[start as int],
                count_false(visited@) >= 0,
                inv_sets(*self, awy@, start as int, visited@, stack@, result@),
            decreases stack@.len() + 2 * count_false(visited@),
        {
            let ghost stack0 = stack@;
            let ghost result0 = result@;
            let u = stack.pop().unwrap();
            result.push(u);
            proof {
                assert(stack0 =~= stack@.push(u));
                assert(result@ =~= result0.push(u));
                assert(result@[result@.len() - 1] == u);
                lemma_move_to_result(*self, awy@, start as int, visited@, stack0, result0, u);
            }
            let ghost visited1 = visited@;
            let ghost stack1 = stack@;
            let mut e: usize = 0;
            let ghost m = self.edges@.len();
            while e < self.edges.len()
                invariant
                    self.wf(),
                    start < self.nodes@.len(),
                    m == self.edges@.len(),
                    e <= m,
                    u < self.nodes@.len(),
                    visited@.len() == self.nodes@.len(),
                    visited@[start as int],
                    visited@[u as int],
                    count_false(visited@) >= 0,
                    stack@.len() + 2 * count_false(visited@) <= stack1.len() + 2 * count_false(
                        visited1,
                    ),
                    sp_awy_reachable(*self, awy@, start as int, u as int),
                    result@.len() >= 1 && result@[result@.len() - 1] == u,
                    inv_sets_mid(*self, awy@, start as int, visited@, stack@, result@, u as int),
                    forall|b: int|
                        0 <= b < self.nodes@.len() && (exists|ei: int|
                            0 <= ei < e && (#[trigger] self.edges@[ei]).source == u as int
                                && self.edges@[ei].target == b && sp_edge_awy_name(
                                self.edges@[ei].weight,
                            ) == Some(awy@)) ==> visited@[b],
                decreases m - e,
            {
                if self.edge_from_on(e, u, awy) {
                    let v = self.edges[e].target;
                    if !visited[v] {
                        proof {
                            lemma_reachable_step(*self, awy@, start as int, u as int, v as int);
                            lemma_count_false_update_true(visited@, v as int);
                        }
                        let ghost visited_b = visited@;
                        let ghost stack_b = stack@;
                        visited.set(v, true);
                        stack.push(v);
                        proof {
                            assert(stack@ =~= stack_b.push(v));
                            assert(stack@[stack@.len() - 1] == v);
                            lemma_push_unvisited(
                                *self,
                                awy@,
                                start as int,
                                visited_b,
                                stack_b,
                                result@,
                                u as int,
                                v,
                            );
                            lemma_count_false_nonneg(visited@);
                        }
                    }
                    proof {
                        assert(visited@[self.edges@[e as int].target as int]);
                        assert forall|b: int|
                            0 <= b < self.nodes@.len() && (exists|ei: int|
                                0 <= ei < e + 1 && (#[trigger] self.edges@[ei]).source == u as int
                                    && self.edges@[ei].target == b && sp_edge_awy_name(
                                    self.edges@[ei].weight,
                                ) == Some(awy@)) implies visited@[b] by {
                            let ei = choose|ei: int|
                                0 <= ei < e + 1 && (#[trigger] self.edges@[ei]).source == u as int
                                    && self.edges@[ei].target == b && sp_edge_awy_name(
                                    self.edges@[ei].weight,
                                ) == Some(awy@);
                            if ei < e {
                            } else {
                                assert(b == self.edges@[e as int].target as int);
                            }
                        }
                    }
                }
                e = e + 1;
            }
            proof {
                lemma_after_neighbours(
                    *self,
                    awy@,
                    start as int,
                    visited@,
                    stack@,
                    result@,
                    u as int,
                );
            }
        }
        proof {
            assert(visited@[start as int]);
            assert(exists|k: int| 0 <= k < result@.len() && #[trigger] result@[k] == start as int);
            assert forall|i: int|
                0 <= i < self.nodes@.len() && sp_awy_reachable(
                    *self,
                    awy@,
                    start as int,
                    i,
                ) implies exists|k: int| 0 <= k < result@.len() && #[trigger] result@[k] == i by {
                let p = choose|p: Seq<int>|
                    #[trigger] sp_awy_path(*self, awy@, p) && p.first() == start as int && p.last()
                        == i;
                assert forall|a: int, b: int|
                    0 <= a < self.nodes@.len() && 0 <= b < self.nodes@.len() && visited@[a]
                        && #[trigger] sp_awy_edge(*self, awy@, a, b) implies visited@[b] by {}
                lemma_closed_contains_reachable(*self, awy@, start as int, visited@, p);
            }
        }
        result
    }
}

/// Whether a vertex list holds `x`.
pub fn vec_contains(v: &Vec<usize>, x: usize) -> (r: bool)
    ensures
        r == exists|k: int| 0 <= k < v@.len() && #[trigger] v@[k] == x,
{
    let mut k: usize = 0;
    while k < v.len()
        invariant
            k <= v@.len(),
            forall|j: int| 0 <= j < k ==> #[trigger] v@[j] != x,
        decreases v@.len() - k,
    {
        if v[k] == x {
            return true;
        }
        k = k + 1;
    }
    false
}

/// The entries of `v` other than `x`, in order.
#[verifier::rlimit(100)]
#[verifier::spinoff_prover]
pub fn without(v: &Vec<usize>, x: usize) -> (r: Vec<usize>)
    requires
        forall|j1: int, j2: int| 0 <= j1 < j2 < v@.len() ==> v@[j1] != v@[j2],
    ensures
        forall|k: int|
            0 <= k < r@.len() ==> (#[trigger] r@[k]) != x && (exists|j: int|
                0 <= j < v@.len() && #[trigger] v@[j] == r@[k]),
        forall|j: int|
            0 <= j < v@.len() && (#[trigger] v@[j]) != x ==> exists|k: int|
                0 <= k < r@.len() && #[trigger] r@[k] == v@[j],
        forall|k1: int, k2: int| 0 <= k1 < k2 < r@.len() ==> r@[k1] != r@[k2],
{
    let mut r: Vec<usize> = Vec::new();
    let mut j: usize = 0;
    while j < v.len()
        invariant
            j <= v@.len(),
            forall|j1: int, j2: int| 0 <= j1 < j2 < v@.len() ==> v@[j1] != v@[j2],
            forall|k: int|
                0 <= k < r@.len() ==> (#[trigger] r@[k]) != x && (exists|jj: int|
                    0 <= jj < j && #[trigger] v@[jj] == r@[k]),
            forall|jj: int|
                0 <= jj < j && (#[trigger] v@[jj]) != x ==> exists|k: int|
                    0 <= k < r@.len() && #[trigger] r@[k] == v@[jj],
            forall|k1: int, k2: int| 0 <= k1 < k2 < r@.len() ==> r@[k1] != r@[k2],
        decreases v@.len() - j,
    {
        let u = v[j];
        if u != x {
            let ghost r0 = r@;
            r.push(u);
            proof {
                assert(r@[r@.len() - 1] == u);
                assert(forall|k: int| 0 <= k < r0.len() ==> r@[k] == r0[k]);
                assert forall|k1: int, k2: int|
                    0 <= k1 < k2 < r@.len() implies r@[k1] != r@[k2] by {
                    if k2 == r@.len() - 1 {
                        let j1 = choose|jj: int| 0 <= jj < j && #[trigger] v@[jj] == r@[k1];
                        assert(v@[j1] != v@[j as int]);
                    }
                }
            }
        }
        j = j + 1;
    }
    proof {
        assert forall|k: int|
            0 <= k < r@.len() implies (#[trigger] r@[k]) != x && (exists|jj: int|
            0 <= jj < v@.len() && #[trigger] v@[jj] == r@[k]) by {
            let jj = choose|jj: int| 0 <= jj < j && #[trigger] v@[jj] == r@[k];
            assert(0 <= jj < v@.len() && v@[jj] == r@[k]);
        }
    }
    r
}

/// How many entries of a boolean sequence are false.
pub open spec fn count_false(s: Seq<bool>) -> int
    decreases s.len(),
{
    if s.len() == 0 {
        0
    } else {
        count_false(s.drop_last()) + if s.last() {
            0int
        } else {
            1int
        }
    }
}

proof fn lemma_count_false_nonneg(s: Seq<bool>)
    ensures
        count_false(s) >= 0,
    decreases s.len(),
{
    if s.len() > 0 {
        lemma_count_false_nonneg(s.drop_last());
    }
}

/// Marking one unmarked entry lowers the count by one.
proof fn lemma_count_false_update_true(s: Seq<bool>, i: int)
    requires
        0 <= i < s.len(),
        !s[i],
    ensures
        count_false(s.update(i, true)) == count_false(s) - 1,
    decreases s.len(),
{
    if i == s.len() - 1 {
        assert(s.update(i, true).drop_last() =~= s.drop_last());
    } else {
        assert(s.update(i, true).drop_last() =~= s.drop_last().update(i, true));
        lemma_count_false_update_true(s.drop_last(), i);
    }
}

/// The visited partition: everything on the stack or in the result is a
/// valid, visited, reachable vertex; visited vertices are on the stack or
/// in the result and nowhere twice; and a visited vertex that is off the
/// stack has all its labelled successors visited.
pub open spec fn inv_sets(
    g: DiGraph,
    awy: Seq<char>,
    start: int,
    visited: Seq<bool>,
    stack: Seq<usize>,
    result: Seq<usize>,
) -> bool {
    &&& forall|k: int|
        0 <= k < stack.len() ==> (#[trigger] stack[k]) < g.nodes@.len() && visited[stack[k] as int]
            && sp_awy_reachable(g, awy, start, stack[k] as int)
    &&& forall|k: int|
        0 <= k < result.len() ==> (#[trigger] result[k]) < g.nodes@.len() && visited[result[k] as int]
            && sp_awy_reachable(g, awy, start, result[k] as int)
    &&& forall|i: int|
        0 <= i < g.nodes@.len() && #[trigger] visited[i] ==> (exists|k: int|
            0 <= k < stack.len() && #[trigger] stack[k] == i) || (exists|k: int|
            0 <= k < result.len() && #[trigger] result[k] == i)
    &&& forall|k1: int, k2: int| 0 <= k1 < k2 < stack.len() ==> stack[k1] != stack[k2]
    &&& forall|k1: int, k2: int| 0 <= k1 < k2 < result.len() ==> result[k1] != result[k2]
    &&& forall|k1: int, k2: int|
        0 <= k1 < stack.len() && 0 <= k2 < result.len() ==> stack[k1] != result[k2]
    &&& forall|i: int|
        0 <= i < g.nodes@.len() && !(#[trigger] visited[i]) ==> !(exists|k: int|
            0 <= k < stack.len() && #[trigger] stack[k] == i) && !(exists|k: int|
            0 <= k < result.len() && #[trigger] result[k] == i)
    &&& forall|a: int, b: int|
        0 <= a < g.nodes@.len() && 0 <= b < g.nodes@.len() && visited[a] && !(exists|k: int|
            0 <= k < stack.len() && #[trigger] stack[k] == a) && #[trigger] sp_awy_edge(
            g,
            awy,
            a,
            b,
        ) ==> visited[b]
    &&& forall|k: int| 0 <= k < result.len() ==> closed_out(g, awy, visited, #[trigger] result[k] as int)
}

/// Every labelled successor of `a` is visited.
pub open spec fn closed_out(g: DiGraph, awy: Seq<char>, visited: Seq<bool>, a: int) -> bool {
    forall|b: int|
        0 <= b < g.nodes@.len() && #[trigger] sp_awy_edge(g, awy, a, b) ==> visited[b]
}

/// As `inv_sets`, while the vertex `u` (just moved from the stack to the
/// result) still has unexplored successors.
pub open spec fn inv_sets_mid(
    g: DiGraph,
    awy: Seq<char>,
    start: int,
    visited: Seq<bool>,
    stack: Seq<usize>,
    result: Seq<usize>,
    u: int,
) -> bool {
    &&& forall|k: int|
        0 <= k < stack.len() ==> (#[trigger] stack[k]) < g.nodes@.len() && visited[stack[k] as int]
            && sp_awy_reachable(g, awy, start, stack[k] as int)
    &&& forall|k: int|
        0 <= k < result.len() ==> (#[trigger] result[k]) < g.nodes@.len() && visited[result[k] as int]
            && sp_awy_reachable(g, awy, start, result[k] as int)
    &&& forall|i: int|
        0 <= i < g.nodes@.len() && #[trigger] visited[i] ==> (exists|k: int|
            0 <= k < stack.len() && #[trigger] stack[k] == i) || (exists|k: int|
            0 <= k < result.len() && #[trigger] result[k] == i)
    &&& forall|k1: int, k2: int| 0 <= k1 < k2 < stack.len() ==> stack[k1] != stack[k2]
    &&& forall|k1: int, k2: int| 0 <= k1 < k2 < result.len() ==> result[k1] != result[k2]
    &&& forall|k1: int, k2: int|
        0 <= k1 < stack.len() && 0 <= k2 < result.len() ==> stack[k1] != result[k2]
    &&& forall|i: int|
        0 <= i < g.nodes@.len() && !(#[trigger] visited[i]) ==> !(exists|k: int|
            0 <= k < stack.len() && #[trigger] stack[k] == i) && !(exists|k: int|
            0 <= k < result.len() && #[trigger] result[k] == i)
    &&& forall|a: int, b: int|
        0 <= a < g.nodes@.len() && 0 <= b < g.nodes@.len() && visited[a] && !(exists|k: int|
            0 <= k < stack.len() && #[trigger] stack[k] == a) && a != u && #[trigger] sp_awy_edge(
            g,
            awy,
            a,
            b,
        ) ==> visited[b]
    &&& forall|k: int|
        0 <= k < result.len() && result[k] as int != u ==> closed_out(
            g,
            awy,
            visited,
            #[trigger] result[k] as int,
        )
}

/// Popping `u` off the stack into the result keeps the partition, with
/// only `u`'s own successors still unexplored.
proof fn lemma_move_to_result(
    g: DiGraph,
    awy: Seq<char>,
    start: int,
    visited: Seq<bool>,
    stack0: Seq<usize>,
    result0: Seq<usize>,
    u: usize,
)
    requires
        inv_sets(g, awy, start, visited, stack0, result0),
        stack0.len() >= 1,
        stack0.last() == u,
        u < g.nodes@.len(),
    ensures
        inv_sets_mid(
            g,
            awy,
            start,
            visited,
            stack0.drop_last(),
            result0.push(stack0.last()),
            u as int,
        ),
{
    let stack = stack0.drop_last();
    let result = result0.push(stack0.last());
    assert(stack0[stack0.len() - 1] == u);
    assert forall|i: int|
        0 <= i < g.nodes@.len() && #[trigger] visited[i] implies (exists|k: int|
        0 <= k < stack.len() && #[trigger] stack[k] == i) || (exists|k: int|
        0 <= k < result.len() && #[trigger] result[k] == i) by {
        if exists|k: int| 0 <= k < stack0.len() && #[trigger] stack0[k] == i {
            let k = choose|k: int| 0 <= k < stack0.len() && #[trigger] stack0[k] == i;
            if k < stack0.len() - 1 {
                assert(stack[k] == i);
            } else {
                assert(result[result.len() - 1] == i);
            }
        } else {
            let k = choose|k: int| 0 <= k < result0.len() && #[trigger] result0[k] == i;
            assert(result[k] == i);
        }
    }
    assert forall|i: int|
        0 <= i < g.nodes@.len() && !(#[trigger] visited[i]) implies !(exists|k: int|
        0 <= k < stack.len() && #[trigger] stack[k] == i) && !(exists|k: int|
        0 <= k < result.len() && #[trigger] result[k] == i) by {
        assert(forall|k: int| 0 <= k < stack.len() ==> #[trigger] stack[k] == stack0[k]);
        if exists|k: int| 0 <= k < result.len() && #[trigger] result[k] == i {
            let k = choose|k: int| 0 <= k < result.len() && #[trigger] result[k] == i;
            if k < result.len() - 1 {
                assert(result0[k] == i);
            } else {
                assert(stack0[stack0.len() - 1] == i);
            }
            assert(false);
        }
    }
    assert forall|a: int, b: int|
        0 <= a < g.nodes@.len() && 0 <= b < g.nodes@.len() && visited[a] && !(exists|k: int|
            0 <= k < stack.len() && #[trigger] stack[k] == a) && a != u && #[trigger] sp_awy_edge(
            g,
            awy,
            a,
            b,
        ) implies visited[b] by {
        if exists|k: int| 0 <= k < stack0.len() && #[trigger] stack0[k] == a {
            let k = choose|k: int| 0 <= k < stack0.len() && #[trigger] stack0[k] == a;
            assert(0 <= k < stack0.len() && stack0[k] == a);
            if k < stack0.len() - 1 {
                assert(stack[k] == stack0[k]);
                assert(stack[k] == a);
                assert(false);
            } else {
                assert(stack0[k] == stack0.last());
                assert(a == u as int);
                assert(false);
            }
        }
    }
    assert forall|k: int|
        0 <= k < result.len() && result[k] as int != u as int implies closed_out(
            g,
            awy,
            visited,
            #[trigger] result[k] as int,
        ) by {
        if k < result.len() - 1 {
            assert(result[k] == result0[k]);
        }
    }
    assert(forall|k1: int, k2: int| 0 <= k1 < k2 < stack.len() ==> stack[k1] != stack[k2]);
}

/// Marking and pushing an unvisited successor keeps the partition.
proof fn lemma_push_unvisited(
    g: DiGraph,
    awy: Seq<char>,
    start: int,
    visited_b: Seq<bool>,
    stack_b: Seq<usize>,
    result: Seq<usize>,
    u: int,
    v: usize,
)
    requires
        inv_sets_mid(g, awy, start, visited_b, stack_b, result, u),
        visited_b.len() == g.nodes@.len(),
        v < g.nodes@.len(),
        !visited_b[v as int],
        sp_awy_reachable(g, awy, start, v as int),
    ensures
        inv_sets_mid(
            g,
            awy,
            start,
            visited_b.update(v as int, true),
            stack_b.push(v),
            result,
            u,
        ),
{
    let visited = visited_b.update(v as int, true);
    let stack = stack_b.push(v);
    assert forall|i: int|
        0 <= i < g.nodes@.len() && #[trigger] visited[i] implies (exists|k: int|
        0 <= k < stack.len() && #[trigger] stack[k] == i) || (exists|k: int|
        0 <= k < result.len() && #[trigger] result[k] == i) by {
        if i == v as int {
            assert(stack[stack.len() - 1] == v);
        } else {
            assert(visited_b[i]);
            if exists|k: int| 0 <= k < stack_b.len() && #[trigger] stack_b[k] == i {
                let k = choose|k: int| 0 <= k < stack_b.len() && #[trigger] stack_b[k] == i;
                assert(stack[k] == i);
            }
        }
    }
    assert forall|i: int|
        0 <= i < g.nodes@.len() && !(#[trigger] visited[i]) implies !(exists|k: int|
        0 <= k < stack.len() && #[trigger] stack[k] == i) && !(exists|k: int|
        0 <= k < result.len() && #[trigger] result[k] == i) by {
        assert(i != v as int);
        assert(!visited_b[i]);
        if exists|k: int| 0 <= k < stack.len() && #[trigger] stack[k] == i {
            let k = choose|k: int| 0 <= k < stack.len() && #[trigger] stack[k] == i;
            assert(stack[stack.len() - 1] == v);
            if k == stack.len() - 1 {
                assert(stack[k] == v);
                assert(false);
            } else {
                assert(stack[k] == stack_b[k]);
                assert(false);
            }
        }
    }
    assert forall|a: int, b: int|
        0 <= a < g.nodes@.len() && 0 <= b < g.nodes@.len() && visited[a] && !(exists|k: int|
            0 <= k < stack.len() && #[trigger] stack[k] == a) && a != u && #[trigger] sp_awy_edge(
            g,
            awy,
            a,
            b,
        ) implies visited[b] by {
        assert(forall|k: int| 0 <= k < stack_b.len() ==> #[trigger] stack[k] == stack_b[k]);
        if a == v as int {
            assert(stack[stack.len() - 1] == v);
            assert(false);
        } else {
            assert(visited_b[a]);
            if exists|k: int| 0 <= k < stack_b.len() && #[trigger] stack_b[k] == a {
                let k = choose|k: int| 0 <= k < stack_b.len() && #[trigger] stack_b[k] == a;
                assert(stack[k] == a);
                assert(false);
            }
            assert(visited_b[b]);
        }
    }
    assert forall|k: int|
        0 <= k < result.len() && result[k] as int != u implies closed_out(
            g,
            awy,
            visited,
            #[trigger] result[k] as int,
        ) by {
        assert(closed_out(g, awy, visited_b, result[k] as int));
        assert forall|b: int|
            0 <= b < g.nodes@.len() && #[trigger] sp_awy_edge(g, awy, result[k] as int, b)
                implies visited[b] by {
            assert(visited_b[b]);
        }
    }
    assert forall|k: int|
        0 <= k < result.len() implies (#[trigger] result[k]) < g.nodes@.len() && visited[result[k] as int]
            && sp_awy_reachable(g, awy, start, result[k] as int) by {
        assert(visited_b[result[k] as int]);
    }
}

/// Once every edge out of `u` has been explored, the full partition
/// invariant holds again.
proof fn lemma_after_neighbours(
    g: DiGraph,
    awy: Seq<char>,
    start: int,
    visited: Seq<bool>,
    stack: Seq<usize>,
    result: Seq<usize>,
    u: int,
)
    requires
        inv_sets_mid(g, awy, start, visited, stack, result, u),
        g.wf(),
        0 <= u < g.nodes@.len(),
        result.len() >= 1 && result[result.len() - 1] as int == u,
        closed_out(g, awy, visited, u),
    ensures
        inv_sets(g, awy, start, visited, stack, result),
{
    assert forall|a: int, b: int|
        0 <= a < g.nodes@.len() && 0 <= b < g.nodes@.len() && visited[a] && !(exists|k: int|
            0 <= k < stack.len() && #[trigger] stack[k] == a) && #[trigger] sp_awy_edge(
            g,
            awy,
            a,
            b,
        ) implies visited[b] by {
        if a == u {
        }
    }
    assert forall|k: int|
        0 <= k < result.len() implies closed_out(g, awy, visited, #[trigger] result[k] as int) by {
        if result[k] as int != u {
        }
    }
}

/// The first vertex matching a waypoint reference, scanning in index
/// order.
pub open spec fn sp_first_match(
    nodes: Seq<NavEntry>,
    i: int,
    ident: Seq<char>,
    icao: Seq<char>,
    typ: crate::navdata::ParsedNodeRefType,
) -> Option<int>
    decreases nodes.len() - i when 0 <= i
{
    if i >= nodes.len() {
        None
    } else if sp_wpt_match(ident, icao, typ, nodes[i]) {
        Some(i)
    } else {
        sp_first_match(nodes, i + 1, ident, icao, typ)
    }
}

/// Resolve a waypoint reference to the first matching vertex.
pub fn resolve_wpt(nodes: &Vec<NavEntry>, wpt: &ParsedNodeRef) -> (r: Option<usize>)
    ensures
        ({
            let sp = sp_first_match(nodes@, 0, wpt.ident@, wpt.icao_region@, wpt.typ);
            &&& (r is Some <==> sp is Some)
            &&& (r matches Some(i) ==> sp == Some(i as int) && i < nodes@.len() && sp_wpt_match(
                wpt.ident@,
                wpt.icao_region@,
                wpt.typ,
                nodes@[i as int],
            ))
        }),
{
    let mut i: usize = 0;
    while i < nodes.len()
        invariant
            i <= nodes@.len(),
            sp_first_match(nodes@, 0, wpt.ident@, wpt.icao_region@, wpt.typ) == sp_first_match(
                nodes@,
                i as int,
                wpt.ident@,
                wpt.icao_region@,
                wpt.typ,
            ),
        decreases nodes@.len() - i,
    {
        if match_wpt_predicate(wpt, &nodes[i]) {
            return Some(i);
        }
        i = i + 1;
    }
    None
}

use crate::navdata::match_wpt_predicate;

} // verus!
