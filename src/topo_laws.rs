use vstd::prelude::*;

use crate::topo::drive_spec;
use crate::topo::first_idx;
use crate::topo::graph_wf;
use crate::topo::incoming;
use crate::topo::prereqs;
use crate::topo::topo_order;
use crate::topo::universe;
use crate::topo::visit_deps_spec;
use crate::topo::visit_spec;
use crate::topo::DfsState;
use crate::topo::Mark;
use crate::topo::unvisited_count;
use crate::topo::lemma_count_update;
use crate::topo::lemma_count_le;

verus! {

/// What the traversal keeps true: every emitted node is done, belongs to
/// `c`, and is emitted once; every done node is emitted; and every
/// prerequisite of an emitted node is emitted before it.
pub open spec fn dfs_inv(g: Seq<Seq<int>>, c: Set<int>, st: DfsState) -> bool {
    let (m, o) = st;
    &&& m.len() == g.len()
    &&& forall|j: int|
        0 <= j < o.len() ==> 0 <= #[trigger] o[j] < g.len() && m[o[j]] == Mark::Done && c.contains(
            o[j],
        )
    &&& forall|k: int| 0 <= k < m.len() && #[trigger] m[k] == Mark::Done ==> o.contains(k)
    &&& forall|j1: int, j2: int| 0 <= j1 < j2 < o.len() ==> #[trigger] o[j1] != #[trigger] o[j2]
    &&& forall|j: int, p: int|
        0 <= j < o.len() && 0 <= p < g[o[j]].len() ==> emitted_before(o, j, #[trigger] g[o[j]][p])
}

/// `x` stands in `o` before position `j`.
pub open spec fn emitted_before(o: Seq<int>, j: int, x: int) -> bool {
    exists|j2: int| 0 <= j2 < j && o[j2] == x
}

/// The traversal only ever moves a node from unvisited on, and only appends
/// to what it has emitted.
pub open spec fn dfs_step(a: DfsState, b: DfsState) -> bool {
    &&& b.0.len() == a.0.len()
    &&& forall|k: int|
        0 <= k < a.0.len() && a.0[k] != Mark::Unvisited ==> #[trigger] b.0[k] == a.0[k]
    &&& b.1.len() >= a.1.len()
    &&& forall|j: int| 0 <= j < a.1.len() ==> #[trigger] b.1[j] == a.1[j]
}

/// Every prerequisite lies in `c`.
pub open spec fn graph_in(g: Seq<Seq<int>>, c: Set<int>) -> bool {
    forall|v: int, p: int| 0 <= v < g.len() && 0 <= p < g[v].len() ==> c.contains(#[trigger] g[v][p])
}

proof fn lemma_visit(g: Seq<Seq<int>>, c: Set<int>, fuel: nat, st: DfsState, v: int)
    requires
        graph_wf(g),
        graph_in(g, c),
        dfs_inv(g, c, st),
        0 <= v < g.len(),
        c.contains(v),
        visit_spec(g, fuel, st, v) is Some,
    ensures
        ({
            let s = visit_spec(g, fuel, st, v)->0;
            &&& dfs_inv(g, c, s)
            &&& dfs_step(st, s)
            &&& s.0[v] == Mark::Done
        }),
    decreases fuel, 0int,
{
    let (m, o) = st;
    if m[v] == Mark::Done {
    } else {
        let st1: DfsState = (m.update(v, Mark::InProgress), o);
        assert(!o.contains(v)) by {
            if o.contains(v) {
                let j = choose|j: int| 0 <= j < o.len() && o[j] == v;
                assert(m[o[j]] == Mark::Done);
            }
        }
        assert(dfs_inv(g, c, st1)) by {
            assert forall|k: int|
                0 <= k < st1.0.len() && #[trigger] st1.0[k] == Mark::Done implies st1.1.contains(
                k,
            ) by {
                assert(m[k] == Mark::Done);
            }
            assert forall|j: int| 0 <= j < o.len() implies 0 <= #[trigger] o[j] < g.len()
                && st1.0[o[j]] == Mark::Done && c.contains(o[j]) by {
                assert(o[j] != v);
            }
            assert forall|j: int, p: int| 0 <= j < o.len() && 0 <= p < g[o[j]].len() implies emitted_before(
                o,
                j,
                #[trigger] g[o[j]][p],
            ) by {}
        }
        lemma_visit_deps(g, c, (fuel - 1) as nat, st1, v, 0);
        let s = visit_deps_spec(g, (fuel - 1) as nat, st1, v, 0)->0;
        let s2: DfsState = (s.0.update(v, Mark::Done), s.1.push(v));
        assert(!s.1.contains(v)) by {
            if s.1.contains(v) {
                let j = choose|j: int| 0 <= j < s.1.len() && s.1[j] == v;
                assert(s.0[s.1[j]] == Mark::Done);
            }
        }
        assert(dfs_inv(g, c, s2)) by {
            let (m2, o2) = s2;
            assert forall|j: int| 0 <= j < o2.len() implies 0 <= #[trigger] o2[j] < g.len()
                && m2[o2[j]] == Mark::Done && c.contains(o2[j]) by {
                if j < s.1.len() {
                    assert(o2[j] == s.1[j]);
                }
            }
            assert forall|k: int| 0 <= k < m2.len() && #[trigger] m2[k] == Mark::Done implies o2.contains(
                k,
            ) by {
                if k == v {
                    assert(o2[o2.len() - 1] == v);
                } else {
                    assert(s.0[k] == Mark::Done);
                    let j = choose|j: int| 0 <= j < s.1.len() && s.1[j] == k;
                    assert(o2[j] == k);
                }
            }
            assert forall|j1: int, j2: int| 0 <= j1 < j2 < o2.len() implies #[trigger] o2[j1]
                != #[trigger] o2[j2] by {
                if j2 == o2.len() - 1 {
                    assert(o2[j1] == s.1[j1]);
                    assert(s.1.contains(s.1[j1]));
                } else {
                    assert(o2[j1] == s.1[j1] && o2[j2] == s.1[j2]);
                }
            }
            assert forall|j: int, p: int| 0 <= j < o2.len() && 0 <= p < g[o2[j]].len() implies emitted_before(
                o2,
                j,
                #[trigger] g[o2[j]][p],
            ) by {
                if j == o2.len() - 1 {
                    let d = g[v][p];
                    assert(s.0[d] == Mark::Done);
                    let j2 = choose|j2: int| 0 <= j2 < s.1.len() && s.1[j2] == d;
                    assert(o2[j2] == d);
                } else {
                    assert(o2[j] == s.1[j]);
                    assert(emitted_before(s.1, j, g[s.1[j]][p]));
                    let j2 = choose|j2: int| 0 <= j2 < j && s.1[j2] == g[s.1[j]][p];
                    assert(o2[j2] == s.1[j2]);
                }
            }
        }
    }
}

proof fn lemma_visit_deps(g: Seq<Seq<int>>, c: Set<int>, fuel: nat, st: DfsState, v: int, i: int)
    requires
        graph_wf(g),
        graph_in(g, c),
        dfs_inv(g, c, st),
        0 <= v < g.len(),
        0 <= i,
        st.0[v] == Mark::InProgress,
        visit_deps_spec(g, fuel, st, v, i) is Some,
    ensures
        ({
            let s = visit_deps_spec(g, fuel, st, v, i)->0;
            &&& dfs_inv(g, c, s)
            &&& dfs_step(st, s)
            &&& forall|p: int| i <= p < g[v].len() ==> s.0[#[trigger] g[v][p]] == Mark::Done
        }),
    decreases fuel, g[v].len() - i + 1,
{
    if i < g[v].len() {
        let d = g[v][i];
        lemma_visit(g, c, fuel, st, d);
        let s1 = visit_spec(g, fuel, st, d)->0;
        assert(s1.0[v] == Mark::InProgress);
        lemma_visit_deps(g, c, fuel, s1, v, i + 1);
        let s = visit_deps_spec(g, fuel, s1, v, i + 1)->0;
        assert(s.0[d] == Mark::Done);
    }
}

proof fn lemma_drive(g: Seq<Seq<int>>, c: Set<int>, fuel: nat, st: DfsState, roots: Seq<int>)
    requires
        graph_wf(g),
        graph_in(g, c),
        dfs_inv(g, c, st),
        forall|j: int| 0 <= j < roots.len() ==> 0 <= #[trigger] roots[j] < g.len() && c.contains(
            roots[j],
        ),
        drive_spec(g, fuel, st, roots) is Some,
    ensures
        ({
            let s = drive_spec(g, fuel, st, roots)->0;
            &&& dfs_inv(g, c, s)
            &&& dfs_step(st, s)
            &&& forall|j: int| 0 <= j < roots.len() ==> s.0[#[trigger] roots[j]] == Mark::Done
        }),
    decreases roots.len(),
{
    if roots.len() > 0 {
        lemma_visit(g, c, fuel, st, roots[0]);
        let s1 = visit_spec(g, fuel, st, roots[0])->0;
        let rest = roots.skip(1);
        assert forall|j: int| 0 <= j < rest.len() implies 0 <= #[trigger] rest[j] < g.len()
            && c.contains(rest[j]) by {
            assert(rest[j] == roots[j + 1]);
        }
        lemma_drive(g, c, fuel, s1, rest);
        let s = drive_spec(g, fuel, s1, rest)->0;
        assert forall|j: int| 0 <= j < roots.len() implies s.0[#[trigger] roots[j]] == Mark::Done by {
            if j > 0 {
                assert(rest[j - 1] == roots[j]);
            }
        }
    }
}

proof fn lemma_first_idx(u: Seq<Seq<char>>, x: Seq<char>)
    requires
        u.contains(x),
    ensures
        0 <= first_idx(u, x) < u.len(),
        u[first_idx(u, x)] == x,
    decreases u.len(),
{
    if u[0] != x {
        let j = choose|j: int| 0 <= j < u.len() && u[j] == x;
        assert(u.skip(1)[j - 1] == x);
        lemma_first_idx(u.skip(1), x);
    }
}

proof fn lemma_first_idx_bound(u: Seq<Seq<char>>, x: Seq<char>)
    ensures
        0 <= first_idx(u, x) <= u.len(),
    decreases u.len(),
{
    if u.len() > 0 && u[0] != x {
        lemma_first_idx_bound(u.skip(1), x);
    }
}

proof fn lemma_edge_ends_contain(e: Seq<(Seq<char>, Seq<char>)>, k: int)
    requires
        0 <= k < e.len(),
    ensures
        crate::topo::edge_ends(e).contains(e[k].0),
        crate::topo::edge_ends(e).contains(e[k].1),
    decreases e.len(),
{
    let ends = crate::topo::edge_ends(e);
    let l = crate::topo::edge_ends(e.drop_last()).len() as int;
    if k == e.len() - 1 {
        assert(ends[l] == e[k].0);
        assert(ends[l + 1] == e[k].1);
    } else {
        lemma_edge_ends_contain(e.drop_last(), k);
        let front = crate::topo::edge_ends(e.drop_last());
        let j0 = choose|j: int| 0 <= j < front.len() && front[j] == e[k].0;
        let j1 = choose|j: int| 0 <= j < front.len() && front[j] == e[k].1;
        assert(ends[j0] == front[j0]);
        assert(ends[j1] == front[j1]);
    }
}

proof fn lemma_prereqs_edge(u: Seq<Seq<char>>, e: Seq<(Seq<char>, Seq<char>)>, k: int)
    requires
        0 <= k < e.len(),
    ensures
        prereqs(u, e, first_idx(u, e[k].1)).contains(first_idx(u, e[k].0)),
    decreases e.len(),
{
    let t = first_idx(u, e[k].1);
    if k == e.len() - 1 {
        let p = prereqs(u, e, t);
        assert(p[p.len() - 1] == first_idx(u, e[k].0));
    } else {
        lemma_prereqs_edge(u, e.drop_last(), k);
        let front = prereqs(u, e.drop_last(), t);
        let j = choose|j: int| 0 <= j < front.len() && front[j] == first_idx(u, e[k].0);
        assert(prereqs(u, e, t)[j] == front[j]);
    }
}

proof fn lemma_prereqs_from(u: Seq<Seq<char>>, e: Seq<(Seq<char>, Seq<char>)>, k: int, p: int)
    requires
        0 <= p < prereqs(u, e, k).len(),
    ensures
        exists|m: int| 0 <= m < e.len() && prereqs(u, e, k)[p] == first_idx(u, #[trigger] e[m].0),
    decreases e.len(),
{
    let front = prereqs(u, e.drop_last(), k);
    if p < front.len() {
        lemma_prereqs_from(u, e.drop_last(), k, p);
        let m = choose|m: int|
            0 <= m < e.drop_last().len() && front[p] == first_idx(u, #[trigger] e.drop_last()[m].0);
        assert(e[m] == e.drop_last()[m]);
    } else {
        assert(prereqs(u, e, k)[p] == first_idx(u, e[e.len() - 1].0));
    }
}

/// The positions that hold the first occurrence of their value.
pub open spec fn canonical(u: Seq<Seq<char>>) -> Set<int> {
    Set::new(|k: int| 0 <= k < u.len() && first_idx(u, u[k]) == k)
}

proof fn lemma_canonical(u: Seq<Seq<char>>, x: Seq<char>)
    requires
        u.contains(x),
    ensures
        canonical(u).contains(first_idx(u, x)),
{
    lemma_first_idx(u, x);
}

/// Topological validity: when the sort succeeds, the output holds each
/// node once, and for every edge `(a, b)` it holds `a` before `b`; no value
/// an edge names is left out.
pub proof fn lemma_topo_order_valid(nodes: Seq<Seq<char>>, edges: Seq<(Seq<char>, Seq<char>)>)
    requires
        topo_order(nodes, edges) is Some,
    ensures
        ({
            let r = topo_order(nodes, edges)->0;
            &&& forall|i: int, j: int| 0 <= i < j < r.len() ==> r[i] != r[j]
            &&& forall|i: int| 0 <= i < nodes.len() ==> r.contains(#[trigger] nodes[i])
            &&& forall|k: int|
                0 <= k < edges.len() ==> exists|i: int, j: int|
                    0 <= i < j < r.len() && r[i] == (#[trigger] edges[k]).0 && r[j] == edges[k].1
        }),
{
    let u = universe(nodes, edges);
    let g = incoming(u, edges);
    let c = canonical(u);
    let roots = u.map_values(|x: Seq<char>| first_idx(u, x));
    let init: DfsState = (Seq::new(g.len(), |k: int| Mark::Unvisited), Seq::empty());
    assert forall|x: Seq<char>| #[trigger] nodes.contains(x) implies u.contains(x) by {
        let j = choose|j: int| 0 <= j < nodes.len() && nodes[j] == x;
        assert(u[j] == x);
    }
    assert forall|k: int| 0 <= k < edges.len() implies u.contains(#[trigger] edges[k].0) && u.contains(
        edges[k].1,
    ) by {
        lemma_edge_ends_contain(edges, k);
        let ends = crate::topo::edge_ends(edges);
        let j0 = choose|j: int| 0 <= j < ends.len() && ends[j] == edges[k].0;
        let j1 = choose|j: int| 0 <= j < ends.len() && ends[j] == edges[k].1;
        assert(u[nodes.len() + j0] == edges[k].0);
        assert(u[nodes.len() + j1] == edges[k].1);
    }
    assert(graph_wf(g) && graph_in(g, c)) by {
        assert forall|v: int, p: int| 0 <= v < g.len() && 0 <= p < g[v].len() implies 0
            <= #[trigger] g[v][p] < g.len() && c.contains(g[v][p]) by {
            lemma_prereqs_from(u, edges, v, p);
            let m = choose|m: int|
                0 <= m < edges.len() && prereqs(u, edges, v)[p] == first_idx(u, #[trigger] edges[m].0);
            lemma_first_idx(u, edges[m].0);
            lemma_canonical(u, edges[m].0);
        }
    }
    assert forall|j: int| 0 <= j < roots.len() implies 0 <= #[trigger] roots[j] < g.len()
        && c.contains(roots[j]) by {
        assert(u.contains(u[j]));
        lemma_first_idx(u, u[j]);
        lemma_canonical(u, u[j]);
    }
    assert(dfs_inv(g, c, init));
    lemma_drive(g, c, g.len(), init, roots);
    let s = drive_spec(g, g.len(), init, roots)->0;
    let o = s.1;
    let r = topo_order(nodes, edges)->0;
    assert(r == o.map_values(|k: int| u[k]));
    assert forall|i: int, j: int| 0 <= i < j < r.len() implies r[i] != r[j] by {
        assert(o[i] != o[j]);
        assert(c.contains(o[i]) && c.contains(o[j]));
    }
    assert forall|i: int| 0 <= i < nodes.len() implies r.contains(#[trigger] nodes[i]) by {
        assert(u[i] == nodes[i]);
        assert(s.0[roots[i]] == Mark::Done);
        let j = choose|j: int| 0 <= j < o.len() && o[j] == roots[i];
        assert(nodes.contains(nodes[i]));
        lemma_first_idx(u, nodes[i]);
        assert(r[j] == nodes[i]);
    }
    assert forall|k: int| 0 <= k < edges.len() implies exists|i: int, j: int|
        0 <= i < j < r.len() && r[i] == (#[trigger] edges[k]).0 && r[j] == edges[k].1 by {
        let a = edges[k].0;
        let b = edges[k].1;
        let ib = choose|i: int| 0 <= i < u.len() && u[i] == b;
        assert(roots[ib] == first_idx(u, b));
        assert(s.0[first_idx(u, b)] == Mark::Done);
        let j = choose|j: int| 0 <= j < o.len() && o[j] == first_idx(u, b);
        lemma_prereqs_edge(u, edges, k);
        lemma_first_idx(u, a);
        lemma_first_idx(u, b);
        let pl = g[first_idx(u, b)];
        let p = choose|p: int| 0 <= p < pl.len() && pl[p] == first_idx(u, a);
        assert(g[o[j]][p] == first_idx(u, a));
        assert(emitted_before(o, j, g[o[j]][p]));
        let i = choose|i: int| 0 <= i < j && o[i] == g[o[j]][p];
        assert(r[i] == a && r[j] == b);
    }
}

/// Determinism: the order depends on the nodes and edges alone, so two runs
/// on the same input give the same result.
pub proof fn lemma_order_deterministic(
    nodes1: Seq<Seq<char>>,
    edges1: Seq<(Seq<char>, Seq<char>)>,
    nodes2: Seq<Seq<char>>,
    edges2: Seq<(Seq<char>, Seq<char>)>,
)
    requires
        nodes1 == nodes2,
        edges1 == edges2,
    ensures
        topo_order(nodes1, edges1) == topo_order(nodes2, edges2),
{
}

spec fn prefix_state(n: nat, j: int) -> DfsState {
    (
        Seq::new(n, |k: int| if k < j { Mark::Done } else { Mark::Unvisited }),
        Seq::new(j as nat, |k: int| k),
    )
}

proof fn lemma_drive_no_edges(g: Seq<Seq<int>>, roots: Seq<int>, j: int)
    requires
        0 <= j <= g.len(),
        roots.len() == g.len(),
        forall|k: int| 0 <= k < roots.len() ==> #[trigger] roots[k] == k,
        forall|k: int| 0 <= k < g.len() ==> (#[trigger] g[k]).len() == 0,
    ensures
        drive_spec(g, g.len(), prefix_state(g.len(), j), roots.skip(j)) == Some(
            prefix_state(g.len(), g.len() as int),
        ),
    decreases g.len() - j,
{
    let n = g.len();
    if j == n {
        assert(roots.skip(j) =~= Seq::<int>::empty());
    } else {
        let st = prefix_state(n, j);
        assert(roots.skip(j)[0] == j);
        assert(roots.skip(j).skip(1) =~= roots.skip(j + 1));
        let st1: DfsState = (st.0.update(j, Mark::InProgress), st.1);
        assert(visit_deps_spec(g, (n - 1) as nat, st1, j, 0) == Some(st1));
        let next: DfsState = (st1.0.update(j, Mark::Done), st1.1.push(j));
        assert(next.0 =~= prefix_state(n, j + 1).0);
        assert(next.1 =~= prefix_state(n, j + 1).1);
        assert(visit_spec(g, n, st, j) == Some(prefix_state(n, j + 1)));
        lemma_drive_no_edges(g, roots, j + 1);
    }
}

/// With no edges the order is the input order: a list of distinct nodes
/// comes back as it went in.
pub proof fn lemma_no_edges_keeps_order(nodes: Seq<Seq<char>>)
    requires
        forall|i: int, j: int| 0 <= i < j < nodes.len() ==> nodes[i] != nodes[j],
    ensures
        topo_order(nodes, Seq::empty()) == Some(nodes),
{
    let e = Seq::<(Seq<char>, Seq<char>)>::empty();
    let u = universe(nodes, e);
    assert(crate::topo::edge_ends(e) =~= Seq::<Seq<char>>::empty());
    assert(u =~= nodes);
    let g = incoming(u, e);
    let roots = u.map_values(|x: Seq<char>| first_idx(u, x));
    assert forall|k: int| 0 <= k < roots.len() implies #[trigger] roots[k] == k by {
        crate::topo::lemma_first_idx_at(u, nodes[k], k);
    }
    assert forall|k: int| 0 <= k < g.len() implies (#[trigger] g[k]).len() == 0 by {}
    lemma_drive_no_edges(g, roots, 0);
    let init: DfsState = (Seq::new(g.len(), |k: int| Mark::Unvisited), Seq::empty());
    assert(prefix_state(g.len(), 0).0 =~= init.0);
    assert(prefix_state(g.len(), 0).1 =~= init.1);
    assert(roots.skip(0) =~= roots);
    let o = prefix_state(g.len(), g.len() as int).1;
    assert(o.map_values(|k: int| u[k]) =~= nodes);
}

/// `c` walks along edges and comes back to where it started.
pub open spec fn is_cycle(edges: Seq<(Seq<char>, Seq<char>)>, c: Seq<Seq<char>>) -> bool {
    &&& c.len() >= 2
    &&& c[0] == c.last()
    &&& forall|k: int| 0 <= k < c.len() - 1 ==> edges.contains((#[trigger] c[k], c[k + 1]))
}

/// Cycle detection: a graph with a cycle has no order; the sort reports the
/// cycle instead of a partial order.
pub proof fn lemma_cycle_rejected(
    nodes: Seq<Seq<char>>,
    edges: Seq<(Seq<char>, Seq<char>)>,
    c: Seq<Seq<char>>,
)
    requires
        is_cycle(edges, c),
    ensures
        topo_order(nodes, edges) is None,
{
    if topo_order(nodes, edges) is Some {
        lemma_topo_order_valid(nodes, edges);
        let r = topo_order(nodes, edges)->0;
        let e0 = choose|m: int| 0 <= m < edges.len() && edges[m] == (c[0], c[1]);
        assert(edges.contains((c[0], c[1])));
        let (i0, j0) = choose|i: int, j: int|
            0 <= i < j < r.len() && r[i] == (#[trigger] edges[e0]).0 && r[j] == edges[e0].1;
        let last = c.len() - 1;
        lemma_cycle_walk(edges, c, r, i0, last);
        let jl = choose|j: int| i0 < j < r.len() && #[trigger] r[j] == c[last];
        assert(r[jl] == r[i0]);
    }
}

proof fn lemma_cycle_walk(
    edges: Seq<(Seq<char>, Seq<char>)>,
    c: Seq<Seq<char>>,
    r: Seq<Seq<char>>,
    i0: int,
    k: int,
)
    requires
        is_cycle(edges, c),
        0 <= i0 < r.len(),
        r[i0] == c[0],
        forall|i: int, j: int| 0 <= i < j < r.len() ==> r[i] != r[j],
        forall|m: int|
            0 <= m < edges.len() ==> exists|i: int, j: int|
                0 <= i < j < r.len() && r[i] == (#[trigger] edges[m]).0 && r[j] == edges[m].1,
        1 <= k < c.len(),
    ensures
        exists|j: int| i0 < j < r.len() && #[trigger] r[j] == c[k],
    decreases k,
{
    let prev: int = if k == 1 {
        i0
    } else {
        lemma_cycle_walk(edges, c, r, i0, k - 1);
        choose|j: int| i0 < j < r.len() && #[trigger] r[j] == c[k - 1]
    };
    assert(edges.contains((c[k - 1], c[k])));
    let m = choose|m: int| 0 <= m < edges.len() && edges[m] == (c[k - 1], c[k]);
    let (i, j) = choose|i: int, j: int|
        0 <= i < j < r.len() && r[i] == (#[trigger] edges[m]).0 && r[j] == edges[m].1;
    if i != prev {
        if i < prev {
            assert(r[i] != r[prev]);
        } else {
            assert(r[prev] != r[i]);
        }
    }
    assert(r[j] == c[k]);
}

/// A successful visit leaves started nodes as they were, starts no node it
/// does not finish, and visits no node twice.
proof fn lemma_visit_some(g: Seq<Seq<int>>, fuel: nat, st: DfsState, v: int)
    requires
        graph_wf(g),
        st.0.len() == g.len(),
        visit_spec(g, fuel, st, v) is Some,
    ensures
        ({
            let s = visit_spec(g, fuel, st, v)->0;
            &&& s.0.len() == st.0.len()
            &&& forall|k: int|
                0 <= k < st.0.len() && st.0[k] != Mark::Unvisited ==> #[trigger] s.0[k] == st.0[k]
            &&& forall|k: int|
                0 <= k < st.0.len() && st.0[k] == Mark::Unvisited ==> #[trigger] s.0[k]
                    != Mark::InProgress
            &&& unvisited_count(s.0) <= unvisited_count(st.0)
        }),
    decreases fuel, 0int,
{
    if st.0[v] == Mark::Unvisited {
        let st1: DfsState = (st.0.update(v, Mark::InProgress), st.1);
        lemma_count_update(st.0, v, Mark::InProgress);
        lemma_visit_deps_some(g, (fuel - 1) as nat, st1, v, 0);
        let s = visit_deps_spec(g, (fuel - 1) as nat, st1, v, 0)->0;
        lemma_count_update(s.0, v, Mark::Done);
    }
}

proof fn lemma_visit_deps_some(g: Seq<Seq<int>>, fuel: nat, st: DfsState, v: int, i: int)
    requires
        graph_wf(g),
        st.0.len() == g.len(),
        0 <= v < g.len(),
        0 <= i,
        visit_deps_spec(g, fuel, st, v, i) is Some,
    ensures
        ({
            let s = visit_deps_spec(g, fuel, st, v, i)->0;
            &&& s.0.len() == st.0.len()
            &&& forall|k: int|
                0 <= k < st.0.len() && st.0[k] != Mark::Unvisited ==> #[trigger] s.0[k] == st.0[k]
            &&& forall|k: int|
                0 <= k < st.0.len() && st.0[k] == Mark::Unvisited ==> #[trigger] s.0[k]
                    != Mark::InProgress
            &&& unvisited_count(s.0) <= unvisited_count(st.0)
        }),
    decreases fuel, g[v].len() - i + 1,
{
    if i < g[v].len() {
        lemma_visit_some(g, fuel, st, g[v][i]);
        let s1 = visit_spec(g, fuel, st, g[v][i])->0;
        lemma_visit_deps_some(g, fuel, s1, v, i + 1);
    }
}

/// `p` is a cycle of the prerequisite relation: each node is followed by
/// one of its prerequisites, and the walk ends where it started.
pub open spec fn is_prereq_cycle(g: Seq<Seq<int>>, p: Seq<int>) -> bool {
    &&& p.len() >= 2
    &&& p[0] == p.last()
    &&& forall|k: int|
        0 <= k < p.len() - 1 ==> 0 <= p[k] < g.len() && #[trigger] g[p[k]].contains(p[k + 1])
}

/// The nodes in progress are exactly those on the path `s` of the
/// traversal, each of which is a prerequisite of the one before it.
pub open spec fn on_path(g: Seq<Seq<int>>, st: DfsState, s: Seq<int>) -> bool {
    &&& forall|k: int| 0 <= k < st.0.len() ==> (st.0[k] == Mark::InProgress <==> s.contains(k))
    &&& forall|k: int| 0 <= k < s.len() ==> 0 <= #[trigger] s[k] < g.len()
    &&& forall|k: int| 0 <= k < s.len() - 1 ==> #[trigger] g[s[k]].contains(s[k + 1])
}

proof fn lemma_visit_none(g: Seq<Seq<int>>, fuel: nat, st: DfsState, v: int, s: Seq<int>)
    requires
        graph_wf(g),
        st.0.len() == g.len(),
        0 <= v < g.len(),
        unvisited_count(st.0) <= fuel,
        on_path(g, st, s),
        s.len() > 0 ==> g[s.last()].contains(v),
        visit_spec(g, fuel, st, v) is None,
    ensures
        exists|p: Seq<int>| is_prereq_cycle(g, p),
    decreases fuel, 0int,
{
    if st.0[v] == Mark::InProgress {
        assert(s.contains(v));
        let j = choose|j: int| 0 <= j < s.len() && s[j] == v;
        let p = s.subrange(j, s.len() as int).push(v);
        assert forall|k: int| 0 <= k < p.len() - 1 implies 0 <= p[k] < g.len()
            && #[trigger] g[p[k]].contains(p[k + 1]) by {
            assert(p[k] == s[j + k]);
            if k < p.len() - 2 {
                assert(p[k + 1] == s[j + k + 1]);
            }
        }
        assert(is_prereq_cycle(g, p));
    } else if st.0[v] == Mark::Unvisited {
        lemma_count_update(st.0, v, Mark::InProgress);
        let st1: DfsState = (st.0.update(v, Mark::InProgress), st.1);
        let s1 = s.push(v);
        assert(on_path(g, st1, s1)) by {
            assert forall|k: int| 0 <= k < st1.0.len() implies (st1.0[k] == Mark::InProgress
                <==> s1.contains(k)) by {
                if k == v {
                    assert(s1[s.len() as int] == v);
                } else {
                    assert(st1.0[k] == st.0[k]);
                    assert(st.0[k] == Mark::InProgress <==> s.contains(k));
                    if s.contains(k) {
                        let j = choose|j: int| 0 <= j < s.len() && s[j] == k;
                        assert(s1[j] == k);
                    }
                    if s1.contains(k) {
                        let j = choose|j: int| 0 <= j < s1.len() && s1[j] == k;
                        if j < s.len() {
                            assert(s[j] == k);
                        } else {
                            assert(s1[j] == v);
                        }
                    }
                }
            }
            assert forall|k: int| 0 <= k < s1.len() - 1 implies #[trigger] g[s1[k]].contains(
                s1[k + 1],
            ) by {
                if k < s.len() - 1 {
                    assert(s1[k] == s[k] && s1[k + 1] == s[k + 1]);
                } else {
                    assert(s1[k] == s.last() && s1[k + 1] == v);
                }
            }
        }
        lemma_visit_deps_none(g, (fuel - 1) as nat, st1, v, 0, s1);
    }
}

proof fn lemma_visit_deps_none(
    g: Seq<Seq<int>>,
    fuel: nat,
    st: DfsState,
    v: int,
    i: int,
    s: Seq<int>,
)
    requires
        graph_wf(g),
        st.0.len() == g.len(),
        0 <= v < g.len(),
        0 <= i,
        unvisited_count(st.0) <= fuel,
        on_path(g, st, s),
        s.len() > 0 && s.last() == v,
        visit_deps_spec(g, fuel, st, v, i) is None,
    ensures
        exists|p: Seq<int>| is_prereq_cycle(g, p),
    decreases fuel, g[v].len() - i + 1,
{
    let d = g[v][i];
    assert(g[v].contains(d));
    if visit_spec(g, fuel, st, d) is None {
        lemma_visit_none(g, fuel, st, d, s);
    } else {
        lemma_visit_some(g, fuel, st, d);
        let s1 = visit_spec(g, fuel, st, d)->0;
        assert(on_path(g, s1, s)) by {
            assert forall|k: int| 0 <= k < s1.0.len() implies (s1.0[k] == Mark::InProgress
                <==> s.contains(k)) by {
                if st.0[k] != Mark::Unvisited {
                    assert(s1.0[k] == st.0[k]);
                }
            }
        }
        lemma_visit_deps_none(g, fuel, s1, v, i + 1, s);
    }
}

proof fn lemma_drive_none(g: Seq<Seq<int>>, st: DfsState, roots: Seq<int>)
    requires
        graph_wf(g),
        st.0.len() == g.len(),
        forall|k: int| 0 <= k < st.0.len() ==> #[trigger] st.0[k] != Mark::InProgress,
        forall|j: int| 0 <= j < roots.len() ==> 0 <= #[trigger] roots[j] < g.len(),
        drive_spec(g, g.len(), st, roots) is None,
    ensures
        exists|p: Seq<int>| is_prereq_cycle(g, p),
    decreases roots.len(),
{
    lemma_count_le(st.0);
    let empty = Seq::<int>::empty();
    if visit_spec(g, g.len(), st, roots[0]) is None {
        assert(on_path(g, st, empty));
        lemma_visit_none(g, g.len(), st, roots[0], empty);
    } else {
        lemma_visit_some(g, g.len(), st, roots[0]);
        let s1 = visit_spec(g, g.len(), st, roots[0])->0;
        assert forall|k: int| 0 <= k < s1.0.len() implies #[trigger] s1.0[k] != Mark::InProgress by {
            if st.0[k] != Mark::Unvisited {
                assert(s1.0[k] == st.0[k]);
            }
        }
        let rest = roots.skip(1);
        assert forall|j: int| 0 <= j < rest.len() implies 0 <= #[trigger] rest[j] < g.len() by {
            assert(rest[j] == roots[j + 1]);
        }
        lemma_drive_none(g, s1, rest);
    }
}

/// Cycle detection, the other way: when the sort fails, the edges do hold a
/// cycle.
pub proof fn lemma_failure_has_cycle(nodes: Seq<Seq<char>>, edges: Seq<(Seq<char>, Seq<char>)>)
    requires
        topo_order(nodes, edges) is None,
    ensures
        exists|c: Seq<Seq<char>>| is_cycle(edges, c),
{
    let u = universe(nodes, edges);
    let g = incoming(u, edges);
    let roots = u.map_values(|x: Seq<char>| first_idx(u, x));
    let init: DfsState = (Seq::new(g.len(), |k: int| Mark::Unvisited), Seq::empty());
    assert forall|x: Seq<char>| #[trigger] nodes.contains(x) implies u.contains(x) by {
        let j = choose|j: int| 0 <= j < nodes.len() && nodes[j] == x;
        assert(u[j] == x);
    }
    assert forall|m: int| 0 <= m < edges.len() implies u.contains(#[trigger] edges[m].0) && u.contains(
        edges[m].1,
    ) by {
        lemma_edge_ends_contain(edges, m);
        let ends = crate::topo::edge_ends(edges);
        let j0 = choose|j: int| 0 <= j < ends.len() && ends[j] == edges[m].0;
        let j1 = choose|j: int| 0 <= j < ends.len() && ends[j] == edges[m].1;
        assert(u[nodes.len() + j0] == edges[m].0);
        assert(u[nodes.len() + j1] == edges[m].1);
    }
    assert(graph_wf(g)) by {
        assert forall|v: int, p: int| 0 <= v < g.len() && 0 <= p < g[v].len() implies 0
            <= #[trigger] g[v][p] < g.len() by {
            lemma_prereqs_from(u, edges, v, p);
            let m = choose|m: int|
                0 <= m < edges.len() && prereqs(u, edges, v)[p] == first_idx(u, #[trigger] edges[m].0);
            lemma_first_idx(u, edges[m].0);
        }
    }
    assert forall|j: int| 0 <= j < roots.len() implies 0 <= #[trigger] roots[j] < g.len() by {
        assert(u.contains(u[j]));
        lemma_first_idx(u, u[j]);
    }
    lemma_drive_none(g, init, roots);
    let p = choose|p: Seq<int>| is_prereq_cycle(g, p);
    // each step of `p` goes from a node to one of its prerequisites: an edge
    // taken backwards
    let c = Seq::new(p.len(), |k: int| u[p[p.len() - 1 - k]]);
    assert forall|k: int| 0 <= k < c.len() - 1 implies edges.contains((#[trigger] c[k], c[k + 1])) by {
        let a = p.len() - 2 - k;
        assert(g[p[a]].contains(p[a + 1]));
        let q = choose|q: int| 0 <= q < g[p[a]].len() && g[p[a]][q] == p[a + 1];
        lemma_prereqs_into(u, edges, p[a], q);
    }
    assert(is_cycle(edges, c));
}

proof fn lemma_prereqs_into(u: Seq<Seq<char>>, e: Seq<(Seq<char>, Seq<char>)>, k: int, q: int)
    requires
        0 <= q < prereqs(u, e, k).len(),
        0 <= k < u.len(),
        forall|m: int| 0 <= m < e.len() ==> u.contains(#[trigger] e[m].0) && u.contains(e[m].1),
    ensures
        e.contains((u[prereqs(u, e, k)[q]], u[k])),
    decreases e.len(),
{
    let front = prereqs(u, e, k);
    let before = prereqs(u, e.drop_last(), k);
    if q < before.len() {
        assert forall|m: int| 0 <= m < e.drop_last().len() implies u.contains(
            #[trigger] e.drop_last()[m].0,
        ) && u.contains(e.drop_last()[m].1) by {
            assert(e.drop_last()[m] == e[m]);
        }
        lemma_prereqs_into(u, e.drop_last(), k, q);
        let m = choose|m: int|
            0 <= m < e.drop_last().len() && e.drop_last()[m] == (u[before[q]], u[k]);
        assert(front[q] == before[q]);
        assert(e[m] == e.drop_last()[m]);
    } else {
        let last = e[e.len() - 1];
        assert(first_idx(u, last.1) == k);
        assert(front[q] == first_idx(u, last.0));
        lemma_first_idx(u, last.0);
        lemma_first_idx(u, last.1);
        assert(e[e.len() - 1] == (u[front[q]], u[k]));
    }
}

} // verus!
