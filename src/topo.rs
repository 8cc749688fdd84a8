use vstd::prelude::*;

use crate::text::views;

verus! {

/// The order cannot be found: the graph has a cycle.
#[derive(Debug, Clone, Copy, PartialEq, Eq, Structural)]
pub enum TopoError {
    CycleDetected,
}

/// The state of a node during the traversal.
#[derive(Debug, Clone, Copy, PartialEq, Eq, Structural)]
pub enum Mark {
    Unvisited,
    InProgress,
    Done,
}

/// Marks and the nodes emitted so far.
pub type DfsState = (Seq<Mark>, Seq<int>);

/// Visits `v`: a done node is skipped, an in-progress node is a cycle, and an
/// unvisited node is marked in progress, its prerequisites are visited in
/// order, and it is then marked done and emitted. `fuel` bounds the depth.
pub open spec fn visit_spec(g: Seq<Seq<int>>, fuel: nat, st: DfsState, v: int) -> Option<DfsState>
    decreases fuel, 0int,
{
    if !(0 <= v < st.0.len()) {
        None
    } else if st.0[v] == Mark::Done {
        Some(st)
    } else if st.0[v] == Mark::InProgress {
        None
    } else if fuel == 0 {
        None
    } else {
        match visit_deps_spec(g, (fuel - 1) as nat, (st.0.update(v, Mark::InProgress), st.1), v, 0) {
            Some(s) => Some((s.0.update(v, Mark::Done), s.1.push(v))),
            None => None,
        }
    }
}

/// Visits the prerequisites of `v` from the `i`-th on.
pub open spec fn visit_deps_spec(
    g: Seq<Seq<int>>,
    fuel: nat,
    st: DfsState,
    v: int,
    i: int,
) -> Option<DfsState>
    decreases fuel, g[v].len() - i + 1,
{
    if !(0 <= v < g.len()) || !(0 <= i < g[v].len()) {
        Some(st)
    } else {
        match visit_spec(g, fuel, st, g[v][i]) {
            Some(s) => visit_deps_spec(g, fuel, s, v, i + 1),
            None => None,
        }
    }
}

/// Visits each of `roots` in turn.
pub open spec fn drive_spec(g: Seq<Seq<int>>, fuel: nat, st: DfsState, roots: Seq<int>) -> Option<
    DfsState,
>
    decreases roots.len(),
{
    if roots.len() == 0 {
        Some(st)
    } else {
        match visit_spec(g, fuel, st, roots[0]) {
            Some(s) => drive_spec(g, fuel, s, roots.skip(1)),
            None => None,
        }
    }
}

/// The depth-first order of the nodes `0..g.len()` from `roots`, where `g[v]`
/// lists the prerequisites of `v`; `None` on a cycle.
pub open spec fn dfs_order(g: Seq<Seq<int>>, roots: Seq<int>) -> Option<Seq<int>> {
    match drive_spec(g, g.len(), (Seq::new(g.len(), |k: int| Mark::Unvisited), Seq::empty()), roots) {
        Some(s) => Some(s.1),
        None => None,
    }
}

/// Both ends of every edge, in order.
pub open spec fn edge_ends(edges: Seq<(Seq<char>, Seq<char>)>) -> Seq<Seq<char>>
    decreases edges.len(),
{
    if edges.len() == 0 {
        Seq::empty()
    } else {
        edge_ends(edges.drop_last()) + seq![edges.last().0, edges.last().1]
    }
}

/// Every value the sort meets: the nodes, then the ends of the edges.
pub open spec fn universe(nodes: Seq<Seq<char>>, edges: Seq<(Seq<char>, Seq<char>)>) -> Seq<
    Seq<char>,
> {
    nodes + edge_ends(edges)
}

/// The position of the first occurrence of `x` in `u`.
pub open spec fn first_idx(u: Seq<Seq<char>>, x: Seq<char>) -> int
    decreases u.len(),
{
    if u.len() == 0 || u[0] == x {
        0
    } else {
        1 + first_idx(u.skip(1), x)
    }
}

/// The prerequisites of the value at position `k` of `u`: the source of each
/// edge into it, in edge order.
pub open spec fn prereqs(u: Seq<Seq<char>>, edges: Seq<(Seq<char>, Seq<char>)>, k: int) -> Seq<int>
    decreases edges.len(),
{
    if edges.len() == 0 {
        Seq::empty()
    } else {
        prereqs(u, edges.drop_last(), k) + if first_idx(u, edges.last().1) == k {
            seq![first_idx(u, edges.last().0)]
        } else {
            Seq::empty()
        }
    }
}

/// The incoming-edge index over the positions of `u`.
pub open spec fn incoming(u: Seq<Seq<char>>, edges: Seq<(Seq<char>, Seq<char>)>) -> Seq<Seq<int>> {
    Seq::new(u.len(), |k: int| prereqs(u, edges, k))
}

/// The stable topological order of `nodes` under `edges`, where an edge
/// `(a, b)` puts `a` before `b`: a depth-first traversal from each node in
/// input order, then from each value an edge names that is not a node, that
/// emits a node after its prerequisites. `None` on a cycle.
pub open spec fn topo_order(nodes: Seq<Seq<char>>, edges: Seq<(Seq<char>, Seq<char>)>) -> Option<
    Seq<Seq<char>>,
> {
    let u = universe(nodes, edges);
    let roots = u.map_values(|x: Seq<char>| first_idx(u, x));
    match dfs_order(incoming(u, edges), roots) {
        Some(o) => Some(o.map_values(|k: int| u[k])),
        None => None,
    }
}

/// The views of a list of edges.
pub open spec fn edge_views(e: Seq<(String, String)>) -> Seq<(Seq<char>, Seq<char>)> {
    e.map_values(|p: (String, String)| (p.0@, p.1@))
}

/// The number of unvisited nodes.
pub open spec fn unvisited_count(m: Seq<Mark>) -> nat
    decreases m.len(),
{
    if m.len() == 0 {
        0
    } else {
        unvisited_count(m.drop_last()) + if m.last() == Mark::Unvisited {
            1nat
        } else {
            0nat
        }
    }
}

pub(crate) proof fn lemma_count_update(m: Seq<Mark>, i: int, x: Mark)
    requires
        0 <= i < m.len(),
    ensures
        unvisited_count(m.update(i, x)) + (if m[i] == Mark::Unvisited {
            1nat
        } else {
            0nat
        }) == unvisited_count(m) + (if x == Mark::Unvisited {
            1nat
        } else {
            0nat
        }),
    decreases m.len(),
{
    if i == m.len() - 1 {
        assert(m.update(i, x).drop_last() =~= m.drop_last());
    } else {
        assert(m.update(i, x).drop_last() =~= m.drop_last().update(i, x));
        lemma_count_update(m.drop_last(), i, x);
    }
}

pub(crate) proof fn lemma_count_le(m: Seq<Mark>)
    ensures
        unvisited_count(m) <= m.len(),
    decreases m.len(),
{
    if m.len() > 0 {
        lemma_count_le(m.drop_last());
    }
}

/// The view of an index list as integers.
pub open spec fn ints(v: Seq<usize>) -> Seq<int> {
    v.map_values(|k: usize| k as int)
}

/// The view of an adjacency list as integers.
pub open spec fn graph_view(g: Seq<Vec<usize>>) -> Seq<Seq<int>> {
    g.map_values(|d: Vec<usize>| ints(d@))
}

/// Every prerequisite names a node of the graph.
pub open spec fn graph_wf(g: Seq<Seq<int>>) -> bool {
    forall|v: int, i: int|
        0 <= v < g.len() && 0 <= i < g[v].len() ==> 0 <= #[trigger] g[v][i] < g.len()
}

fn visit(
    g: &Vec<Vec<usize>>,
    marks: &mut Vec<Mark>,
    out: &mut Vec<usize>,
    v: usize,
    Ghost(fuel): Ghost<nat>,
) -> (ok: bool)
    requires
        graph_wf(graph_view(g@)),
        old(marks)@.len() == g@.len(),
        v < g@.len(),
        unvisited_count(old(marks)@) <= fuel,
    ensures
        final(marks)@.len() == old(marks)@.len(),
        unvisited_count(final(marks)@) <= unvisited_count(old(marks)@),
        forall|k: int|
            0 <= k < old(marks)@.len() && old(marks)@[k] != Mark::Unvisited
                ==> #[trigger] final(marks)@[k] == old(marks)@[k],
        (forall|j: int| 0 <= j < old(out)@.len() ==> #[trigger] old(out)@[j] < g@.len()) ==> (
        forall|j: int| 0 <= j < final(out)@.len() ==> #[trigger] final(out)@[j] < g@.len()),
        ({
            let s = visit_spec(graph_view(g@), fuel, (old(marks)@, ints(old(out)@)), v as int);
            &&& ok == s is Some
            &&& ok ==> s->0 == (final(marks)@, ints(final(out)@))
        }),
    decreases fuel,
{
    let ghost gv = graph_view(g@);
    if marks[v] == Mark::Done {
        return true;
    }
    if marks[v] == Mark::InProgress {
        return false;
    }
    proof {
        lemma_count_update(marks@, v as int, Mark::InProgress);
    }
    marks.set(v, Mark::InProgress);
    let ghost start: DfsState = (marks@, ints(out@));
    let deps = &g[v];
    assert(gv[v as int] == ints(deps@));
    let mut i: usize = 0;
    while i < deps.len()
        invariant
            gv == graph_view(g@),
            graph_wf(gv),
            deps == &g@[v as int],
            gv[v as int] == ints(deps@),
            v < g@.len(),
            fuel >= 1,
            old(marks)@.len() == g@.len(),
            old(marks)@[v as int] == Mark::Unvisited,
            start == (old(marks)@.update(v as int, Mark::InProgress), ints(old(out)@)),
            marks@.len() == g@.len(),
            marks@[v as int] == Mark::InProgress,
            (forall|j: int| 0 <= j < old(out)@.len() ==> #[trigger] old(out)@[j] < g@.len()) ==> (
            forall|j: int| 0 <= j < out@.len() ==> #[trigger] out@[j] < g@.len()),
            forall|k: int|
                0 <= k < marks@.len() && k != v && old(marks)@[k] != Mark::Unvisited
                    ==> #[trigger] marks@[k] == old(marks)@[k],
            unvisited_count(marks@) + 1 <= unvisited_count(old(marks)@),
            unvisited_count(marks@) <= fuel - 1,
            i <= deps@.len(),
            visit_deps_spec(gv, (fuel - 1) as nat, start, v as int, 0) == visit_deps_spec(
                gv,
                (fuel - 1) as nat,
                (marks@, ints(out@)),
                v as int,
                i as int,
            ),
        decreases deps@.len() - i,
    {
        let d = deps[i];
        assert(gv[v as int][i as int] == d as int);
        let ok = visit(g, marks, out, d, Ghost((fuel - 1) as nat));
        if !ok {
            return false;
        }
        i = i + 1;
    }
    proof {
        lemma_count_update(marks@, v as int, Mark::Done);
    }
    marks.set(v, Mark::Done);
    let ghost before = out@;
    out.push(v);
    assert(ints(out@) =~= ints(before).push(v as int));
    true
}

proof fn lemma_edge_ends(e: Seq<(Seq<char>, Seq<char>)>)
    ensures
        edge_ends(e).len() == 2 * e.len(),
        forall|i: int|
            0 <= i < e.len() ==> edge_ends(e)[2 * i] == (#[trigger] e[i]).0 && edge_ends(e)[2 * i
                + 1] == e[i].1,
    decreases e.len(),
{
    if e.len() > 0 {
        lemma_edge_ends(e.drop_last());
        assert forall|i: int| 0 <= i < e.len() implies edge_ends(e)[2 * i] == (#[trigger] e[i]).0
            && edge_ends(e)[2 * i + 1] == e[i].1 by {
            if i < e.len() - 1 {
                assert(e.drop_last()[i] == e[i]);
            }
        }
    }
}

pub(crate) proof fn lemma_first_idx_at(u: Seq<Seq<char>>, x: Seq<char>, i: int)
    requires
        0 <= i < u.len(),
        u[i] == x,
        forall|j: int| 0 <= j < i ==> u[j] != x,
    ensures
        first_idx(u, x) == i,
    decreases i,
{
    if i > 0 {
        assert forall|j: int| 0 <= j < i - 1 implies u.skip(1)[j] != x by {
            assert(u.skip(1)[j] == u[j + 1]);
        }
        lemma_first_idx_at(u.skip(1), x, i - 1);
    }
}

fn find_first(u: &Vec<String>, x: &String) -> (r: usize)
    requires
        exists|i: int| 0 <= i < u@.len() && #[trigger] u@[i]@ == x@,
    ensures
        r < u@.len(),
        r == first_idx(views(u@), x@),
{
    let ghost uv = views(u@);
    let mut i: usize = 0;
    while i < u.len()
        invariant
            uv == views(u@),
            i <= u@.len(),
            exists|k: int| 0 <= k < u@.len() && #[trigger] u@[k]@ == x@,
            forall|j: int| 0 <= j < i ==> #[trigger] u@[j]@ != x@,
        decreases u@.len() - i,
    {
        if u[i] == *x {
            proof {
                assert forall|j: int| 0 <= j < i implies uv[j] != x@ by {
                    assert(u@[j]@ != x@);
                }
                lemma_first_idx_at(uv, x@, i as int);
            }
            return i;
        }
        i = i + 1;
    }
    let ghost k = choose|k: int| 0 <= k < u@.len() && #[trigger] u@[k]@ == x@;
    assert(u@[k]@ != x@);
    0
}

/// Orders `nodes` so that for every edge `(a, b)`, `a` comes before `b`.
/// Nodes are taken in input order and each is emitted after its
/// prerequisites, so the input order decides wherever the edges leave a
/// choice. A value an edge names that is not among the nodes is kept in the
/// order too. A cycle is an error, with no partial order.
pub fn stable_topo_sort(nodes: &[String], edges: &[(String, String)]) -> (r: Result<
    Vec<String>,
    TopoError,
>)
    ensures
        match topo_order(views(nodes@), edge_views(edges@)) {
            Some(o) => r is Ok && views(r->Ok_0@) == o,
            None => r == Err::<Vec<String>, TopoError>(TopoError::CycleDetected),
        },
{
    let ghost nv = views(nodes@);
    let ghost ev = edge_views(edges@);
    let ghost uv = universe(nv, ev);
    proof {
        lemma_edge_ends(ev);
    }
    // every value, nodes first
    let mut u: Vec<String> = Vec::new();
    let mut i: usize = 0;
    while i < nodes.len()
        invariant
            nv == views(nodes@),
            i <= nodes@.len(),
            views(u@) == nv.take(i as int),
        decreases nodes@.len() - i,
    {
        let ghost prev = u@;
        let c = nodes[i].clone();
        u.push(c);
        proof {
            crate::text::lemma_views_push(prev, c);
            assert(nv.take(i as int + 1) =~= nv.take(i as int).push(nv[i as int]));
        }
        i = i + 1;
    }
    assert(nv.take(nodes@.len() as int) =~= nv);
    let mut i: usize = 0;
    while i < edges.len()
        invariant
            nv == views(nodes@),
            ev == edge_views(edges@),
            i <= edges@.len(),
            views(u@) == nv + edge_ends(ev.take(i as int)),
        decreases edges@.len() - i,
    {
        let ghost prev = u@;
        let a = edges[i].0.clone();
        let b = edges[i].1.clone();
        u.push(a);
        proof {
            crate::text::lemma_views_push(prev, a);
        }
        let ghost mid = u@;
        u.push(b);
        proof {
            crate::text::lemma_views_push(mid, b);
            assert(ev.take(i as int + 1).drop_last() =~= ev.take(i as int));
            assert(views(u@) =~= nv + edge_ends(ev.take(i as int + 1)));
        }
        i = i + 1;
    }
    assert(ev.take(edges@.len() as int) =~= ev);
    assert(views(u@) == uv);
    let n = u.len();
    // each edge as a pair of positions
    let mut ei: Vec<(usize, usize)> = Vec::new();
    let mut i: usize = 0;
    while i < edges.len()
        invariant
            nv == views(nodes@),
            ev == edge_views(edges@),
            uv == universe(nv, ev),
            views(u@) == uv,
            n == u@.len(),
            edge_ends(ev).len() == 2 * ev.len(),
            forall|m: int|
                0 <= m < ev.len() ==> edge_ends(ev)[2 * m] == (#[trigger] ev[m]).0 && edge_ends(
                    ev,
                )[2 * m + 1] == ev[m].1,
            i <= edges@.len(),
            ei@.len() == i,
            forall|m: int|
                0 <= m < i ==> (#[trigger] ei@[m]).0 < n && ei@[m].1 < n && ei@[m].0 == first_idx(
                    uv,
                    ev[m].0,
                ) && ei@[m].1 == first_idx(uv, ev[m].1),
        decreases edges@.len() - i,
    {
        let ghost p = nodes@.len() + 2 * i;
        assert(ev[i as int].0 == edge_ends(ev)[2 * i]);
        assert(uv[p] == ev[i as int].0);
        assert(nv.len() == nodes@.len() && ev.len() == edges@.len());
        assert(views(u@).len() == u@.len());
        assert(p + 1 < u@.len());
        assert(views(u@)[p] == u@[p]@);
        assert(views(u@)[p + 1] == u@[p + 1]@);
        assert(ev[i as int] == (edges@[i as int].0@, edges@[i as int].1@));
        assert(u@[p]@ == edges@[i as int].0@);
        assert(u@[p + 1]@ == edges@[i as int].1@);
        let a = find_first(&u, &edges[i].0);
        let b = find_first(&u, &edges[i].1);
        ei.push((a, b));
        i = i + 1;
    }
    // the incoming-edge index: the sources of the edges into each position
    let mut g: Vec<Vec<usize>> = Vec::new();
    let mut k: usize = 0;
    while k < n
        invariant
            ev == edge_views(edges@),
            views(u@) == uv,
            n == u@.len(),
            ei@.len() == ev.len(),
            forall|m: int|
                0 <= m < ei@.len() ==> (#[trigger] ei@[m]).0 < n && ei@[m].1 < n && ei@[m].0
                    == first_idx(uv, ev[m].0) && ei@[m].1 == first_idx(uv, ev[m].1),
            k <= n,
            g@.len() == k,
            forall|k2: int| 0 <= k2 < k ==> #[trigger] graph_view(g@)[k2] == prereqs(uv, ev, k2),
            forall|k2: int, j: int|
                0 <= k2 < k && 0 <= j < graph_view(g@)[k2].len() ==> 0 <= #[trigger] graph_view(
                    g@,
                )[k2][j] < n,
        decreases n - k,
    {
        let mut inner: Vec<usize> = Vec::new();
        let mut m: usize = 0;
        while m < ei.len()
            invariant
                ev == edge_views(edges@),
                n == u@.len(),
                ei@.len() == ev.len(),
                forall|m2: int|
                    0 <= m2 < ei@.len() ==> (#[trigger] ei@[m2]).0 < n && ei@[m2].1 < n
                        && ei@[m2].0 == first_idx(uv, ev[m2].0) && ei@[m2].1 == first_idx(
                        uv,
                        ev[m2].1,
                    ),
                m <= ei@.len(),
                ints(inner@) == prereqs(uv, ev.take(m as int), k as int),
                forall|j: int| 0 <= j < inner@.len() ==> #[trigger] inner@[j] < n,
            decreases ei@.len() - m,
        {
            let ghost prev = inner@;
            if ei[m].1 == k {
                inner.push(ei[m].0);
            }
            assert(ev.take(m as int + 1).drop_last() =~= ev.take(m as int));
            assert(ints(inner@) =~= prereqs(uv, ev.take(m as int + 1), k as int));
            m = m + 1;
        }
        assert(ev.take(ei@.len() as int) =~= ev);
        let ghost prev = g@;
        g.push(inner);
        assert(graph_view(g@) =~= graph_view(prev).push(ints(inner@)));
        k = k + 1;
    }
    let ghost gv = graph_view(g@);
    assert(gv =~= incoming(uv, ev));
    assert(graph_wf(gv));
    // the traversal
    let mut marks: Vec<Mark> = Vec::new();
    let mut k: usize = 0;
    while k < n
        invariant
            k <= n,
            marks@ == Seq::new(k as nat, |j: int| Mark::Unvisited),
        decreases n - k,
    {
        marks.push(Mark::Unvisited);
        assert(marks@ =~= Seq::new(k as nat + 1, |j: int| Mark::Unvisited));
        k = k + 1;
    }
    let ghost init: DfsState = (marks@, Seq::empty());
    let ghost roots = uv.map_values(|x: Seq<char>| first_idx(uv, x));
    let mut out: Vec<usize> = Vec::new();
    assert(roots.skip(0) =~= roots);
    assert(init.0 =~= Seq::new(gv.len(), |k: int| Mark::Unvisited));
    assert(ints(out@) =~= Seq::<int>::empty());
    let mut j: usize = 0;
    while j < n
        invariant
            nv == views(nodes@),
            views(u@) == uv,
            uv == universe(nv, ev),
            n == u@.len(),
            g@.len() == n,
            gv == graph_view(g@),
            gv == incoming(uv, ev),
            ev == edge_views(edges@),
            init == (Seq::new(gv.len(), |k: int| Mark::Unvisited), Seq::<int>::empty()),
            graph_wf(gv),
            roots == uv.map_values(|x: Seq<char>| first_idx(uv, x)),
            j <= n,
            marks@.len() == n,
            forall|m: int| 0 <= m < out@.len() ==> #[trigger] out@[m] < n,
            drive_spec(gv, n as nat, init, roots) == drive_spec(
                gv,
                n as nat,
                (marks@, ints(out@)),
                roots.skip(j as int),
            ),
        decreases n - j,
    {
        assert(views(u@)[j as int] == u@[j as int]@);
        let root = find_first(&u, &u[j]);
        assert(roots.skip(j as int)[0] == root as int);
        assert(roots.skip(j as int).skip(1) =~= roots.skip(j as int + 1));
        proof {
            lemma_count_le(marks@);
        }
        let ok = visit(&g, &mut marks, &mut out, root, Ghost(n as nat));
        if !ok {
            return Err(TopoError::CycleDetected);
        }
        j = j + 1;
    }
    assert(roots.skip(n as int) =~= Seq::<int>::empty());
    let ghost o = ints(out@);
    let mut r: Vec<String> = Vec::new();
    let mut m: usize = 0;
    while m < out.len()
        invariant
            views(u@) == uv,
            n == u@.len(),
            o == ints(out@),
            forall|m2: int| 0 <= m2 < out@.len() ==> #[trigger] out@[m2] < n,
            m <= out@.len(),
            views(r@) == o.take(m as int).map_values(|k: int| uv[k]),
        decreases out@.len() - m,
    {
        let ghost prev = r@;
        let c = u[out[m]].clone();
        r.push(c);
        proof {
            crate::text::lemma_views_push(prev, c);
        }
        assert(o.take(m as int + 1).map_values(|k: int| uv[k]) =~= o.take(m as int).map_values(
            |k: int| uv[k],
        ).push(uv[o[m as int]]));
        m = m + 1;
    }
    assert(o.take(out@.len() as int) =~= o);
    Ok(r)
}

} // verus!
