use vstd::prelude::*;

verus! {

/// A crate's dependency on another crate: the other crate's index and the name
/// it is known by.
#[derive(Clone, Debug)]
pub struct Dependency {
    pub cr_idx: usize,
    pub alias: String,
}

/// The dependency graph: for each crate, the indices of the crates it depends on,
/// in order.
pub open spec fn dep_graph(deps: Seq<Vec<Dependency>>) -> Seq<Seq<usize>> {
    deps.map_values(|v: Vec<Dependency>| v@.map_values(|d: Dependency| d.cr_idx))
}

/// `path` is a walk along dependency edges, each step from a crate to one of
/// its dependencies.
pub open spec fn is_walk(g: Seq<Seq<usize>>, path: Seq<usize>) -> bool {
    &&& path.len() > 0
    &&& forall|k: int| 0 <= k < path.len() - 1 ==> {
        &&& 0 <= #[trigger] path[k] < g.len()
        &&& g[path[k] as int].contains(path[k + 1])
    }
}

/// Crate `b` is reached from crate `a` by following dependencies.
pub open spec fn reaches(g: Seq<Seq<usize>>, a: usize, b: usize) -> bool {
    exists|path: Seq<usize>| is_walk(g, path) && path[0] == a && path.last() == b
}

/// `rank` strictly decreases along every dependency edge out of a crate reached
/// from the entry crate `0`, and every such crate has an entry in `g`: the
/// reachable part of the graph is finite and free of cycles.
pub open spec fn ranks_reachable(g: Seq<Seq<usize>>, rank: spec_fn(usize) -> nat) -> bool {
    forall|n: usize| #[trigger] reaches(g, 0, n) ==> {
        &&& n < g.len()
        &&& forall|j: int| 0 <= j < g[n as int].len() ==> #[trigger] rank(g[n as int][j]) < rank(n)
    }
}

/// The crates reachable from the entry crate form a finite graph without
/// cycles, so the depth-first walk from it ends.
pub open spec fn acyclic_from_entry(g: Seq<Seq<usize>>) -> bool {
    exists|rank: spec_fn(usize) -> nat| ranks_reachable(g, rank)
}

/// Depth-first visit of `n` with `list` visited already: the dependencies of `n`
/// are visited in order (those already listed are passed over), then `n` is
/// appended.
pub open spec fn visit(g: Seq<Seq<usize>>, rank: spec_fn(usize) -> nat, list: Seq<usize>, n: usize) -> Seq<usize>
    decreases rank(n), g[n as int].len() + 2,
{
    visit_deps(g, rank, list, n, 0).push(n)
}

/// Visits the dependencies of `n` from the `j`-th on.
pub open spec fn visit_deps(
    g: Seq<Seq<usize>>,
    rank: spec_fn(usize) -> nat,
    list: Seq<usize>,
    n: usize,
    j: int,
) -> Seq<usize>
    decreases rank(n), 1 + g[n as int].len() - j,
{
    if n >= g.len() || j < 0 || j >= g[n as int].len() {
        list
    } else {
        let d = g[n as int][j];
        if list.contains(d) || rank(d) >= rank(n) {
            visit_deps(g, rank, list, n, j + 1)
        } else {
            visit_deps(g, rank, visit(g, rank, list, d), n, j + 1)
        }
    }
}

/// A rank that witnesses `acyclic_from_entry`.
pub open spec fn entry_rank(g: Seq<Seq<usize>>) -> spec_fn(usize) -> nat {
    choose|rank: spec_fn(usize) -> nat| ranks_reachable(g, rank)
}

/// The crates reached from the entry crate `0`, in depth-first post-order:
/// every crate after all of its dependencies.
pub open spec fn post_order(g: Seq<Seq<usize>>) -> Seq<usize> {
    visit(g, entry_rank(g), seq![], 0)
}

fn contains_idx(list: &Vec<usize>, x: usize) -> (r: bool)
    ensures
        r == list@.contains(x),
{
    let mut i: usize = 0;
    while i < list.len()
        invariant
            i <= list.len(),
            forall|k: int| 0 <= k < i ==> list@[k] != x,
        decreases list.len() - i,
    {
        if list[i] == x {
            return true;
        }
        i = i + 1;
    }
    false
}

proof fn lemma_reach_step(g: Seq<Seq<usize>>, a: usize, n: usize, j: int)
    requires
        reaches(g, a, n),
        n < g.len(),
        0 <= j < g[n as int].len(),
    ensures
        reaches(g, a, g[n as int][j]),
{
    let path = choose|path: Seq<usize>| is_walk(g, path) && path[0] == a && path.last() == n;
    let p2 = path.push(g[n as int][j]);
    assert forall|k: int| 0 <= k < p2.len() - 1 implies {
        &&& 0 <= #[trigger] p2[k] < g.len()
        &&& g[p2[k] as int].contains(p2[k + 1])
    } by {
        if k == p2.len() - 2 {
            assert(p2[k] == n);
            assert(g[n as int][j] == p2[k + 1]);
        } else {
            assert(p2[k] == path[k]);
            assert(p2[k + 1] == path[k + 1]);
        }
    }
    assert(is_walk(g, p2) && p2[0] == a && p2.last() == g[n as int][j]);
}

proof fn lemma_reach_self(g: Seq<Seq<usize>>, a: usize)
    ensures
        reaches(g, a, a),
{
    let p = seq![a];
    assert(is_walk(g, p) && p[0] == a && p.last() == a);
}

fn get_deps_post_impl(
    list: &mut Vec<usize>,
    cr_idx: usize,
    deps: &Vec<Vec<Dependency>>,
    Ghost(rank): Ghost<spec_fn(usize) -> nat>,
)
    requires
        ranks_reachable(dep_graph(deps@), rank),
        reaches(dep_graph(deps@), 0, cr_idx),
    ensures
        final(list)@ == visit(dep_graph(deps@), rank, old(list)@, cr_idx),
    decreases rank(cr_idx),
{
    let ghost g = dep_graph(deps@);
    assert(cr_idx < g.len());
    let ghost list0 = list@;
    let n = deps[cr_idx].len();
    assert(g[cr_idx as int].len() == n);
    let mut j: usize = 0;
    while j < n
        invariant
            g == dep_graph(deps@),
            ranks_reachable(g, rank),
            reaches(g, 0, cr_idx),
            cr_idx < g.len(),
            n == deps@[cr_idx as int]@.len(),
            g[cr_idx as int].len() == n,
            j <= n,
            visit_deps(g, rank, list0, cr_idx, 0) == visit_deps(g, rank, list@, cr_idx, j as int),
        decreases n - j,
    {
        let d = deps[cr_idx][j].cr_idx;
        assert(d == g[cr_idx as int][j as int]);
        if !contains_idx(list, d) {
            proof {
                lemma_reach_step(g, 0, cr_idx, j as int);
            }
            get_deps_post_impl(list, d, deps, Ghost(rank));
        }
        j = j + 1;
    }
    list.push(cr_idx);
}

/// The crates reached from the entry crate `0` along dependencies, in
/// depth-first post-order: each crate after all of its dependencies.
pub fn get_deps_post_order(deps: &Vec<Vec<Dependency>>) -> (v: Vec<usize>)
    requires
        acyclic_from_entry(dep_graph(deps@)),
    ensures
        v@ == post_order(dep_graph(deps@)),
{
    let ghost g = dep_graph(deps@);
    let ghost rank = entry_rank(g);
    proof {
        lemma_reach_self(g, 0);
    }
    let mut v = Vec::new();
    get_deps_post_impl(&mut v, 0, deps, Ghost(rank));
    v
}

} // verus!

verus! {

/// Every listed crate is a known crate whose dependencies are all listed before it.
pub open spec fn deps_listed_before(g: Seq<Seq<usize>>, list: Seq<usize>) -> bool {
    forall|i: int| 0 <= i < list.len() ==> {
        &&& #[trigger] list[i] < g.len()
        &&& forall|j: int| 0 <= j < g[list[i] as int].len() ==> list.take(i).contains(#[trigger] g[list[i] as int][j])
    }
}

/// What every prefix of the walk keeps: no crate twice, every crate reached
/// from the entry crate, every crate after its dependencies.
pub open spec fn walk_state(g: Seq<Seq<usize>>, list: Seq<usize>) -> bool {
    &&& list.no_duplicates()
    &&& forall|i: int| 0 <= i < list.len() ==> reaches(g, 0, #[trigger] list[i])
    &&& deps_listed_before(g, list)
}

proof fn lemma_reach_trans(g: Seq<Seq<usize>>, a: usize, b: usize, c: usize)
    requires
        reaches(g, a, b),
        reaches(g, b, c),
    ensures
        reaches(g, a, c),
{
    let p1 = choose|path: Seq<usize>| is_walk(g, path) && path[0] == a && path.last() == b;
    let p2 = choose|path: Seq<usize>| is_walk(g, path) && path[0] == b && path.last() == c;
    let p = p1 + p2.drop_first();
    assert forall|k: int| 0 <= k < p.len() - 1 implies {
        &&& 0 <= #[trigger] p[k] < g.len()
        &&& g[p[k] as int].contains(p[k + 1])
    } by {
        if k < p1.len() - 1 {
            assert(p[k] == p1[k] && p[k + 1] == p1[k + 1]);
        } else if k == p1.len() - 1 {
            assert(p[k] == b && p2[0] == b);
            assert(p[k + 1] == p2[1]);
        } else {
            let m = k - p1.len() + 1;
            assert(p[k] == p2[m] && p[k + 1] == p2[m + 1]);
        }
    }
    if p2.len() == 1 {
        assert(p.last() == b && b == c);
    } else {
        assert(p.last() == p2.last());
    }
    assert(is_walk(g, p) && p[0] == a && p.last() == c);
}

proof fn lemma_rank_walk(g: Seq<Seq<usize>>, rank: spec_fn(usize) -> nat, path: Seq<usize>)
    requires
        ranks_reachable(g, rank),
        is_walk(g, path),
        reaches(g, 0, path[0]),
    ensures
        rank(path.last()) <= rank(path[0]),
        reaches(g, 0, path.last()),
    decreases path.len(),
{
    if path.len() > 1 {
        let q = path.drop_last();
        assert(is_walk(g, q)) by {
            assert forall|k: int| 0 <= k < q.len() - 1 implies {
                &&& 0 <= #[trigger] q[k] < g.len()
                &&& g[q[k] as int].contains(q[k + 1])
            } by {
                assert(q[k] == path[k] && q[k + 1] == path[k + 1]);
            }
        }
        lemma_rank_walk(g, rank, q);
        let k = path.len() - 2;
        assert(path[k] == q.last());
        assert(0 <= path[k] < g.len() && g[path[k] as int].contains(path[k + 1]));
        let row = g[path[k] as int];
        let j = choose|j: int| 0 <= j < row.len() && #[trigger] row[j] == path[k + 1];
        assert(rank(g[path[k] as int][j]) < rank(path[k]));
        lemma_reach_step(g, 0, path[k], j);
    }
}

proof fn lemma_visit(g: Seq<Seq<usize>>, rank: spec_fn(usize) -> nat, list: Seq<usize>, n: usize)
    requires
        ranks_reachable(g, rank),
        reaches(g, 0, n),
        !list.contains(n),
        walk_state(g, list),
    ensures
        ({
            let out = visit(g, rank, list, n);
            &&& out.len() > list.len()
            &&& out.take(list.len() as int) == list
            &&& out.last() == n
            &&& walk_state(g, out)
            &&& forall|k: int| list.len() <= k < out.len() ==> reaches(g, n, #[trigger] out[k]) && rank(out[k]) <= rank(n)
        }),
    decreases rank(n), g[n as int].len() + 2,
{
    lemma_visit_deps(g, rank, list, n, 0);
    let mid = visit_deps(g, rank, list, n, 0);
    let out = mid.push(n);
    assert(out.take(list.len() as int) =~= mid.take(list.len() as int));
    assert(out.take(mid.len() as int) =~= mid);
    assert(out.no_duplicates()) by {
        assert forall|i: int, k: int| 0 <= i < k < out.len() implies out[i] != out[k] by {
            if k == mid.len() {
                assert(out[i] == mid[i]);
                assert(mid.contains(mid[i]));
            } else {
                assert(out[i] == mid[i] && out[k] == mid[k]);
            }
        }
    }
    assert(deps_listed_before(g, out)) by {
        assert forall|i: int| 0 <= i < out.len() implies {
            &&& #[trigger] out[i] < g.len()
            &&& forall|j: int| 0 <= j < g[out[i] as int].len() ==> out.take(i).contains(#[trigger] g[out[i] as int][j])
        } by {
            if i < mid.len() {
                assert(out[i] == mid[i]);
                assert(out.take(i) =~= mid.take(i));
            } else {
                assert(out.take(i) =~= mid);
            }
        }
    }
    lemma_reach_self(g, n);
    assert forall|k: int| list.len() <= k < out.len() implies reaches(g, n, #[trigger] out[k]) && rank(out[k]) <= rank(n) by {
        if k < mid.len() {
            assert(out[k] == mid[k]);
        }
    }
    assert forall|i: int| 0 <= i < out.len() implies reaches(g, 0, #[trigger] out[i]) by {
        if i < mid.len() {
            assert(out[i] == mid[i]);
        }
    }
}

proof fn lemma_visit_deps(g: Seq<Seq<usize>>, rank: spec_fn(usize) -> nat, list: Seq<usize>, n: usize, j: int)
    requires
        ranks_reachable(g, rank),
        reaches(g, 0, n),
        n < g.len(),
        0 <= j <= g[n as int].len(),
        !list.contains(n),
        walk_state(g, list),
        forall|i: int| 0 <= i < j ==> list.contains(#[trigger] g[n as int][i]),
    ensures
        ({
            let out = visit_deps(g, rank, list, n, j);
            &&& out.len() >= list.len()
            &&& out.take(list.len() as int) == list
            &&& !out.contains(n)
            &&& walk_state(g, out)
            &&& forall|i: int| 0 <= i < g[n as int].len() ==> out.contains(#[trigger] g[n as int][i])
            &&& forall|k: int| list.len() <= k < out.len() ==> reaches(g, n, #[trigger] out[k]) && rank(out[k]) < rank(n)
        }),
    decreases rank(n), 1 + g[n as int].len() - j,
{
    if j == g[n as int].len() {
        assert(list.take(list.len() as int) =~= list);
    } else {
        let d = g[n as int][j];
        assert(rank(d) < rank(n));
        lemma_reach_step(g, 0, n, j);
        lemma_reach_self(g, n);
        lemma_reach_step(g, n, n, j);
        if list.contains(d) {
            lemma_visit_deps(g, rank, list, n, j + 1);
        } else {
            lemma_visit(g, rank, list, d);
            let l2 = visit(g, rank, list, d);
            assert(!l2.contains(n)) by {
                if l2.contains(n) {
                    let k = choose|k: int| 0 <= k < l2.len() && l2[k] == n;
                    if k < list.len() {
                        assert(l2.take(list.len() as int)[k] == n);
                        assert(list.contains(n));
                    } else {
                        assert(rank(n) <= rank(d));
                    }
                }
            }
            assert forall|i: int| 0 <= i < j + 1 implies l2.contains(#[trigger] g[n as int][i]) by {
                if i < j {
                    let k = choose|k: int| 0 <= k < list.len() && list[k] == g[n as int][i];
                    assert(l2.take(list.len() as int)[k] == list[k]);
                    assert(l2[k] == g[n as int][i]);
                } else {
                    assert(l2.last() == d);
                }
            }
            lemma_visit_deps(g, rank, l2, n, j + 1);
            let out = visit_deps(g, rank, l2, n, j + 1);
            assert(out.take(list.len() as int) =~= out.take(l2.len() as int).take(list.len() as int));
            assert forall|k: int| list.len() <= k < out.len() implies reaches(g, n, #[trigger] out[k]) && rank(out[k]) < rank(n) by {
                if k < l2.len() {
                    assert(out.take(l2.len() as int)[k] == l2[k]);
                    assert(out[k] == l2[k]);
                    lemma_reach_trans(g, n, d, out[k]);
                }
            }
        }
    }
}


/// Ranks given to the crates of `done`: each is a known crate whose
/// dependencies are all ranked lower, and every rank is below the number of
/// crates done.
#[verifier::opaque]
spec fn ranked(g: Seq<Seq<usize>>, done: Seq<usize>, rk: Map<usize, nat>) -> bool {
    &&& forall|v: usize| rk.dom().contains(v) <==> done.contains(v)
    &&& forall|v: usize| #[trigger] rk.dom().contains(v) ==> {
        &&& v < g.len()
        &&& rk[v] < done.len()
        &&& forall|j: int| 0 <= j < g[v as int].len() ==> rk.dom().contains(#[trigger] g[v as int][j]) && rk[g[v as int][j]] < rk[v]
    }
}

/// A walk from the entry crate through known crates, none twice.
#[verifier::opaque]
spec fn on_walk(g: Seq<Seq<usize>>, path: Seq<usize>) -> bool {
    &&& is_walk(g, path)
    &&& path[0] == 0
    &&& path.no_duplicates()
    &&& forall|k: int| 0 <= k < path.len() ==> #[trigger] path[k] < g.len()
}

proof fn lemma_walk_prefix(g: Seq<Seq<usize>>, path: Seq<usize>, k: int)
    requires
        is_walk(g, path),
        0 < k <= path.len(),
    ensures
        is_walk(g, path.take(k)),
{
    let q = path.take(k);
    assert forall|i: int| 0 <= i < q.len() - 1 implies {
        &&& 0 <= #[trigger] q[i] < g.len()
        &&& g[q[i] as int].contains(q[i + 1])
    } by {
        assert(q[i] == path[i] && q[i + 1] == path[i + 1]);
    }
}

proof fn lemma_walk_suffix(g: Seq<Seq<usize>>, path: Seq<usize>, m: int)
    requires
        is_walk(g, path),
        0 <= m < path.len(),
    ensures
        is_walk(g, path.skip(m)),
{
    let q = path.skip(m);
    assert forall|i: int| 0 <= i < q.len() - 1 implies {
        &&& 0 <= #[trigger] q[i] < g.len()
        &&& g[q[i] as int].contains(q[i + 1])
    } by {
        assert(q[i] == path[i + m] && q[i + 1] == path[i + m + 1]);
    }
}

/// Every crate of a walk from the entry crate is reached from it.
proof fn lemma_walk_reaches(g: Seq<Seq<usize>>, path: Seq<usize>, k: int)
    requires
        is_walk(g, path),
        path[0] == 0,
        0 <= k < path.len(),
    ensures
        reaches(g, 0, path[k]),
{
    lemma_walk_prefix(g, path, k + 1);
    let q = path.take(k + 1);
    assert(is_walk(g, q) && q[0] == 0 && q.last() == path[k]);
}

/// A dependency outside the known crates, reached from the entry crate, rules
/// out any rank.
proof fn lemma_unknown_dep(g: Seq<Seq<usize>>, path: Seq<usize>, j: int)
    requires
        on_walk(g, path),
        0 <= j < g[path.last() as int].len(),
        g[path.last() as int][j] >= g.len(),
    ensures
        !acyclic_from_entry(g),
{
    reveal(on_walk);
    if acyclic_from_entry(g) {
        let rank = choose|rank: spec_fn(usize) -> nat| ranks_reachable(g, rank);
        lemma_walk_reaches(g, path, path.len() - 1);
        lemma_reach_step(g, 0, path.last(), j);
        assert(reaches(g, 0, g[path.last() as int][j]));
    }
}

/// An edge back to a crate of a walk from the entry crate closes a cycle,
/// which rules out any rank.
proof fn lemma_back_edge(g: Seq<Seq<usize>>, path: Seq<usize>, j: int, m: int)
    requires
        on_walk(g, path),
        0 <= j < g[path.last() as int].len(),
        0 <= m < path.len(),
        path[m] == g[path.last() as int][j],
    ensures
        !acyclic_from_entry(g),
{
    reveal(on_walk);
    if acyclic_from_entry(g) {
        let rank = choose|rank: spec_fn(usize) -> nat| ranks_reachable(g, rank);
        assert(ranks_reachable(g, rank));
        lemma_walk_reaches(g, path, m);
        lemma_walk_suffix(g, path, m);
        let q = path.skip(m);
        assert(q[0] == path[m]);
        assert(q.last() == path.last());
        lemma_rank_walk(g, rank, q);
        assert(reaches(g, 0, path.last()));
        assert(rank(g[path.last() as int][j]) < rank(path.last()));
    }
}

proof fn lemma_walk_ranked(g: Seq<Seq<usize>>, done: Seq<usize>, rk: Map<usize, nat>, path: Seq<usize>, k: int)
    requires
        ranked(g, done, rk),
        is_walk(g, path),
        rk.dom().contains(path[0]),
        0 <= k < path.len(),
    ensures
        rk.dom().contains(path[k]),
    decreases k,
{
    reveal(ranked);
    if k > 0 {
        lemma_walk_ranked(g, done, rk, path, k - 1);
        assert(0 <= path[k - 1] < g.len() && g[path[k - 1] as int].contains(path[k]));
        let row = g[path[k - 1] as int];
        let j = choose|j: int| 0 <= j < row.len() && #[trigger] row[j] == path[k];
        assert(rk.dom().contains(g[path[k - 1] as int][j]));
    }
}

/// Ranks for the entry crate and all it reaches witness `acyclic_from_entry`.
proof fn lemma_ranked_acyclic(g: Seq<Seq<usize>>, done: Seq<usize>, rk: Map<usize, nat>)
    requires
        ranked(g, done, rk),
        rk.dom().contains(0),
    ensures
        acyclic_from_entry(g),
{
    reveal(ranked);
    let rank = |v: usize| if rk.dom().contains(v) { rk[v] } else { 0nat };
    assert forall|n: usize| #[trigger] reaches(g, 0, n) implies {
        &&& n < g.len()
        &&& forall|j: int| 0 <= j < g[n as int].len() ==> #[trigger] rank(g[n as int][j]) < rank(n)
    } by {
        let p = choose|path: Seq<usize>| is_walk(g, path) && path[0] == 0 && path.last() == n;
        lemma_walk_ranked(g, done, rk, p, p.len() - 1);
        assert(rk.dom().contains(n));
    }
    assert(ranks_reachable(g, rank));
}

/// Ranking a crate whose dependencies are all ranked, with the next rank,
/// keeps the ranks valid.
proof fn lemma_rank_added(g: Seq<Seq<usize>>, done: Seq<usize>, rk: Map<usize, nat>, x: usize)
    requires
        ranked(g, done, rk),
        !done.contains(x),
        x < g.len(),
        forall|i: int| 0 <= i < g[x as int].len() ==> rk.dom().contains(#[trigger] g[x as int][i]),
    ensures
        ranked(g, done.push(x), rk.insert(x, done.len() as nat)),
{
    reveal(ranked);
    let rk2 = rk.insert(x, done.len() as nat);
    let d2 = done.push(x);
    assert forall|v: usize| rk2.dom().contains(v) <==> d2.contains(v) by {
        if done.contains(v) {
            let k = choose|k: int| 0 <= k < done.len() && done[k] == v;
            assert(d2[k] == v);
        }
        if d2.contains(v) && v != x {
            let k = choose|k: int| 0 <= k < d2.len() && d2[k] == v;
            assert(k < done.len());
            assert(done[k] == v);
        }
        if v == x {
            assert(d2[done.len() as int] == x);
        }
    }
    assert forall|v: usize| #[trigger] rk2.dom().contains(v) implies {
        &&& v < g.len()
        &&& rk2[v] < d2.len()
        &&& forall|i: int| 0 <= i < g[v as int].len() ==> rk2.dom().contains(#[trigger] g[v as int][i]) && rk2[g[v as int][i]] < rk2[v]
    } by {
        if v == x {
            assert forall|i: int| 0 <= i < g[v as int].len() implies rk2.dom().contains(#[trigger] g[v as int][i]) && rk2[g[v as int][i]] < rk2[v] by {
                let w = g[x as int][i];
                assert(rk.dom().contains(w));
                assert(w != x);
            }
        } else {
            assert(rk.dom().contains(v));
            assert forall|i: int| 0 <= i < g[v as int].len() implies rk2.dom().contains(#[trigger] g[v as int][i]) && rk2[g[v as int][i]] < rk2[v] by {
                let w = g[v as int][i];
                assert(rk.dom().contains(w));
                assert(w != x);
            }
        }
    }
}

/// Extending a walk from the entry crate by a known dependency of its last
/// crate that is not on it gives a walk from the entry crate.
proof fn lemma_walk_extend(g: Seq<Seq<usize>>, path: Seq<usize>, j: int)
    requires
        on_walk(g, path),
        0 <= j < g[path.last() as int].len(),
        g[path.last() as int][j] < g.len(),
        !path.contains(g[path.last() as int][j]),
    ensures
        on_walk(g, path.push(g[path.last() as int][j])),
{
    reveal(on_walk);
    let d = g[path.last() as int][j];
    let sd = path.push(d);
    assert forall|i: int| 0 <= i < sd.len() - 1 implies {
        &&& 0 <= #[trigger] sd[i] < g.len()
        &&& g[sd[i] as int].contains(sd[i + 1])
    } by {
        if i < path.len() - 1 {
            assert(sd[i] == path[i] && sd[i + 1] == path[i + 1]);
        } else {
            assert(sd[i] == path.last() && sd[i + 1] == d);
        }
    }
    assert(sd.no_duplicates()) by {
        assert forall|a: int, b: int| 0 <= a < b < sd.len() implies sd[a] != sd[b] by {
            if b == path.len() {
                assert(sd[a] == path[a]);
                assert(path.contains(path[a]));
            } else {
                assert(sd[a] == path[a] && sd[b] == path[b]);
            }
        }
    }
    assert forall|k: int| 0 <= k < sd.len() implies #[trigger] sd[k] < g.len() by {
        if k < path.len() {
            assert(sd[k] == path[k]);
        }
    }
}

/// Visits crate `x`, reached by the walk `stack`, depth first: ranks it after
/// all its dependencies, or finds that no rank exists.
fn visit_checked(
    x: usize,
    deps: &Vec<Vec<Dependency>>,
    stack: &mut Vec<usize>,
    done: &mut Vec<usize>,
    Ghost(rk): Ghost<Map<usize, nat>>,
) -> (r: (bool, Ghost<Map<usize, nat>>))
    requires
        on_walk(dep_graph(deps@), old(stack)@.push(x)),
        ranked(dep_graph(deps@), old(done)@, rk),
        forall|k: int| 0 <= k < old(stack)@.len() + 1 ==> !old(done)@.contains(#[trigger] old(stack)@.push(x)[k]),
    ensures
        final(stack)@ == old(stack)@,
        r.0 ==> {
            &&& ranked(dep_graph(deps@), final(done)@, r.1@)
            &&& final(done)@.contains(x)
            &&& forall|v: usize| old(done)@.contains(v) ==> final(done)@.contains(v)
            &&& forall|k: int| 0 <= k < old(stack)@.len() ==> !final(done)@.contains(#[trigger] old(stack)@[k])
        },
        !r.0 ==> !acyclic_from_entry(dep_graph(deps@)),
    decreases deps@.len() - old(stack)@.len(),
{
    let ghost g = dep_graph(deps@);
    let ghost s0 = stack@;
    let ghost d0 = done@;
    proof {
        reveal(on_walk);
        assert(s0.push(x)[s0.len() as int] == x);
        assert(g.len() == deps@.len());
        crate::ast_pathing::lemma_distinct_below(s0.push(x), deps@.len() as nat);
    }
    stack.push(x);
    let row = &deps[x];
    let ghost mut rk2 = rk;
    let mut j: usize = 0;
    while j < row.len()
        invariant
            g == dep_graph(deps@),
            x < deps@.len(),
            x < g.len(),
            *row == deps@[x as int],
            g[x as int].len() == row@.len(),
            stack@ == s0.push(x),
            s0 == old(stack)@,
            d0 == old(done)@,
            s0.len() + 1 <= deps@.len(),
            on_walk(g, stack@),
            ranked(g, done@, rk2),
            forall|k: int| 0 <= k < stack@.len() ==> !done@.contains(#[trigger] stack@[k]),
            forall|v: usize| d0.contains(v) ==> done@.contains(v),
            forall|i: int| 0 <= i < j ==> done@.contains(#[trigger] g[x as int][i]),
            j <= row@.len(),
        decreases row.len() - j,
    {
        let d = row[j].cr_idx;
        assert(d == g[x as int][j as int]);
        assert(stack@.last() == x);
        if d >= deps.len() {
            proof {
                lemma_unknown_dep(g, stack@, j as int);
            }
            stack.pop();
            proof {
                assert(stack@ =~= s0);
            }
            return (false, Ghost(rk2));
        }
        if contains_idx(stack, d) {
            proof {
                let m = choose|m: int| 0 <= m < stack@.len() && stack@[m] == d;
                lemma_back_edge(g, stack@, j as int, m);
            }
            stack.pop();
            proof {
                assert(stack@ =~= s0);
            }
            return (false, Ghost(rk2));
        }
        if !contains_idx(done, d) {
            proof {
                lemma_walk_extend(g, stack@, j as int);
                assert forall|k: int| 0 <= k < stack@.len() + 1 implies !done@.contains(#[trigger] stack@.push(d)[k]) by {
                    if k < stack@.len() {
                        assert(stack@.push(d)[k] == stack@[k]);
                    }
                }
            }
            let (ok, Ghost(rk3)) = visit_checked(d, deps, stack, done, Ghost(rk2));
            if !ok {
                stack.pop();
                proof {
                    assert(stack@ =~= s0);
                }
                return (false, Ghost(rk3));
            }
            proof {
                rk2 = rk3;
            }
        }
        j = j + 1;
    }
    stack.pop();
    proof {
        assert(stack@ =~= s0);
        assert(!done@.contains(x)) by {
            assert(s0.push(x)[s0.len() as int] == x);
        }
    }
    let ghost len = done@.len();
    let ghost r0 = rk2;
    let ghost dprev = done@;
    proof {
        reveal(ranked);
        assert forall|i: int| 0 <= i < g[x as int].len() implies r0.dom().contains(#[trigger] g[x as int][i]) by {
            assert(dprev.contains(g[x as int][i]));
        }
    }
    done.push(x);
    proof {
        rk2 = r0.insert(x, len as nat);
        assert(done@ == dprev.push(x));
        lemma_rank_added(g, dprev, r0, x);
        assert forall|k: int| 0 <= k < s0.len() implies !done@.contains(#[trigger] s0[k]) by {
            assert(s0.push(x)[k] == s0[k]);
            assert(!dprev.contains(s0.push(x)[k]));
            assert(s0.push(x)[s0.len() as int] == x);
            if done@.contains(s0[k]) {
                let i = choose|i: int| 0 <= i < done@.len() && done@[i] == s0[k];
                if i < dprev.len() {
                    assert(dprev[i] == s0[k]);
                } else {
                    assert(s0[k] == x);
                }
            }
        }
        assert(done@[dprev.len() as int] == x);
        assert forall|v: usize| d0.contains(v) implies done@.contains(v) by {
            let i = choose|i: int| 0 <= i < dprev.len() && dprev[i] == v;
            assert(done@[i] == v);
        }
    }
    (true, Ghost(rk2))
}

/// Whether the crates reached from the entry crate form a finite graph
/// without cycles (see `acyclic_from_entry`), found by a depth-first walk that
/// stops at the first dependency back to a crate on the walk or outside the
/// known crates.
pub fn is_acyclic_from_entry(deps: &Vec<Vec<Dependency>>) -> (r: bool)
    ensures
        r == acyclic_from_entry(dep_graph(deps@)),
{
    let ghost g = dep_graph(deps@);
    if deps.len() == 0 {
        proof {
            if acyclic_from_entry(g) {
                let rank = choose|rank: spec_fn(usize) -> nat| ranks_reachable(g, rank);
                lemma_reach_self(g, 0);
            }
        }
        return false;
    }
    let mut stack: Vec<usize> = Vec::new();
    let mut done: Vec<usize> = Vec::new();
    proof {
        reveal(on_walk);
        reveal(ranked);
        let w = stack@.push(0);
        assert(w =~= seq![0usize]);
        assert(is_walk(g, w));
        assert(w.no_duplicates());
        assert(ranked(g, done@, Map::<usize, nat>::empty()));
    }
    let (ok, Ghost(rk)) = visit_checked(0, deps, &mut stack, &mut done, Ghost(Map::empty()));
    if ok {
        proof {
            reveal(ranked);
            let k = choose|k: int| 0 <= k < done@.len() && done@[k] == 0;
            assert(rk.dom().contains(done@[k]));
            lemma_ranked_acyclic(g, done@, rk);
        }
    }
    ok
}

/// The walk lists every crate at most once, ends with the entry crate, puts every
/// crate after all of its dependencies, and lists exactly the crates that the
/// entry crate depends on directly or indirectly (and the entry crate itself).
pub proof fn lemma_post_order(deps: Seq<Vec<Dependency>>)
    requires
        acyclic_from_entry(dep_graph(deps)),
    ensures
        ({
            let g = dep_graph(deps);
            let v = post_order(g);
            &&& v.no_duplicates()
            &&& v.len() > 0 && v.last() == 0
            &&& forall|i: int, j: int|
                0 <= i < v.len() && 0 <= j < g[v[i] as int].len() ==> v.take(i).contains(#[trigger] g[v[i] as int][j])
            &&& forall|n: usize| v.contains(n) <==> reaches(g, 0, n)
        }),
{
    let g = dep_graph(deps);
    let rank = entry_rank(g);
    lemma_reach_self(g, 0);
    let empty = Seq::<usize>::empty();
    assert(walk_state(g, empty));
    lemma_visit(g, rank, empty, 0);
    let v = post_order(g);
    assert forall|n: usize| v.contains(n) <==> reaches(g, 0, n) by {
        if v.contains(n) {
            let k = choose|k: int| 0 <= k < v.len() && v[k] == n;
            assert(reaches(g, 0, v[k]));
        }
        if reaches(g, 0, n) {
            let p = choose|path: Seq<usize>| is_walk(g, path) && path[0] == 0 && path.last() == n;
            lemma_walk_listed(g, v, p, p.len() - 1);
        }
    }
}

proof fn lemma_walk_listed(g: Seq<Seq<usize>>, v: Seq<usize>, path: Seq<usize>, k: int)
    requires
        deps_listed_before(g, v),
        v.len() > 0 && v.last() == 0,
        is_walk(g, path),
        path[0] == 0,
        0 <= k < path.len(),
    ensures
        v.contains(path[k]),
    decreases k,
{
    if k == 0 {
        assert(v[v.len() - 1] == 0);
    } else {
        lemma_walk_listed(g, v, path, k - 1);
        let i = choose|i: int| 0 <= i < v.len() && v[i] == path[k - 1];
        assert(0 <= path[k - 1] < g.len() && g[path[k - 1] as int].contains(path[k]));
        let row = g[path[k - 1] as int];
        let j = choose|j: int| 0 <= j < row.len() && #[trigger] row[j] == path[k];
        assert(v.take(i).contains(g[v[i] as int][j]));
        let m = choose|m: int| 0 <= m < v.take(i).len() && v.take(i)[m] == path[k];
        assert(v[m] == path[k]);
    }
}

} // verus!
