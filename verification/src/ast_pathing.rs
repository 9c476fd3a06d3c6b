use vstd::prelude::*;
use vstd::string::*;
use crate::ast_items::{Dependency, ItemsCrate};
use crate::ast_resolve::Path;
use crate::constants::NAMESPACE;
use crate::text::chars_of;

verus! {

/// The number of bytes that `c` takes in UTF-8.
pub open spec fn char_utf8_len(c: char) -> nat {
    if (c as u32) < 0x80 {
        1
    } else if (c as u32) < 0x800 {
        2
    } else if (c as u32) < 0x10000 {
        3
    } else {
        4
    }
}

/// The number of bytes that `s` takes in UTF-8 (`str::len`).
pub open spec fn utf8_len(s: Seq<char>) -> nat
    decreases s.len(),
{
    if s.len() == 0 { 0 } else { utf8_len(s.drop_last()) + char_utf8_len(s.last()) }
}

/// The UTF-8 length of a string is at least its number of characters and at
/// most four times it.
proof fn lemma_utf8_len_bounds(s: Seq<char>)
    ensures
        s.len() <= utf8_len(s) <= 4 * s.len(),
    decreases s.len(),
{
    if s.len() > 0 {
        lemma_utf8_len_bounds(s.drop_last());
    }
}

/// A prefix takes no more bytes than the whole.
proof fn lemma_utf8_prefix(s: Seq<char>, k: int)
    requires
        0 <= k <= s.len(),
    ensures
        utf8_len(s.take(k)) <= utf8_len(s),
    decreases s.len() - k,
{
    if k < s.len() {
        lemma_utf8_prefix(s, k + 1);
        assert(s.take(k + 1).drop_last() =~= s.take(k));
    } else {
        assert(s.take(k) =~= s);
    }
}

/// The number of bytes of `s` in UTF-8.
pub fn byte_len(s: &str) -> (n: usize)
    requires
        utf8_len(s@) <= usize::MAX,
    ensures
        n == utf8_len(s@),
{
    let v = chars_of(s);
    let mut n: usize = 0;
    let mut i: usize = 0;
    proof {
        assert(v@.take(0) =~= Seq::<char>::empty());
    }
    while i < v.len()
        invariant
            i <= v@.len(),
            v@ == s@,
            utf8_len(s@) <= usize::MAX,
            n == utf8_len(v@.take(i as int)),
        decreases v.len() - i,
    {
        proof {
            assert(v@.take(i + 1).drop_last() =~= v@.take(i as int));
            lemma_utf8_prefix(v@, i + 1);
        }
        let c = v[i];
        let w: usize = if (c as u32) < 0x80 {
            1
        } else if (c as u32) < 0x800 {
            2
        } else if (c as u32) < 0x10000 {
            3
        } else {
            4
        };
        proof {
            assert(v@.take(i + 1).last() == c);
            assert(utf8_len(v@.take(i + 1)) == n + w);
        }
        n = n + w;
        i = i + 1;
    }
    proof {
        assert(v@.take(v@.len() as int) =~= v@);
    }
    n
}


/// The number of bytes of `s` in UTF-8, or none where it exceeds `usize::MAX`.
pub fn try_byte_len(s: &str) -> (r: Option<usize>)
    ensures
        utf8_len(s@) <= usize::MAX ==> r == Some(utf8_len(s@) as usize),
        utf8_len(s@) > usize::MAX ==> r is None,
{
    let v = chars_of(s);
    let mut n: usize = 0;
    let mut i: usize = 0;
    proof {
        assert(v@.take(0) =~= Seq::<char>::empty());
    }
    while i < v.len()
        invariant
            i <= v@.len(),
            v@ == s@,
            n == utf8_len(v@.take(i as int)),
        decreases v.len() - i,
    {
        proof {
            assert(v@.take(i + 1).drop_last() =~= v@.take(i as int));
            lemma_utf8_prefix(v@, i + 1);
        }
        let c = v[i];
        let w: usize = if (c as u32) < 0x80 {
            1
        } else if (c as u32) < 0x800 {
            2
        } else if (c as u32) < 0x10000 {
            3
        } else {
            4
        };
        proof {
            assert(v@.take(i + 1).last() == c);
            assert(utf8_len(v@.take(i + 1)) == n + w);
        }
        match n.checked_add(w) {
            Some(m) => {
                n = m;
            },
            None => {
                return None;
            },
        }
        i = i + 1;
    }
    proof {
        assert(v@.take(v@.len() as int) =~= v@);
    }
    Some(n)
}

/// Whether `crates_searchable` holds of `crates`.
pub fn crates_searchable_exec(crates: &Vec<ItemsCrate>) -> (r: bool)
    ensures
        r == crates_searchable(crates@),
{
    let n = crates.len();
    let mut i: usize = 0;
    while i < n
        invariant
            n == crates@.len(),
            i <= n,
            forall|k: int, j: int| 0 <= k < i && 0 <= j < crates@[k].dependencies@.len() ==> {
                &&& (#[trigger] crates@[k].dependencies@[j]).cr_idx < crates@.len()
                &&& utf8_len(crates@[k].dependencies@[j].cr_alias@) * crates@.len() <= usize::MAX
            },
        decreases n - i,
    {
        let deps = &crates[i].dependencies;
        let mut j: usize = 0;
        while j < deps.len()
            invariant
                n == crates@.len(),
                i < n,
                *deps == crates@[i as int].dependencies,
                j <= deps@.len(),
                forall|k: int, l: int| 0 <= k < i && 0 <= l < crates@[k].dependencies@.len() ==> {
                    &&& (#[trigger] crates@[k].dependencies@[l]).cr_idx < crates@.len()
                    &&& utf8_len(crates@[k].dependencies@[l].cr_alias@) * crates@.len() <= usize::MAX
                },
                forall|l: int| 0 <= l < j ==> {
                    &&& (#[trigger] deps@[l]).cr_idx < crates@.len()
                    &&& utf8_len(deps@[l].cr_alias@) * crates@.len() <= usize::MAX
                },
            decreases deps.len() - j,
        {
            let d = &deps[j];
            if d.cr_idx >= n {
                return false;
            }
            match try_byte_len(d.cr_alias.as_str()) {
                Some(b) => {
                    if b.checked_mul(n).is_none() {
                        return false;
                    }
                },
                None => {
                    proof {
                        let u = utf8_len(d.cr_alias@);
                        assert(u * n >= u) by (nonlinear_arith)
                            requires
                                n >= 1,
                                u >= 0,
                        ;
                    }
                    return false;
                },
            }
            j = j + 1;
        }
        i = i + 1;
    }
    true
}

/// A chain of dependencies from a crate: each step's crate index and the name
/// the previous crate knows it by.
pub open spec fn chain_view(idxs: Seq<usize>, als: Seq<Seq<char>>) -> Seq<(usize, Seq<char>)> {
    Seq::new(idxs.len(), |i: int| (idxs[i], als[i]))
}

/// What one round of the search yields: a chain that reaches the target, the
/// cheapest new chain, or nothing.
pub enum Round {
    Found(Seq<(usize, Seq<char>)>),
    Extend(Seq<(usize, Seq<char>)>, nat),
    Stuck,
}

/// The cheapest extension of chain `p` (of cost `sc`) by a dependency of its
/// last crate from the `j`-th on, to a crate not yet visited, against `best`;
/// the cost of a step is the byte length of its name, and an earlier candidate
/// wins a tie.
pub open spec fn best_dep(
    p: Seq<(usize, Seq<char>)>,
    sc: nat,
    deps: Seq<Dependency>,
    visited: Seq<usize>,
    j: int,
    best: Option<(Seq<(usize, Seq<char>)>, nat)>,
) -> Option<(Seq<(usize, Seq<char>)>, nat)>
    decreases deps.len() - j,
{
    if j < 0 || j >= deps.len() {
        best
    } else {
        let d = deps[j];
        let ns = sc + utf8_len(d.cr_alias@);
        let b2 = if !visited.contains(d.cr_idx) && (best is None || (best->0).1 > ns) {
            Some((p.push((d.cr_idx, d.cr_alias@)), ns))
        } else {
            best
        };
        best_dep(p, sc, deps, visited, j + 1, b2)
    }
}

/// One round over the chains found so far, from the `k`-th: the first that
/// ends at `target` answers; the others offer their extensions.
pub open spec fn scan(
    front: Seq<(Seq<(usize, Seq<char>)>, nat)>,
    visited: Seq<usize>,
    crates: Seq<ItemsCrate>,
    target: usize,
    k: int,
    best: Option<(Seq<(usize, Seq<char>)>, nat)>,
) -> Round
    decreases front.len() - k,
{
    if k < 0 || k >= front.len() {
        match best {
            Some((p, sc)) => Round::Extend(p, sc),
            None => Round::Stuck,
        }
    } else {
        let p = front[k].0;
        let last = p.last().0;
        if last == target {
            Round::Found(p)
        } else {
            scan(front, visited, crates, target, k + 1, best_dep(p, front[k].1, crates[last as int].dependencies@, visited, 0, best))
        }
    }
}

/// Rounds until a chain reaches `target` or none can be extended, at most
/// `fuel` of them.
pub open spec fn run(
    front: Seq<(Seq<(usize, Seq<char>)>, nat)>,
    visited: Seq<usize>,
    crates: Seq<ItemsCrate>,
    target: usize,
    fuel: nat,
) -> Option<Seq<(usize, Seq<char>)>>
    decreases fuel,
{
    if fuel == 0 {
        None
    } else {
        match scan(front, visited, crates, target, 0, None) {
            Round::Found(p) => Some(p),
            Round::Stuck => None,
            Round::Extend(p, sc) => run(front.push((p, sc)), visited.push(p.last().0), crates, target, (fuel - 1) as nat),
        }
    }
}

/// The chain of dependencies from crate `from` to crate `target` that the search
/// picks (the entry crate `0` counts as visited from the start).
pub open spec fn route(from: usize, target: usize, crates: Seq<ItemsCrate>) -> Option<Seq<(usize, Seq<char>)>> {
    run(seq![(seq![(from, Seq::<char>::empty())], 0nat)], seq![0usize], crates, target, crates.len())
}

/// Each step's name followed by the namespace module.
pub open spec fn alias_ns(q: Seq<(usize, Seq<char>)>) -> Seq<Seq<char>>
    decreases q.len(),
{
    if q.len() == 0 {
        seq![]
    } else {
        alias_ns(q.drop_last()) + seq![q.last().1, NAMESPACE@]
    }
}

/// `s` without its last element, if it has one.
pub open spec fn pop_last<A>(s: Seq<A>) -> Seq<A> {
    if s.len() == 0 { s } else { s.drop_last() }
}

/// The path of an item reached through chain `p`: the names of the steps after
/// the first, with the namespace module between them, then the item's path
/// after its crate segment.
pub open spec fn use_path(p: Seq<(usize, Seq<char>)>, path: Seq<Seq<char>>) -> Seq<Seq<char>> {
    pop_last(alias_ns(p.skip(1))) + path.skip(1)
}

/// The path by which crate `from` names the item at `path`.
pub open spec fn path_from_view(path: crate::ast_resolve::PathView, from: usize, crates: Seq<ItemsCrate>) -> Option<Seq<Seq<char>>> {
    if from == path.cr_idx {
        Some(path.path)
    } else {
        match route(from, path.cr_idx, crates) {
            Some(p) => Some(use_path(p, path.path)),
            None => None,
        }
    }
}

/// Step `b` follows crate `a`: it names a dependency of `a`, by its index and
/// the name `a` knows it by.
pub open spec fn dep_step(crates: Seq<ItemsCrate>, a: usize, b: (usize, Seq<char>)) -> bool {
    exists|j: int| 0 <= j < crates[a as int].dependencies@.len()
        && (#[trigger] crates[a as int].dependencies@[j]).cr_idx == b.0
        && crates[a as int].dependencies@[j].cr_alias@ == b.1
}

/// `p` is a chain of dependencies from crate `from` through crates of
/// `crates`: it starts at `from` with no name, and each later step names a
/// dependency of the crate before it.
pub open spec fn dep_chain(p: Seq<(usize, Seq<char>)>, from: usize, crates: Seq<ItemsCrate>) -> bool {
    &&& p.len() >= 1
    &&& p[0] == (from, Seq::<char>::empty())
    &&& forall|i: int| 0 <= i < p.len() ==> (#[trigger] p[i]).0 < crates.len()
    &&& forall|i: int| 0 <= i < p.len() - 1 ==> dep_step(crates, (#[trigger] p[i]).0, p[i + 1])
}

/// The cost of a chain: the byte lengths of its names.
pub open spec fn chain_cost(p: Seq<(usize, Seq<char>)>) -> nat
    decreases p.len(),
{
    if p.len() == 0 { 0 } else { chain_cost(p.drop_last()) + utf8_len(p.last().1) }
}

/// A held chain that is a chain from `from` with its cost.
pub open spec fn held_ok(e: (Seq<(usize, Seq<char>)>, nat), from: usize, crates: Seq<ItemsCrate>) -> bool {
    dep_chain(e.0, from, crates) && e.1 == chain_cost(e.0)
}

proof fn lemma_chain_push(p: Seq<(usize, Seq<char>)>, from: usize, crates: Seq<ItemsCrate>, j: int)
    requires
        dep_chain(p, from, crates),
        crates_searchable(crates),
        0 <= j < crates[p.last().0 as int].dependencies@.len(),
    ensures
        ({
            let d = crates[p.last().0 as int].dependencies@[j];
            let q = p.push((d.cr_idx, d.cr_alias@));
            &&& dep_chain(q, from, crates)
            &&& chain_cost(q) == chain_cost(p) + utf8_len(d.cr_alias@)
        }),
{
    let a = p.last().0;
    let d = crates[a as int].dependencies@[j];
    let q = p.push((d.cr_idx, d.cr_alias@));
    assert(p[p.len() - 1].0 < crates.len());
    assert(q.drop_last() =~= p);
    assert forall|i: int| 0 <= i < q.len() implies (#[trigger] q[i]).0 < crates.len() by {
        if i < p.len() {
            assert(q[i] == p[i]);
        }
    }
    assert forall|i: int| 0 <= i < q.len() - 1 implies dep_step(crates, (#[trigger] q[i]).0, q[i + 1]) by {
        if i < p.len() - 1 {
            assert(q[i] == p[i] && q[i + 1] == p[i + 1]);
        } else {
            assert(q[i] == p.last());
            assert(crates[a as int].dependencies@[j] == d);
        }
    }
}

proof fn lemma_best_dep_ok(
    p: Seq<(usize, Seq<char>)>,
    sc: nat,
    visited: Seq<usize>,
    j: int,
    best: Option<(Seq<(usize, Seq<char>)>, nat)>,
    from: usize,
    crates: Seq<ItemsCrate>,
)
    requires
        crates_searchable(crates),
        held_ok((p, sc), from, crates),
        0 <= j,
        best matches Some(b) ==> held_ok(b, from, crates),
    ensures
        best_dep(p, sc, crates[p.last().0 as int].dependencies@, visited, j, best) matches Some(b) ==> held_ok(b, from, crates),
    decreases crates[p.last().0 as int].dependencies@.len() - j,
{
    let deps = crates[p.last().0 as int].dependencies@;
    if j < deps.len() {
        lemma_chain_push(p, from, crates, j);
        let d = deps[j];
        let ns = sc + utf8_len(d.cr_alias@);
        let b2 = if !visited.contains(d.cr_idx) && (best is None || (best->0).1 > ns) {
            Some((p.push((d.cr_idx, d.cr_alias@)), ns))
        } else {
            best
        };
        lemma_best_dep_ok(p, sc, visited, j + 1, b2, from, crates);
    }
}

proof fn lemma_scan_ok(
    front: Seq<(Seq<(usize, Seq<char>)>, nat)>,
    visited: Seq<usize>,
    crates: Seq<ItemsCrate>,
    target: usize,
    k: int,
    best: Option<(Seq<(usize, Seq<char>)>, nat)>,
    from: usize,
)
    requires
        crates_searchable(crates),
        forall|i: int| 0 <= i < front.len() ==> held_ok(#[trigger] front[i], from, crates),
        0 <= k,
        best matches Some(b) ==> held_ok(b, from, crates),
    ensures
        match scan(front, visited, crates, target, k, best) {
            Round::Found(p) => dep_chain(p, from, crates) && p.last().0 == target,
            Round::Extend(p, sc) => held_ok((p, sc), from, crates),
            Round::Stuck => true,
        },
    decreases front.len() - k,
{
    if k < front.len() {
        let p = front[k].0;
        assert(held_ok(front[k], from, crates));
        if p.last().0 != target {
            lemma_best_dep_ok(p, front[k].1, visited, 0, best, from, crates);
            lemma_scan_ok(front, visited, crates, target, k + 1,
                best_dep(p, front[k].1, crates[p.last().0 as int].dependencies@, visited, 0, best), from);
        }
    }
}

proof fn lemma_run_ok(
    front: Seq<(Seq<(usize, Seq<char>)>, nat)>,
    visited: Seq<usize>,
    crates: Seq<ItemsCrate>,
    target: usize,
    fuel: nat,
    from: usize,
)
    requires
        crates_searchable(crates),
        forall|i: int| 0 <= i < front.len() ==> held_ok(#[trigger] front[i], from, crates),
    ensures
        run(front, visited, crates, target, fuel) matches Some(p) ==> dep_chain(p, from, crates) && p.last().0 == target,
    decreases fuel,
{
    if fuel > 0 {
        lemma_scan_ok(front, visited, crates, target, 0, None, from);
        match scan(front, visited, crates, target, 0, None) {
            Round::Extend(p, sc) => {
                let f2 = front.push((p, sc));
                assert forall|i: int| 0 <= i < f2.len() implies held_ok(#[trigger] f2[i], from, crates) by {
                    if i < front.len() {
                        assert(f2[i] == front[i]);
                    }
                }
                lemma_run_ok(f2, visited.push(p.last().0), crates, target, (fuel - 1) as nat, from);
            },
            _ => {},
        }
    }
}

/// The chain that the search picks from crate `from` to crate `target` is a
/// chain of dependencies from `from` that ends at `target`: each step names a
/// dependency of the crate before it, by the name that crate knows it by.
pub proof fn lemma_route_is_chain(from: usize, target: usize, crates: Seq<ItemsCrate>)
    requires
        from < crates.len(),
        crates_searchable(crates),
    ensures
        route(from, target, crates) matches Some(p) ==> dep_chain(p, from, crates) && p.last().0 == target,
{
    let start = seq![(from, Seq::<char>::empty())];
    assert(chain_cost(start) == 0) by {
        let e = Seq::<(usize, Seq<char>)>::empty();
        assert(start.drop_last() =~= e);
        assert(chain_cost(e) == 0);
        assert(start.last().1 == Seq::<char>::empty());
        assert(utf8_len(Seq::<char>::empty()) == 0);
    }
    let front = seq![(start, 0nat)];
    assert forall|i: int| 0 <= i < front.len() implies held_ok(#[trigger] front[i], from, crates) by {
        assert(front[i] == (start, 0nat));
        assert(start[0] == (from, Seq::<char>::empty()));
    }
    lemma_run_ok(front, seq![0usize], crates, target, crates.len(), from);
}

/// `q` does not come back to the entry crate `0` after its start.
pub open spec fn avoids_entry(q: Seq<(usize, Seq<char>)>) -> bool {
    forall|i: int| 1 <= i < q.len() ==> (#[trigger] q[i]).0 != 0
}

/// No chain from `from` to the last crate of `e` that keeps clear of the entry
/// crate costs less than `e`.
pub open spec fn cheapest(e: (Seq<(usize, Seq<char>)>, nat), from: usize, crates: Seq<ItemsCrate>) -> bool {
    forall|q: Seq<(usize, Seq<char>)>|
        #[trigger] dep_chain(q, from, crates) && avoids_entry(q) && q.last().0 == e.0.last().0 ==> e.1 <= chain_cost(q)
}

/// What the held chains and the visited crates keep through the search: the
/// first chain is the start, every chain is a chain from `from` with its cost,
/// every visited crate but the entry crate ends a later chain, and a later
/// chain that does not come back to `from` is the cheapest to its crate.
pub open spec fn search_inv(
    front: Seq<(Seq<(usize, Seq<char>)>, nat)>,
    visited: Seq<usize>,
    from: usize,
    crates: Seq<ItemsCrate>,
) -> bool {
    &&& front.len() >= 1
    &&& front[0] == (seq![(from, Seq::<char>::empty())], 0nat)
    &&& forall|i: int| 0 <= i < front.len() ==> held_ok(#[trigger] front[i], from, crates)
    &&& forall|x: usize| #[trigger] visited.contains(x) ==> x == 0 || exists|k: int| 1 <= k < front.len() && (#[trigger] front[k]).0.last().0 == x
    &&& forall|k: int| 1 <= k < front.len() && (#[trigger] front[k]).0.last().0 != from ==> cheapest(front[k], from, crates)
}

/// Every unvisited dependency of the last crate of `e` offers a chain costing
/// at least `sc`.
pub open spec fn offers_at_least(e: (Seq<(usize, Seq<char>)>, nat), visited: Seq<usize>, crates: Seq<ItemsCrate>, sc: nat) -> bool {
    forall|j: int| 0 <= j < crates[e.0.last().0 as int].dependencies@.len()
        && !visited.contains((#[trigger] crates[e.0.last().0 as int].dependencies@[j]).cr_idx)
        ==> sc <= e.1 + utf8_len(crates[e.0.last().0 as int].dependencies@[j].cr_alias@)
}

proof fn lemma_best_dep_min(
    p: Seq<(usize, Seq<char>)>,
    sc: nat,
    deps: Seq<Dependency>,
    visited: Seq<usize>,
    j: int,
    best: Option<(Seq<(usize, Seq<char>)>, nat)>,
)
    requires
        0 <= j,
    ensures
        best matches Some(b0) ==> (best_dep(p, sc, deps, visited, j, best) matches Some(b) && b.1 <= b0.1),
        forall|j2: int| j <= j2 < deps.len() && !visited.contains((#[trigger] deps[j2]).cr_idx) ==>
            (best_dep(p, sc, deps, visited, j, best) matches Some(b) && b.1 <= sc + utf8_len(deps[j2].cr_alias@)),
        (best matches Some(b0) ==> !visited.contains(b0.0.last().0)) ==>
            (best_dep(p, sc, deps, visited, j, best) matches Some(b) ==> !visited.contains(b.0.last().0)),
    decreases deps.len() - j,
{
    if j < deps.len() {
        let d = deps[j];
        let ns = sc + utf8_len(d.cr_alias@);
        let b2 = if !visited.contains(d.cr_idx) && (best is None || (best->0).1 > ns) {
            Some((p.push((d.cr_idx, d.cr_alias@)), ns))
        } else {
            best
        };
        lemma_best_dep_min(p, sc, deps, visited, j + 1, b2);
        assert(best_dep(p, sc, deps, visited, j, best) == best_dep(p, sc, deps, visited, j + 1, b2));
    }
}

proof fn lemma_scan_min(
    front: Seq<(Seq<(usize, Seq<char>)>, nat)>,
    visited: Seq<usize>,
    crates: Seq<ItemsCrate>,
    target: usize,
    k: int,
    best: Option<(Seq<(usize, Seq<char>)>, nat)>,
)
    requires
        0 <= k,
    ensures
        scan(front, visited, crates, target, k, best) matches Round::Extend(p, sc) ==> {
            &&& (best matches Some(b0) ==> sc <= b0.1)
            &&& forall|k2: int| k <= k2 < front.len() ==> offers_at_least(#[trigger] front[k2], visited, crates, sc)
            &&& ((best matches Some(b0) ==> !visited.contains(b0.0.last().0)) ==> !visited.contains(p.last().0))
        },
        scan(front, visited, crates, target, k, best) matches Round::Found(p) ==>
            exists|k2: int| k <= k2 < front.len() && (#[trigger] front[k2]).0 == p && p.last().0 == target,
    decreases front.len() - k,
{
    if k < front.len() {
        let p = front[k].0;
        let last = p.last().0;
        if last != target {
            let deps = crates[last as int].dependencies@;
            let b2 = best_dep(p, front[k].1, deps, visited, 0, best);
            lemma_best_dep_min(p, front[k].1, deps, visited, 0, best);
            lemma_scan_min(front, visited, crates, target, k + 1, b2);
            assert(scan(front, visited, crates, target, k, best) == scan(front, visited, crates, target, k + 1, b2));
            if let Round::Extend(p3, sc) = scan(front, visited, crates, target, k, best) {
                assert forall|k2: int| k <= k2 < front.len() implies offers_at_least(#[trigger] front[k2], visited, crates, sc) by {
                    if k2 == k {
                        assert forall|j: int| 0 <= j < crates[front[k2].0.last().0 as int].dependencies@.len()
                            && !visited.contains((#[trigger] crates[front[k2].0.last().0 as int].dependencies@[j]).cr_idx)
                            implies sc <= front[k2].1 + utf8_len(crates[front[k2].0.last().0 as int].dependencies@[j].cr_alias@) by {
                            assert(deps[j] == crates[front[k2].0.last().0 as int].dependencies@[j]);
                        }
                    }
                }
            }
        }
    }
}

proof fn lemma_chain_drop_last(q: Seq<(usize, Seq<char>)>, from: usize, crates: Seq<ItemsCrate>)
    requires
        dep_chain(q, from, crates),
        avoids_entry(q),
        q.len() >= 2,
    ensures
        dep_chain(q.drop_last(), from, crates),
        avoids_entry(q.drop_last()),
        chain_cost(q) == chain_cost(q.drop_last()) + utf8_len(q.last().1),
        dep_step(crates, q.drop_last().last().0, q.last()),
{
    let q1 = q.drop_last();
    assert forall|i: int| 0 <= i < q1.len() implies (#[trigger] q1[i]).0 < crates.len() by {
        assert(q1[i] == q[i]);
    }
    assert forall|i: int| 0 <= i < q1.len() - 1 implies dep_step(crates, (#[trigger] q1[i]).0, q1[i + 1]) by {
        assert(q1[i] == q[i] && q1[i + 1] == q[i + 1]);
    }
    assert forall|i: int| 1 <= i < q1.len() implies (#[trigger] q1[i]).0 != 0 by {
        assert(q1[i] == q[i]);
    }
    assert(q1[0] == q[0]);
    assert(q1.last() == q[q.len() - 2]);
    assert(dep_step(crates, q[q.len() - 2].0, q[q.len() - 2 + 1]));
}

proof fn lemma_cut(
    front: Seq<(Seq<(usize, Seq<char>)>, nat)>,
    visited: Seq<usize>,
    crates: Seq<ItemsCrate>,
    from: usize,
    sc: nat,
    q: Seq<(usize, Seq<char>)>,
)
    requires
        search_inv(front, visited, from, crates),
        forall|k: int| 0 <= k < front.len() ==> offers_at_least(#[trigger] front[k], visited, crates, sc),
        dep_chain(q, from, crates),
        avoids_entry(q),
        !visited.contains(q.last().0),
        q.last().0 != from,
    ensures
        sc <= chain_cost(q),
    decreases q.len(),
{
    if q.len() == 1 {
        assert(q.last() == q[0]);
    }
    lemma_chain_drop_last(q, from, crates);
    let q1 = q.drop_last();
    let x = q1.last().0;
    if !visited.contains(x) && x != from {
        lemma_cut(front, visited, crates, from, sc, q1);
    } else {
        let k: int = if x == from {
            0
        } else {
            if q1.len() == 1 {
                assert(q1.last() == q1[0]);
            }
            assert(q1.last() == q1[q1.len() - 1]);
            assert(x != 0);
            choose|k: int| 1 <= k < front.len() && (#[trigger] front[k]).0.last().0 == x
        };
        assert(front[k].0.last().0 == x && front[k].1 <= chain_cost(q1)) by {
            if k == 0 {
                assert(front[0].0.last() == (from, Seq::<char>::empty()));
            } else {
                assert(cheapest(front[k], from, crates));
                assert(dep_chain(q1, from, crates));
            }
        }
        let j = choose|j: int| 0 <= j < crates[x as int].dependencies@.len()
            && (#[trigger] crates[x as int].dependencies@[j]).cr_idx == q.last().0
            && crates[x as int].dependencies@[j].cr_alias@ == q.last().1;
        assert(offers_at_least(front[k], visited, crates, sc));
        assert(crates[front[k].0.last().0 as int].dependencies@[j] == crates[x as int].dependencies@[j]);
    }
}

proof fn lemma_run_cheapest(
    front: Seq<(Seq<(usize, Seq<char>)>, nat)>,
    visited: Seq<usize>,
    crates: Seq<ItemsCrate>,
    target: usize,
    fuel: nat,
    from: usize,
    q: Seq<(usize, Seq<char>)>,
)
    requires
        crates_searchable(crates),
        search_inv(front, visited, from, crates),
        target != from,
        dep_chain(q, from, crates),
        avoids_entry(q),
        q.last().0 == target,
    ensures
        run(front, visited, crates, target, fuel) matches Some(p) ==> chain_cost(p) <= chain_cost(q),
    decreases fuel,
{
    if fuel > 0 {
        lemma_scan_ok(front, visited, crates, target, 0, None, from);
        lemma_scan_min(front, visited, crates, target, 0, None);
        match scan(front, visited, crates, target, 0, None) {
            Round::Found(p) => {
                let k = choose|k2: int| 0 <= k2 < front.len() && (#[trigger] front[k2]).0 == p && p.last().0 == target;
                if k == 0 {
                    assert(front[0].0.last() == (from, Seq::<char>::empty()));
                }
                assert(held_ok(front[k], from, crates));
                assert(cheapest(front[k], from, crates));
            },
            Round::Extend(p, sc) => {
                let w = p.last().0;
                let f2 = front.push((p, sc));
                let v2 = visited.push(w);
                assert(f2[0] == front[0]);
                assert forall|i: int| 0 <= i < f2.len() implies held_ok(#[trigger] f2[i], from, crates) by {
                    if i < front.len() {
                        assert(f2[i] == front[i]);
                    }
                }
                assert forall|x: usize| #[trigger] v2.contains(x) implies x == 0 || exists|k: int| 1 <= k < f2.len() && (#[trigger] f2[k]).0.last().0 == x by {
                    if x == w {
                        assert(f2[front.len() as int] == (p, sc));
                    } else {
                        let i = choose|i: int| 0 <= i < v2.len() && v2[i] == x;
                        assert(visited.contains(x)) by {
                            assert(visited[i] == x);
                        }
                        if x != 0 {
                            let k = choose|k: int| 1 <= k < front.len() && (#[trigger] front[k]).0.last().0 == x;
                            assert(f2[k] == front[k]);
                        }
                    }
                }
                assert forall|k: int| 1 <= k < f2.len() && (#[trigger] f2[k]).0.last().0 != from implies cheapest(f2[k], from, crates) by {
                    if k < front.len() {
                        assert(f2[k] == front[k]);
                    } else {
                        assert(f2[k] == (p, sc));
                        assert forall|q2: Seq<(usize, Seq<char>)>|
                            #[trigger] dep_chain(q2, from, crates) && avoids_entry(q2) && q2.last().0 == w implies sc <= chain_cost(q2) by {
                            lemma_cut(front, visited, crates, from, sc, q2);
                        }
                    }
                }
                lemma_run_cheapest(f2, v2, crates, target, (fuel - 1) as nat, from, q);
            },
            Round::Stuck => {},
        }
    }
}

/// The chain that the search picks from crate `from` to another crate
/// `target` is a cheapest one: no chain of dependencies from `from` to
/// `target` that keeps clear of the entry crate `0` has a smaller total byte
/// length of names.
pub proof fn lemma_route_is_cheapest(from: usize, target: usize, crates: Seq<ItemsCrate>, q: Seq<(usize, Seq<char>)>)
    requires
        from < crates.len(),
        from != target,
        crates_searchable(crates),
        dep_chain(q, from, crates),
        avoids_entry(q),
        q.last().0 == target,
    ensures
        route(from, target, crates) matches Some(p) ==> chain_cost(p) <= chain_cost(q),
{
    let start = seq![(from, Seq::<char>::empty())];
    assert(chain_cost(start) == 0) by {
        let e = Seq::<(usize, Seq<char>)>::empty();
        assert(start.drop_last() =~= e);
        assert(chain_cost(e) == 0);
        assert(start.last().1 == Seq::<char>::empty());
        assert(utf8_len(Seq::<char>::empty()) == 0);
    }
    let front = seq![(start, 0nat)];
    let visited = seq![0usize];
    assert forall|i: int| 0 <= i < front.len() implies held_ok(#[trigger] front[i], from, crates) by {
        assert(front[i] == (start, 0nat));
        assert(start[0] == (from, Seq::<char>::empty()));
    }
    assert forall|x: usize| #[trigger] visited.contains(x) implies x == 0 || exists|k: int| 1 <= k < front.len() && (#[trigger] front[k]).0.last().0 == x by {
        let i = choose|i: int| 0 <= i < visited.len() && visited[i] == x;
    }
    lemma_run_cheapest(front, visited, crates, target, crates.len(), from, q);
}

/// The held chains and visited crates as the search keeps them, without the
/// costs: the first chain is the start, every chain is a chain from `from`
/// with its cost, and every visited crate but the entry crate ends a later
/// chain.
pub open spec fn reach_inv(
    front: Seq<(Seq<(usize, Seq<char>)>, nat)>,
    visited: Seq<usize>,
    from: usize,
    crates: Seq<ItemsCrate>,
) -> bool {
    &&& front.len() >= 1
    &&& front[0] == (seq![(from, Seq::<char>::empty())], 0nat)
    &&& forall|i: int| 0 <= i < front.len() ==> held_ok(#[trigger] front[i], from, crates)
    &&& forall|x: usize| #[trigger] visited.contains(x) ==> x == 0 || exists|k: int| 1 <= k < front.len() && (#[trigger] front[k]).0.last().0 == x
}

/// Every dependency of the last crate of `e` is visited.
pub open spec fn deps_visited(e: (Seq<(usize, Seq<char>)>, nat), visited: Seq<usize>, crates: Seq<ItemsCrate>) -> bool {
    forall|j: int| 0 <= j < crates[e.0.last().0 as int].dependencies@.len()
        ==> visited.contains((#[trigger] crates[e.0.last().0 as int].dependencies@[j]).cr_idx)
}

proof fn lemma_scan_stuck(
    front: Seq<(Seq<(usize, Seq<char>)>, nat)>,
    visited: Seq<usize>,
    crates: Seq<ItemsCrate>,
    target: usize,
    k: int,
    best: Option<(Seq<(usize, Seq<char>)>, nat)>,
)
    requires
        0 <= k,
        scan(front, visited, crates, target, k, best) is Stuck,
    ensures
        best is None,
        forall|k2: int| k <= k2 < front.len() ==> (#[trigger] front[k2]).0.last().0 != target,
        forall|k2: int| k <= k2 < front.len() ==> deps_visited(#[trigger] front[k2], visited, crates),
    decreases front.len() - k,
{
    if k < front.len() {
        let p = front[k].0;
        let last = p.last().0;
        let deps = crates[last as int].dependencies@;
        let b2 = best_dep(p, front[k].1, deps, visited, 0, best);
        lemma_best_dep_min(p, front[k].1, deps, visited, 0, best);
        lemma_scan_stuck(front, visited, crates, target, k + 1, b2);
        assert forall|j: int| 0 <= j < crates[front[k].0.last().0 as int].dependencies@.len()
            implies visited.contains((#[trigger] crates[front[k].0.last().0 as int].dependencies@[j]).cr_idx) by {
            assert(deps[j] == crates[front[k].0.last().0 as int].dependencies@[j]);
        }
    }
}

proof fn lemma_closed_reach(
    front: Seq<(Seq<(usize, Seq<char>)>, nat)>,
    visited: Seq<usize>,
    crates: Seq<ItemsCrate>,
    from: usize,
    q: Seq<(usize, Seq<char>)>,
)
    requires
        reach_inv(front, visited, from, crates),
        forall|k: int| 0 <= k < front.len() ==> deps_visited(#[trigger] front[k], visited, crates),
        dep_chain(q, from, crates),
        avoids_entry(q),
    ensures
        visited.contains(q.last().0) || q.last().0 == from,
    decreases q.len(),
{
    if q.len() == 1 {
        assert(q.last() == q[0]);
    } else {
        lemma_chain_drop_last(q, from, crates);
        let q1 = q.drop_last();
        lemma_closed_reach(front, visited, crates, from, q1);
        let x = q1.last().0;
        let k: int = if x == from {
            0
        } else {
            if q1.len() == 1 {
                assert(q1.last() == q1[0]);
            }
            assert(q1.last() == q1[q1.len() - 1]);
            assert(x != 0);
            choose|k: int| 1 <= k < front.len() && (#[trigger] front[k]).0.last().0 == x
        };
        if k == 0 {
            assert(front[0].0.last() == (from, Seq::<char>::empty()));
        }
        assert(front[k].0.last().0 == x);
        let j = choose|j: int| 0 <= j < crates[x as int].dependencies@.len()
            && (#[trigger] crates[x as int].dependencies@[j]).cr_idx == q.last().0
            && crates[x as int].dependencies@[j].cr_alias@ == q.last().1;
        assert(deps_visited(front[k], visited, crates));
        assert(crates[front[k].0.last().0 as int].dependencies@[j] == crates[x as int].dependencies@[j]);
    }
}

proof fn lemma_run_reaches(
    front: Seq<(Seq<(usize, Seq<char>)>, nat)>,
    visited: Seq<usize>,
    crates: Seq<ItemsCrate>,
    target: usize,
    fuel: nat,
    from: usize,
    q: Seq<(usize, Seq<char>)>,
)
    requires
        crates_searchable(crates),
        reach_inv(front, visited, from, crates),
        visited.no_duplicates(),
        forall|i: int| 0 <= i < visited.len() ==> (#[trigger] visited[i]) < crates.len(),
        fuel + visited.len() > crates.len(),
        dep_chain(q, from, crates),
        avoids_entry(q),
        q.last().0 == target,
    ensures
        run(front, visited, crates, target, fuel) is Some,
    decreases fuel,
{
    if fuel == 0 {
        lemma_distinct_below(visited, crates.len());
    } else {
        lemma_scan_ok(front, visited, crates, target, 0, None, from);
        lemma_scan_min(front, visited, crates, target, 0, None);
        match scan(front, visited, crates, target, 0, None) {
            Round::Found(p) => {},
            Round::Extend(p, sc) => {
                let w = p.last().0;
                let f2 = front.push((p, sc));
                let v2 = visited.push(w);
                assert(f2[0] == front[0]);
                assert forall|i: int| 0 <= i < f2.len() implies held_ok(#[trigger] f2[i], from, crates) by {
                    if i < front.len() {
                        assert(f2[i] == front[i]);
                    }
                }
                assert forall|x: usize| #[trigger] v2.contains(x) implies x == 0 || exists|k: int| 1 <= k < f2.len() && (#[trigger] f2[k]).0.last().0 == x by {
                    if x == w {
                        assert(f2[front.len() as int] == (p, sc));
                    } else {
                        let i = choose|i: int| 0 <= i < v2.len() && v2[i] == x;
                        assert(visited.contains(x)) by {
                            assert(visited[i] == x);
                        }
                        if x != 0 {
                            let k = choose|k: int| 1 <= k < front.len() && (#[trigger] front[k]).0.last().0 == x;
                            assert(f2[k] == front[k]);
                        }
                    }
                }
                assert(p[p.len() - 1].0 < crates.len());
                assert forall|i: int| 0 <= i < v2.len() implies (#[trigger] v2[i]) < crates.len() by {
                    if i < visited.len() {
                        assert(v2[i] == visited[i]);
                    }
                }
                assert(v2.no_duplicates()) by {
                    assert forall|i: int, j: int| 0 <= i < v2.len() && 0 <= j < v2.len() && i != j implies v2[i] != v2[j] by {
                        if i < visited.len() && j < visited.len() {
                            assert(v2[i] == visited[i] && v2[j] == visited[j]);
                        } else if i < visited.len() {
                            assert(v2[i] == visited[i]);
                            assert(visited.contains(visited[i]));
                        } else if j < visited.len() {
                            assert(v2[j] == visited[j]);
                            assert(visited.contains(visited[j]));
                        }
                    }
                }
                lemma_run_reaches(f2, v2, crates, target, (fuel - 1) as nat, from, q);
            },
            Round::Stuck => {
                lemma_scan_stuck(front, visited, crates, target, 0, None);
                lemma_closed_reach(front, visited, crates, from, q);
                if target == from {
                    assert(front[0].0.last() == (from, Seq::<char>::empty()));
                } else {
                    if q.len() == 1 {
                        assert(q.last() == q[0]);
                    }
                    assert(q.last() == q[q.len() - 1]);
                    assert(target != 0);
                    let k = choose|k: int| 1 <= k < front.len() && (#[trigger] front[k]).0.last().0 == target;
                }
            },
        }
    }
}

/// The search finds a chain to `target` whenever one exists: if some chain of
/// dependencies from `from` ends at `target` and keeps clear of the entry
/// crate `0`, the search picks a chain.
pub proof fn lemma_route_reaches(from: usize, target: usize, crates: Seq<ItemsCrate>, q: Seq<(usize, Seq<char>)>)
    requires
        from < crates.len(),
        crates_searchable(crates),
        dep_chain(q, from, crates),
        avoids_entry(q),
        q.last().0 == target,
    ensures
        route(from, target, crates) is Some,
{
    let start = seq![(from, Seq::<char>::empty())];
    assert(chain_cost(start) == 0) by {
        let e = Seq::<(usize, Seq<char>)>::empty();
        assert(start.drop_last() =~= e);
        assert(chain_cost(e) == 0);
        assert(start.last().1 == Seq::<char>::empty());
        assert(utf8_len(Seq::<char>::empty()) == 0);
    }
    let front = seq![(start, 0nat)];
    let visited = seq![0usize];
    assert forall|i: int| 0 <= i < front.len() implies held_ok(#[trigger] front[i], from, crates) by {
        assert(front[i] == (start, 0nat));
        assert(start[0] == (from, Seq::<char>::empty()));
    }
    assert forall|x: usize| #[trigger] visited.contains(x) implies x == 0 || exists|k: int| 1 <= k < front.len() && (#[trigger] front[k]).0.last().0 == x by {
        let i = choose|i: int| 0 <= i < visited.len() && visited[i] == x;
    }
    assert(visited[0] == 0usize);
    lemma_run_reaches(front, visited, crates, target, crates.len(), from, q);
}

/// Every dependency names a crate of `crates`, and the names are short enough
/// for the costs of the search to fit in a `usize`.
pub open spec fn crates_searchable(crates: Seq<ItemsCrate>) -> bool {
    forall|i: int, j: int| 0 <= i < crates.len() && 0 <= j < crates[i].dependencies@.len() ==> {
        &&& (#[trigger] crates[i].dependencies@[j]).cr_idx < crates.len()
        &&& utf8_len(crates[i].dependencies@[j].cr_alias@) * crates.len() <= usize::MAX
    }
}

/// Distinct numbers below `n` are at most `n` many.
pub(crate) proof fn lemma_distinct_below(v: Seq<usize>, n: nat)
    requires
        v.no_duplicates(),
        forall|i: int| 0 <= i < v.len() ==> v[i] < n,
    ensures
        v.len() <= n,
{
    let w = v.map_values(|x: usize| x as int);
    assert(w.no_duplicates()) by {
        assert forall|i: int, j: int| 0 <= i < w.len() && 0 <= j < w.len() && i != j implies w[i] != w[j] by {
            assert(v[i] != v[j]);
        }
    }
    w.unique_seq_to_set();
    vstd::set_lib::lemma_int_range(0, n as int);
    assert(w.to_set().subset_of(vstd::set_lib::set_int_range(0, n as int))) by {
        assert forall|x: int| w.to_set().contains(x) implies vstd::set_lib::set_int_range(0, n as int).contains(x) by {
            let i = choose|i: int| 0 <= i < w.len() && w[i] == x;
        }
    }
    vstd::set_lib::lemma_len_subset(w.to_set(), vstd::set_lib::set_int_range(0, n as int));
}


/// A chain held as its crate indices and names, with its cost.
pub type ChainEntry = (Vec<usize>, Vec<String>, usize);

/// A held chain as a sequence of steps with its cost.
pub open spec fn entry_view(e: ChainEntry) -> (Seq<(usize, Seq<char>)>, nat) {
    (chain_view(e.0@, e.1.deep_view()), e.2 as nat)
}

/// The held chains.
pub open spec fn front_view(f: Seq<ChainEntry>) -> Seq<(Seq<(usize, Seq<char>)>, nat)> {
    f.map_values(|e: ChainEntry| entry_view(e))
}

/// A held candidate.
pub open spec fn opt_view(b: Option<ChainEntry>) -> Option<(Seq<(usize, Seq<char>)>, nat)> {
    match b {
        Some(e) => Some(entry_view(e)),
        None => None,
    }
}

fn contains_usize(v: &Vec<usize>, x: usize) -> (r: bool)
    ensures
        r == v@.contains(x),
{
    let mut i: usize = 0;
    while i < v.len()
        invariant
            i <= v@.len(),
            forall|j: int| 0 <= j < i ==> v@[j] != x,
        decreases v.len() - i,
    {
        if v[i] == x {
            assert(v@[i as int] == x);
            return true;
        }
        i = i + 1;
    }
    false
}

fn extend_chain(idxs: &Vec<usize>, als: &Vec<String>, d: &Dependency) -> (r: (Vec<usize>, Vec<String>))
    requires
        idxs@.len() == als@.len(),
    ensures
        r.0@.len() == r.1@.len(),
        chain_view(r.0@, r.1.deep_view()) == chain_view(idxs@, als.deep_view()).push((d.cr_idx, d.cr_alias@)),
{
    let mut ni: Vec<usize> = Vec::new();
    let mut i: usize = 0;
    while i < idxs.len()
        invariant
            i <= idxs@.len(),
            ni@ == idxs@.take(i as int),
        decreases idxs.len() - i,
    {
        ni.push(idxs[i]);
        proof {
            assert(ni@ =~= idxs@.take(i + 1));
        }
        i = i + 1;
    }
    let mut na = crate::ast_resolve::clone_strings(als);
    let ghost na0 = na@;
    ni.push(d.cr_idx);
    na.push(d.cr_alias.clone());
    proof {
        assert(idxs@.take(idxs@.len() as int) =~= idxs@);
        assert forall|j: int| 0 <= j < na@.len() implies na.deep_view()[j] == als.deep_view().push(d.cr_alias@)[j] by {
            if j < na0.len() {
                assert(na@[j] == na0[j]);
            }
        }
        assert(na.deep_view() =~= als.deep_view().push(d.cr_alias@));
        assert(chain_view(ni@, na.deep_view()) =~= chain_view(idxs@, als.deep_view()).push((d.cr_idx, d.cr_alias@)));
    }
    (ni, na)
}

fn best_dep_exec(
    idxs: &Vec<usize>,
    als: &Vec<String>,
    sc: usize,
    deps: &Vec<Dependency>,
    visited: &Vec<usize>,
    best: &mut Option<ChainEntry>,
    Ghost(b): Ghost<nat>,
    Ghost(cap): Ghost<nat>,
    Ghost(n): Ghost<nat>,
)
    requires
        idxs@.len() == als@.len(),
        forall|j: int| 0 <= j < deps@.len() ==> (#[trigger] deps@[j]).cr_idx < n,
        *old(best) matches Some(e) ==> e.0@.len() > 0 && !visited@.contains(e.0@.last()) && e.0@.last() < n,
        forall|j: int| 0 <= j < deps@.len() ==> utf8_len((#[trigger] deps@[j]).cr_alias@) <= b,
        sc + b <= cap <= usize::MAX,
        *old(best) matches Some(e) ==> e.0@.len() == e.1@.len() && e.2 <= cap,
    ensures
        opt_view(*final(best)) == best_dep(chain_view(idxs@, als.deep_view()), sc as nat, deps@, visited@, 0, opt_view(*old(best))),
        *final(best) matches Some(e) ==> e.0@.len() == e.1@.len() && e.2 <= cap,
        *final(best) matches Some(e) ==> e.0@.len() > 0 && !visited@.contains(e.0@.last()) && e.0@.last() < n,
{
    let ghost p = chain_view(idxs@, als.deep_view());
    let ghost b0 = opt_view(*best);
    let mut j: usize = 0;
    while j < deps.len()
        invariant
            j <= deps@.len(),
            idxs@.len() == als@.len(),
            p == chain_view(idxs@, als.deep_view()),
            forall|k: int| 0 <= k < deps@.len() ==> utf8_len((#[trigger] deps@[k]).cr_alias@) <= b,
            sc + b <= cap <= usize::MAX,
            best_dep(p, sc as nat, deps@, visited@, 0, b0) == best_dep(p, sc as nat, deps@, visited@, j as int, opt_view(*best)),
            *best matches Some(e) ==> e.0@.len() == e.1@.len() && e.2 <= cap,
            forall|k: int| 0 <= k < deps@.len() ==> (#[trigger] deps@[k]).cr_idx < n,
            *best matches Some(e) ==> e.0@.len() > 0 && !visited@.contains(e.0@.last()) && e.0@.last() < n,
        decreases deps.len() - j,
    {
        let d = &deps[j];
        proof {
            assert(utf8_len(deps@[j as int].cr_alias@) <= b);
        }
        let len = byte_len(d.cr_alias.as_str());
        let ns = sc + len;
        let fresh = !contains_usize(visited, d.cr_idx);
        let better = match &*best {
            None => true,
            Some(e) => e.2 > ns,
        };
        if fresh && better {
            let (ni, na) = extend_chain(idxs, als, d);
            proof {
                assert(chain_view(ni@, na.deep_view()).last().0 == ni@.last());
                assert(deps@[j as int].cr_idx < n);
            }
            *best = Some((ni, na, ns));
        }
        j = j + 1;
    }
}

/// The outcome of one round: the index of the chain that reaches the target,
/// the cheapest new chain, or nothing.
enum ScanOut {
    Found(usize),
    Extend(ChainEntry),
    Stuck,
}

fn scan_exec(front: &Vec<ChainEntry>, visited: &Vec<usize>, crates: &Vec<ItemsCrate>, target: usize, Ghost(b): Ghost<nat>) -> (r: ScanOut)
    requires
        crates_searchable(crates@),
        b * crates@.len() <= usize::MAX,
        forall|i: int, j: int| 0 <= i < crates@.len() && 0 <= j < crates@[i].dependencies@.len() ==>
            utf8_len((#[trigger] crates@[i].dependencies@[j]).cr_alias@) <= b,
        front@.len() <= crates@.len(),
        forall|k: int| 0 <= k < front@.len() ==> {
            &&& (#[trigger] front@[k]).0@.len() == front@[k].1@.len()
            &&& front@[k].0@.len() > 0
            &&& front@[k].0@.last() < crates@.len()
            &&& front@[k].2 <= k * b
        },
    ensures
        match r {
            ScanOut::Found(k) => k < front@.len() && scan(front_view(front@), visited@, crates@, target, 0, None) == Round::Found(front_view(front@)[k as int].0),
            ScanOut::Extend(e) => scan(front_view(front@), visited@, crates@, target, 0, None) == Round::Extend(entry_view(e).0, entry_view(e).1)
                && e.0@.len() == e.1@.len() && e.2 <= front@.len() * b
                && e.0@.len() > 0 && !visited@.contains(e.0@.last()) && e.0@.last() < crates@.len(),
            ScanOut::Stuck => scan(front_view(front@), visited@, crates@, target, 0, None) == Round::Stuck,
        },
{
    let ghost fv = front_view(front@);
    let ghost cap = front@.len() * b;
    proof {
        assert(cap <= usize::MAX) by (nonlinear_arith)
            requires
                cap == front@.len() * b,
                front@.len() <= crates@.len(),
                b * crates@.len() <= usize::MAX;
    }
    let mut best: Option<ChainEntry> = None;
    let mut k: usize = 0;
    while k < front.len()
        invariant
            k <= front@.len(),
            fv == front_view(front@),
            cap == front@.len() * b,
            cap <= usize::MAX,
            crates_searchable(crates@),
            forall|i: int, j: int| 0 <= i < crates@.len() && 0 <= j < crates@[i].dependencies@.len() ==>
                utf8_len((#[trigger] crates@[i].dependencies@[j]).cr_alias@) <= b,
            forall|q: int| 0 <= q < front@.len() ==> {
                &&& (#[trigger] front@[q]).0@.len() == front@[q].1@.len()
                &&& front@[q].0@.len() > 0
                &&& front@[q].0@.last() < crates@.len()
                &&& front@[q].2 <= q * b
            },
            scan(fv, visited@, crates@, target, 0, None) == scan(fv, visited@, crates@, target, k as int, opt_view(best)),
            best matches Some(e) ==> e.0@.len() == e.1@.len() && e.2 <= cap,
            best matches Some(e) ==> e.0@.len() > 0 && !visited@.contains(e.0@.last()) && e.0@.last() < crates@.len(),
        decreases front.len() - k,
    {
        let e = &front[k];
        let n = e.0.len();
        let last = e.0[n - 1];
        proof {
            assert(fv[k as int] == entry_view(*e));
            assert(chain_view(e.0@, e.1.deep_view()).last().0 == last);
        }
        if last == target {
            return ScanOut::Found(k);
        }
        proof {
            assert(e.2 + b <= cap) by (nonlinear_arith)
                requires
                    e.2 <= k * b,
                    k < front@.len(),
                    cap == front@.len() * b;
            assert forall|j: int| 0 <= j < crates@[last as int].dependencies@.len() implies
                utf8_len((#[trigger] crates@[last as int].dependencies@[j]).cr_alias@) <= b by {}
            assert forall|j: int| 0 <= j < crates@[last as int].dependencies@.len() implies
                (#[trigger] crates@[last as int].dependencies@[j]).cr_idx < crates@.len() by {}
        }
        best_dep_exec(&e.0, &e.1, e.2, &crates[last].dependencies, visited, &mut best, Ghost(b), Ghost(cap), Ghost(crates@.len() as nat));
        k = k + 1;
    }
    match best {
        Some(e) => ScanOut::Extend(e),
        None => ScanOut::Stuck,
    }
}


/// The names of the steps of a held chain from its second on, each followed by
/// the namespace module, without the last namespace module.
fn chain_use_path(e: &ChainEntry) -> (r: Vec<String>)
    requires
        e.0@.len() == e.1@.len(),
        e.0@.len() > 0,
    ensures
        r.deep_view() == pop_last(alias_ns(chain_view(e.0@, e.1.deep_view()).skip(1))),
{
    let ghost q = chain_view(e.0@, e.1.deep_view()).skip(1);
    let mut up: Vec<String> = Vec::new();
    let mut i: usize = 1;
    proof {
        assert(q.take(0) =~= Seq::<(usize, Seq<char>)>::empty());
        assert(up.deep_view() =~= alias_ns(q.take(0)));
    }
    while i < e.1.len()
        invariant
            1 <= i <= e.1@.len(),
            e.0@.len() == e.1@.len(),
            q == chain_view(e.0@, e.1.deep_view()).skip(1),
            up.deep_view() == alias_ns(q.take(i - 1)),
        decreases e.1.len() - i,
    {
        let ghost u0 = up@;
        let ghost m = i - 1;
        up.push(e.1[i].clone());
        up.push(String::from_str(NAMESPACE));
        proof {
            assert(q.take(m + 1).drop_last() =~= q.take(m));
            assert(q.take(m + 1).last() == q[m]);
            assert(q[m].1 == e.1@[i as int]@);
            assert forall|j: int| 0 <= j < up@.len() implies up.deep_view()[j] == (alias_ns(q.take(m)) + seq![q[m].1, NAMESPACE@])[j] by {
                if j < u0.len() {
                    assert(up@[j] == u0[j]);
                }
            }
            assert(up.deep_view() =~= alias_ns(q.take(m + 1)));
        }
        i = i + 1;
    }
    proof {
        assert(q.take(e.1@.len() - 1) =~= q);
    }
    let ghost full = up.deep_view();
    if up.len() > 0 {
        let ghost u0 = up@;
        up.pop();
        proof {
            assert forall|j: int| 0 <= j < up@.len() implies up.deep_view()[j] == full.drop_last()[j] by {
                assert(up@[j] == u0[j]);
            }
            assert(up.deep_view() =~= full.drop_last());
        }
    }
    up
}

impl Path {
    /// The path by which crate `cr_idx` names this item (see `path_from_view`),
    /// or none when no chain of dependencies leads to its crate.
    pub fn try_path_from(&self, cr_idx: usize, crates: &Vec<ItemsCrate>) -> (r: Option<Vec<String>>)
        requires
            cr_idx != self.cr_idx ==> cr_idx < crates@.len() && self.path@.len() >= 1 && crates_searchable(crates@),
        ensures
            match r {
                Some(v) => path_from_view(self@, cr_idx, crates@) == Some(v.deep_view()),
                None => path_from_view(self@, cr_idx, crates@) is None,
            },
    {
        if cr_idx == self.cr_idx {
            return Some(crate::ast_resolve::clone_strings(&self.path));
        }
        let n = crates.len();
        let ghost b: nat = ((usize::MAX as nat) / (n as nat)) as nat;
        proof {
            assert(b * n <= usize::MAX) by (nonlinear_arith)
                requires
                    b == (usize::MAX as nat) / (n as nat),
                    n > 0;
            assert forall|i: int, j: int| 0 <= i < crates@.len() && 0 <= j < crates@[i].dependencies@.len() implies
                utf8_len((#[trigger] crates@[i].dependencies@[j]).cr_alias@) <= b by {
                let l = utf8_len(crates@[i].dependencies@[j].cr_alias@);
                assert(l * n <= usize::MAX);
                assert(l <= b) by (nonlinear_arith)
                    requires
                        l * n <= usize::MAX,
                        b == (usize::MAX as nat) / (n as nat),
                        n > 0;
            }
        }
        let mut start_i: Vec<usize> = Vec::new();
        start_i.push(cr_idx);
        let mut start_a: Vec<String> = Vec::new();
        start_a.push(String::new());
        let mut front: Vec<ChainEntry> = Vec::new();
        front.push((start_i, start_a, 0));
        let mut visited: Vec<usize> = Vec::new();
        visited.push(0);
        proof {
            reveal_strlit("");
            assert(front_view(front@) =~= seq![(seq![(cr_idx, Seq::<char>::empty())], 0nat)]) by {
                assert(entry_view(front@[0]).0 =~= seq![(cr_idx, Seq::<char>::empty())]);
            }
            assert(visited@ =~= seq![0usize]);
        }
        loop
            invariant
                n == crates@.len(),
                n > 0,
                cr_idx != self.cr_idx,
                self.path@.len() >= 1,
                crates_searchable(crates@),
                b * n <= usize::MAX,
                forall|i: int, j: int| 0 <= i < crates@.len() && 0 <= j < crates@[i].dependencies@.len() ==>
                    utf8_len((#[trigger] crates@[i].dependencies@[j]).cr_alias@) <= b,
                front@.len() == visited@.len(),
                visited@.len() >= 1,
                visited@.no_duplicates(),
                forall|i: int| 0 <= i < visited@.len() ==> #[trigger] visited@[i] < n,
                forall|q: int| 0 <= q < front@.len() ==> {
                    &&& (#[trigger] front@[q]).0@.len() == front@[q].1@.len()
                    &&& front@[q].0@.len() > 0
                    &&& front@[q].0@.last() < crates@.len()
                    &&& front@[q].2 <= q * b
                },
                route(cr_idx, self.cr_idx, crates@) == run(front_view(front@), visited@, crates@, self.cr_idx, (n + 1 - visited@.len()) as nat),
            decreases n + 1 - visited@.len(),
        {
            proof {
                lemma_distinct_below(visited@, n as nat);
            }
            match scan_exec(&front, &visited, crates, self.cr_idx, Ghost(b)) {
                ScanOut::Found(k) => {
                    let up = chain_use_path(&front[k]);
                    let r = crate::ast_resolve::concat_from(&up, &self.path, 1);
                    proof {
                        assert(front_view(front@)[k as int] == entry_view(front@[k as int]));
                    }
                    return Some(r);
                },
                ScanOut::Stuck => {
                    return None;
                },
                ScanOut::Extend(e) => {
                    let last = e.0[e.0.len() - 1];
                    let ghost fv0 = front_view(front@);
                    let ghost v0 = visited@;
                    let ghost f0 = front@;
                    proof {
                        assert(chain_view(e.0@, e.1.deep_view()).last().0 == last);
                    }
                    visited.push(last);
                    front.push(e);
                    proof {
                        assert(front_view(front@) =~= fv0.push(entry_view(e))) by {
                            assert forall|q: int| 0 <= q < front@.len() implies front_view(front@)[q] == fv0.push(entry_view(e))[q] by {
                                if q < f0.len() {
                                    assert(front@[q] == f0[q]);
                                }
                            }
                        }
                        assert(visited@.no_duplicates()) by {
                            assert forall|i: int, j: int| 0 <= i < visited@.len() && 0 <= j < visited@.len() && i != j implies visited@[i] != visited@[j] by {
                                if i < v0.len() && j < v0.len() {
                                    assert(v0[i] != v0[j]);
                                } else if i < v0.len() {
                                    assert(v0.contains(v0[i]));
                                } else if j < v0.len() {
                                    assert(v0.contains(v0[j]));
                                }
                            }
                        }
                        assert forall|q: int| 0 <= q < front@.len() implies {
                            &&& (#[trigger] front@[q]).0@.len() == front@[q].1@.len()
                            &&& front@[q].0@.len() > 0
                            &&& front@[q].0@.last() < crates@.len()
                            &&& front@[q].2 <= q * b
                        } by {
                            if q < f0.len() {
                                assert(front@[q] == f0[q]);
                            }
                        }
                    }
                },
            }
        }
    }

    /// The path by which crate `cr_idx` names this item, which a chain of
    /// dependencies reaches (see `path_from_view`).
    pub fn path_from(&self, cr_idx: usize, crates: &Vec<ItemsCrate>) -> (r: Vec<String>)
        requires
            cr_idx != self.cr_idx ==> cr_idx < crates@.len() && self.path@.len() >= 1 && crates_searchable(crates@),
            path_from_view(self@, cr_idx, crates@) is Some,
        ensures
            path_from_view(self@, cr_idx, crates@) == Some(r.deep_view()),
    {
        match self.try_path_from(cr_idx, crates) {
            Some(v) => v,
            None => Vec::new(),
        }
    }
}

} // verus!
