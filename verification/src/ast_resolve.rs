use vstd::prelude::*;

verus! {

/// An item path within crate `cr_idx`.
#[derive(Clone, Debug)]
pub struct Path {
    pub cr_idx: usize,
    pub path: Vec<String>,
}

/// A path as numbers and character sequences.
pub struct PathView {
    pub cr_idx: usize,
    pub path: Seq<Seq<char>>,
}

impl View for Path {
    type V = PathView;

    open spec fn view(&self) -> PathView {
        PathView { cr_idx: self.cr_idx, path: self.path.deep_view() }
    }
}

} // verus!

verus! {

use crate::ast_crate::Crate;
use crate::ast_mod::{Mod, Symbol};

/// The path segment that names the current crate.
pub open spec fn crate_kw() -> Seq<char> {
    seq!['c', 'r', 'a', 't', 'e']
}

/// The name of a glob import.
pub open spec fn glob_kw() -> Seq<char> {
    seq!['*']
}

/// The outcome of a resolution as numbers and character sequences.
pub open spec fn res_view(r: Result<Path, Path>) -> Result<PathView, PathView> {
    match r {
        Ok(p) => Ok(p@),
        Err(p) => Err(p@),
    }
}

/// A path in crate `cr_idx`.
pub open spec fn pv(cr_idx: usize, path: Seq<Seq<char>>) -> PathView {
    PathView { cr_idx, path }
}

/// Looking through the dependencies from the `k`-th on for the first one named
/// `name`: `Some(Some(i))` with its crate index, `Some(None)` when there is none,
/// `None` when a dependency whose crate index is not below `n` comes first (or is
/// the match).
pub open spec fn dep_lookup(deps: Seq<(usize, String)>, name: Seq<char>, n: nat, k: int) -> Option<Option<usize>>
    decreases deps.len() - k,
{
    if k < 0 || k >= deps.len() {
        Some(None)
    } else if deps[k].0 >= n {
        None
    } else if deps[k].1@ == name {
        Some(Some(deps[k].0))
    } else {
        dep_lookup(deps, name, n, k + 1)
    }
}

/// Looking among `mods` from the `k`-th on for the first submodule whose last
/// path segment is `name`: `Some(Some(i))` when it is the `i`-th, `Some(None)`
/// when there is none, `None` when a submodule with an empty path comes first.
pub open spec fn mod_search(mods: Seq<Mod>, name: Seq<char>, k: int) -> Option<Option<int>>
    decreases mods.len() - k,
{
    if k < 0 || k >= mods.len() {
        Some(None)
    } else if mods[k].path@.len() == 0 {
        None
    } else if mods[k].path.deep_view().last() == name {
        Some(Some(k))
    } else {
        mod_search(mods, name, k + 1)
    }
}

/// The first public symbol named `name`.
pub open spec fn pub_symbol(syms: Seq<Symbol>, name: Seq<char>, k: int) -> Option<int>
    decreases syms.len() - k,
{
    if k < 0 || k >= syms.len() {
        None
    } else if syms[k].public && syms[k].ident@ == name {
        Some(k)
    } else {
        pub_symbol(syms, name, k + 1)
    }
}

/// The first symbol (public or not) that is a glob or is named `name`.
pub open spec fn local_candidate(syms: Seq<Symbol>, name: Seq<char>, k: int) -> Option<int>
    decreases syms.len() - k,
{
    if k < 0 || k >= syms.len() {
        None
    } else if syms[k].ident@ == glob_kw() || syms[k].ident@ == name {
        Some(k)
    } else {
        local_candidate(syms, name, k + 1)
    }
}

/// Resolution of `path` from crate `cr` within `fuel` steps: `None` when it takes
/// more steps (or would stop on a malformed crate), else `Ok` with the path of the
/// item in the crate that declares it, or `Err` with the path as given.
/// The first segment is `crate` or the name of one of `cr`'s dependencies.
pub open spec fn res(fuel: nat, path: Seq<Seq<char>>, cr: Crate, crates: Seq<Crate>) -> Option<Result<PathView, PathView>>
    decreases fuel, 0nat,
{
    if fuel == 0 {
        None
    } else if path.len() == 0 {
        Some(Err(pv(cr.idx, path)))
    } else if path[0] == crate_kw() {
        res_mod((fuel - 1) as nat, path, 1, cr, cr.main, crates)
    } else {
        match dep_lookup(cr.deps@, path[0], crates.len(), 0) {
            None => None,
            Some(None) => Some(Err(pv(cr.idx, path))),
            Some(Some(i)) => res_mod((fuel - 1) as nat, path, 1, crates[i as int], crates[i as int].main, crates),
        }
    }
}

/// Resolution of `path[idx..]` in module `m` of crate `cr`: a submodule named
/// `path[idx]` is entered, else a public item of that name is the answer, else the
/// public `use` items are tried in order.
pub open spec fn res_mod(fuel: nat, path: Seq<Seq<char>>, idx: int, cr: Crate, m: Mod, crates: Seq<Crate>) -> Option<Result<PathView, PathView>>
    decreases fuel, 0nat,
{
    if fuel == 0 {
        None
    } else if idx == path.len() {
        Some(Ok(pv(cr.idx, path)))
    } else if idx < 0 || idx > path.len() {
        None
    } else {
        let name = path[idx];
        match mod_search(m.mods@, name, 0) {
            None => None,
            Some(Some(i)) => res_mod((fuel - 1) as nat, path, idx + 1, cr, m.mods@[i], crates),
            Some(None) => match pub_symbol(m.symbols@, name, 0) {
                Some(s) => Some(Ok(pv(cr.idx, m.symbols@[s].path.deep_view()))),
                None => res_uses((fuel - 1) as nat, path, idx, cr, m, crates, 0),
            },
        }
    }
}

/// The public `use` items of `m` from the `k`-th on: a glob answers when the rest
/// of the path resolves through it, an import named `path[idx]` answers with
/// whatever it resolves to.
pub open spec fn res_uses(fuel: nat, path: Seq<Seq<char>>, idx: int, cr: Crate, m: Mod, crates: Seq<Crate>, k: int) -> Option<Result<PathView, PathView>>
    decreases fuel, m.uses@.len() + 1 - k,
{
    if fuel == 0 || idx < 0 || idx >= path.len() || k < 0 {
        None
    } else if k >= m.uses@.len() {
        Some(Err(pv(cr.idx, path)))
    } else {
        let sym = m.uses@[k];
        if !sym.public {
            res_uses(fuel, path, idx, cr, m, crates, k + 1)
        } else if sym.ident@ == glob_kw() {
            let p2 = sym.path.deep_view() + path.skip(idx);
            match res_either((fuel - 1) as nat, p2, cr, m, crates) {
                None => None,
                Some(Ok(v)) => Some(Ok(v)),
                Some(Err(_)) => res_uses(fuel, path, idx, cr, m, crates, k + 1),
            }
        } else if sym.ident@ == path[idx] {
            res_either((fuel - 1) as nat, sym.path.deep_view() + path.skip(idx + 1), cr, m, crates)
        } else {
            res_uses(fuel, path, idx, cr, m, crates, k + 1)
        }
    }
}

/// `path` resolved from module `m`, and failing that from the crate.
pub open spec fn res_either(fuel: nat, path: Seq<Seq<char>>, cr: Crate, m: Mod, crates: Seq<Crate>) -> Option<Result<PathView, PathView>>
    decreases fuel, 1nat,
{
    match res_local(fuel, path, cr, m, crates) {
        None => None,
        Some(Ok(v)) => Some(Ok(v)),
        Some(Err(_)) => res(fuel, path, cr, crates),
    }
}

/// `path` resolved relative to module `m`: through the first item or import of
/// `m` that is a glob or is named `path[0]`, if any.
pub open spec fn res_local(fuel: nat, path: Seq<Seq<char>>, cr: Crate, m: Mod, crates: Seq<Crate>) -> Option<Result<PathView, PathView>>
    decreases fuel, 0nat,
{
    if fuel == 0 || path.len() == 0 {
        None
    } else {
        let all = m.symbols@ + m.uses@;
        match local_candidate(all, path[0], 0) {
            None => Some(Err(pv(cr.idx, path))),
            Some(s) => {
                let sym = all[s];
                let pp = if sym.ident@ == glob_kw() { sym.path.deep_view() + path } else { sym.path.deep_view() + path.skip(1) };
                res((fuel - 1) as nat, pp, cr, crates)
            },
        }
    }
}

} // verus!

verus! {

use crate::text::str_eq;

/// `a` followed by `b[from..]`.
pub fn concat_from(a: &Vec<String>, b: &Vec<String>, from: usize) -> (r: Vec<String>)
    requires
        from <= b.len(),
    ensures
        r.deep_view() == a.deep_view() + b.deep_view().skip(from as int),
{
    let mut r: Vec<String> = Vec::new();
    let mut i: usize = 0;
    while i < a.len()
        invariant
            i <= a.len(),
            r@.len() == i,
            r.deep_view() == a.deep_view().take(i as int),
        decreases a.len() - i,
    {
        let ghost old_r = r@;
        r.push(a[i].clone());
        proof {
            assert forall|j: int| 0 <= j < i + 1 implies r.deep_view()[j] == a.deep_view().take(i + 1)[j] by {
                if j < i {
                    assert(r@[j] == old_r[j]);
                }
            }
            assert(r.deep_view() =~= a.deep_view().take(i + 1));
        }
        i = i + 1;
    }
    let mut k: usize = from;
    while k < b.len()
        invariant
            from <= k <= b.len(),
            r@.len() == a@.len() + (k - from),
            r.deep_view() == a.deep_view() + b.deep_view().subrange(from as int, k as int),
        decreases b.len() - k,
    {
        let ghost old_r = r@;
        let ghost old_dv = r.deep_view();
        r.push(b[k].clone());
        proof {
            let target = a.deep_view() + b.deep_view().subrange(from as int, k + 1);
            assert forall|j: int| 0 <= j < r@.len() implies r.deep_view()[j] == target[j] by {
                if j < old_r.len() {
                    assert(r@[j] == old_r[j]);
                    assert(old_dv[j] == target[j]);
                } else {
                    assert(j == a@.len() + (k - from));
                    assert(target[j] == b.deep_view()[k as int]);
                }
            }
            assert(r.deep_view() =~= target);
        }
        k = k + 1;
    }
    proof {
        assert(a.deep_view().take(a@.len() as int) =~= a.deep_view());
        assert(b.deep_view().subrange(from as int, b@.len() as int) =~= b.deep_view().skip(from as int));
    }
    r
}

/// Copies the strings of `v`.
pub fn clone_strings(v: &Vec<String>) -> (r: Vec<String>)
    ensures
        r.deep_view() == v.deep_view(),
{
    let e: Vec<String> = Vec::new();
    let r = concat_from(v, &e, 0);
    proof {
        assert(v.deep_view() + e.deep_view().skip(0) =~= v.deep_view());
    }
    r
}

pub(crate) fn mk_path(cr_idx: usize, path: &Vec<String>) -> (p: Path)
    ensures
        p@ == pv(cr_idx, path.deep_view()),
{
    Path { cr_idx, path: clone_strings(path) }
}

#[verifier::loop_isolation(false)]
fn resolve_fuel(path: Vec<String>, cr: &Crate, crates: &Vec<Crate>, Ghost(fuel): Ghost<nat>) -> (r: Result<Path, Path>)
    requires
        res(fuel, path.deep_view(), *cr, crates@) is Some,
    ensures
        Some(res_view(r)) == res(fuel, path.deep_view(), *cr, crates@),
    decreases fuel, 0nat,
{
    let cr_idx = cr.idx;
    if path.len() == 0 {
        return Err(Path { cr_idx, path });
    }
    proof {
        reveal_strlit("crate");
        assert("crate"@ =~= crate_kw());
    }
    if str_eq(path[0].as_str(), "crate") {
        return resolve_mod_fuel(path, 1, cr, &cr.main, crates, Ghost((fuel - 1) as nat));
    }
    let mut k: usize = 0;
    while k < cr.deps.len()
        invariant
            k <= cr.deps@.len(),
            path@.len() > 0,
            dep_lookup(cr.deps@, path.deep_view()[0], crates@.len(), 0) == dep_lookup(cr.deps@, path.deep_view()[0], crates@.len(), k as int),
        decreases cr.deps.len() - k,
    {
        let idx = cr.deps[k].0;
        if idx >= crates.len() {
            proof {
                assert(false);
            }
        }
        if cr.deps[k].1 == path[0] {
            return resolve_mod_fuel(path, 1, &crates[idx], &crates[idx].main, crates, Ghost((fuel - 1) as nat));
        }
        k = k + 1;
    }
    Err(Path { cr_idx, path })
}

#[verifier::loop_isolation(false)]
fn resolve_mod_fuel(path: Vec<String>, idx: usize, cr: &Crate, m: &Mod, crates: &Vec<Crate>, Ghost(fuel): Ghost<nat>) -> (r: Result<Path, Path>)
    requires
        res_mod(fuel, path.deep_view(), idx as int, *cr, *m, crates@) is Some,
    ensures
        Some(res_view(r)) == res_mod(fuel, path.deep_view(), idx as int, *cr, *m, crates@),
    decreases fuel, 0nat,
{
    let cr_idx = cr.idx;
    if idx == path.len() {
        return Ok(Path { cr_idx, path });
    }
    let ghost name = path.deep_view()[idx as int];
    let mut i: usize = 0;
    while i < m.mods.len()
        invariant
            idx < path@.len(),
            i <= m.mods@.len(),
            mod_search(m.mods@, name, 0) == mod_search(m.mods@, name, i as int),
        decreases m.mods.len() - i,
    {
        let sub = &m.mods[i];
        if sub.path.len() == 0 {
            proof {
                assert(false);
            }
        }
        if sub.path[sub.path.len() - 1] == path[idx] {
            return resolve_mod_fuel(path, idx + 1, cr, sub, crates, Ghost((fuel - 1) as nat));
        }
        i = i + 1;
    }
    let mut s: usize = 0;
    while s < m.symbols.len()
        invariant
            idx < path@.len(),
            s <= m.symbols@.len(),
            pub_symbol(m.symbols@, name, 0) == pub_symbol(m.symbols@, name, s as int),
        decreases m.symbols.len() - s,
    {
        let sym = &m.symbols[s];
        if sym.public && sym.ident == path[idx] {
            return Ok(mk_path(cr_idx, &sym.path));
        }
        s = s + 1;
    }
    resolve_uses_fuel(path, idx, cr, m, crates, Ghost((fuel - 1) as nat))
}

#[verifier::loop_isolation(false)]
fn resolve_uses_fuel(path: Vec<String>, idx: usize, cr: &Crate, m: &Mod, crates: &Vec<Crate>, Ghost(fuel): Ghost<nat>) -> (r: Result<Path, Path>)
    requires
        res_uses(fuel, path.deep_view(), idx as int, *cr, *m, crates@, 0) is Some,
    ensures
        Some(res_view(r)) == res_uses(fuel, path.deep_view(), idx as int, *cr, *m, crates@, 0),
    decreases fuel, m.uses@.len() + 1,
{
    proof {
        reveal_strlit("*");
        assert("*"@ =~= glob_kw());
    }
    let mut k: usize = 0;
    while k < m.uses.len()
        invariant
            fuel > 0,
            idx < path@.len(),
            k <= m.uses@.len(),
            res_uses(fuel, path.deep_view(), idx as int, *cr, *m, crates@, 0) is Some,
            res_uses(fuel, path.deep_view(), idx as int, *cr, *m, crates@, 0)
                == res_uses(fuel, path.deep_view(), idx as int, *cr, *m, crates@, k as int),
        decreases m.uses.len() - k,
    {
        let sym = &m.uses[k];
        if sym.public {
            if str_eq(sym.ident.as_str(), "*") {
                let p2 = concat_from(&sym.path, &path, idx);
                match resolve_either_fuel(p2, cr, m, crates, Ghost((fuel - 1) as nat)) {
                    Ok(v) => {
                        return Ok(v);
                    },
                    Err(_) => {},
                }
            } else if sym.ident == path[idx] {
                let p2 = concat_from(&sym.path, &path, idx + 1);
                return resolve_either_fuel(p2, cr, m, crates, Ghost((fuel - 1) as nat));
            }
        }
        k = k + 1;
    }
    Err(Path { cr_idx: cr.idx, path })
}

fn resolve_either_fuel(path: Vec<String>, cr: &Crate, m: &Mod, crates: &Vec<Crate>, Ghost(fuel): Ghost<nat>) -> (r: Result<Path, Path>)
    requires
        res_either(fuel, path.deep_view(), *cr, *m, crates@) is Some,
    ensures
        Some(res_view(r)) == res_either(fuel, path.deep_view(), *cr, *m, crates@),
    decreases fuel, 1nat,
{
    let copy = clone_strings(&path);
    match resolve_local_fuel(copy, cr, m, crates, Ghost(fuel)) {
        Ok(v) => Ok(v),
        Err(_) => resolve_fuel(path, cr, crates, Ghost(fuel)),
    }
}

#[verifier::loop_isolation(false)]
fn resolve_local_fuel(path: Vec<String>, cr: &Crate, m: &Mod, crates: &Vec<Crate>, Ghost(fuel): Ghost<nat>) -> (r: Result<Path, Path>)
    requires
        res_local(fuel, path.deep_view(), *cr, *m, crates@) is Some,
    ensures
        Some(res_view(r)) == res_local(fuel, path.deep_view(), *cr, *m, crates@),
    decreases fuel, 0nat,
{
    proof {
        reveal_strlit("*");
        assert("*"@ =~= glob_kw());
    }
    let ghost all = m.symbols@ + m.uses@;
    let ghost name = path.deep_view()[0];
    let mut s: usize = 0;
    while s < m.symbols.len()
        invariant
            path@.len() > 0,
            s <= m.symbols@.len(),
            all == m.symbols@ + m.uses@,
            local_candidate(all, name, 0) == local_candidate(all, name, s as int),
        decreases m.symbols.len() - s,
    {
        let sym = &m.symbols[s];
        assert(all[s as int] == *sym);
        if str_eq(sym.ident.as_str(), "*") {
            assert(local_candidate(all, name, s as int) == Some(s as int));
            assert(path.deep_view().skip(0) =~= path.deep_view());
            let pp = concat_from(&sym.path, &path, 0);
            return resolve_fuel(pp, cr, crates, Ghost((fuel - 1) as nat));
        } else if sym.ident == path[0] {
            assert(local_candidate(all, name, s as int) == Some(s as int));
            let pp = concat_from(&sym.path, &path, 1);
            return resolve_fuel(pp, cr, crates, Ghost((fuel - 1) as nat));
        }
        s = s + 1;
    }
    let mut u: usize = 0;
    while u < m.uses.len()
        invariant
            path@.len() > 0,
            u <= m.uses@.len(),
            all == m.symbols@ + m.uses@,
            local_candidate(all, name, 0) == local_candidate(all, name, (m.symbols@.len() + u) as int),
        decreases m.uses.len() - u,
    {
        let sym = &m.uses[u];
        assert(all[m.symbols@.len() + u] == *sym);
        if str_eq(sym.ident.as_str(), "*") {
            assert(local_candidate(all, name, (m.symbols@.len() + u) as int) == Some((m.symbols@.len() + u) as int));
            assert(path.deep_view().skip(0) =~= path.deep_view());
            let pp = concat_from(&sym.path, &path, 0);
            return resolve_fuel(pp, cr, crates, Ghost((fuel - 1) as nat));
        } else if sym.ident == path[0] {
            assert(local_candidate(all, name, (m.symbols@.len() + u) as int) == Some((m.symbols@.len() + u) as int));
            let pp = concat_from(&sym.path, &path, 1);
            return resolve_fuel(pp, cr, crates, Ghost((fuel - 1) as nat));
        }
        u = u + 1;
    }
    Err(Path { cr_idx: cr.idx, path })
}

} // verus!

verus! {

/// Resolving `path` from crate `cr` ends (it does not cycle through imports,
/// and every crate and module it meets is well formed).
pub open spec fn resolvable(path: Seq<Seq<char>>, cr: Crate, crates: Seq<Crate>) -> bool {
    exists|fuel: nat| #[trigger] res(fuel, path, cr, crates) is Some
}

/// What resolving `path` from crate `cr` gives (see `res`).
pub open spec fn resolution(path: Seq<Seq<char>>, cr: Crate, crates: Seq<Crate>) -> Result<PathView, PathView> {
    res(choose|fuel: nat| #[trigger] res(fuel, path, cr, crates) is Some, path, cr, crates).unwrap()
}

/// Resolving `path[idx..]` in module `m` of crate `cr` ends.
pub open spec fn mod_resolvable(path: Seq<Seq<char>>, idx: int, cr: Crate, m: Mod, crates: Seq<Crate>) -> bool {
    exists|fuel: nat| #[trigger] res_mod(fuel, path, idx, cr, m, crates) is Some
}

/// What resolving `path[idx..]` in module `m` of crate `cr` gives (see `res_mod`).
pub open spec fn mod_resolution(path: Seq<Seq<char>>, idx: int, cr: Crate, m: Mod, crates: Seq<Crate>) -> Result<PathView, PathView> {
    res_mod(choose|fuel: nat| #[trigger] res_mod(fuel, path, idx, cr, m, crates) is Some, path, idx, cr, m, crates).unwrap()
}

/// Resolving `path` relative to module `m` of crate `cr` ends.
pub open spec fn local_resolvable(path: Seq<Seq<char>>, cr: Crate, m: Mod, crates: Seq<Crate>) -> bool {
    exists|fuel: nat| #[trigger] res_local(fuel, path, cr, m, crates) is Some
}

/// What resolving `path` relative to module `m` of crate `cr` gives (see `res_local`).
pub open spec fn local_resolution(path: Seq<Seq<char>>, cr: Crate, m: Mod, crates: Seq<Crate>) -> Result<PathView, PathView> {
    res_local(choose|fuel: nat| #[trigger] res_local(fuel, path, cr, m, crates) is Some, path, cr, m, crates).unwrap()
}

/// Resolving `path` from module `m`, and failing that from crate `cr`, ends.
pub open spec fn either_resolvable(path: Seq<Seq<char>>, cr: Crate, m: Mod, crates: Seq<Crate>) -> bool {
    exists|fuel: nat| #[trigger] res_either(fuel, path, cr, m, crates) is Some
}

/// What resolving `path` from module `m`, and failing that from crate `cr`,
/// gives (see `res_either`).
pub open spec fn either_resolution(path: Seq<Seq<char>>, cr: Crate, m: Mod, crates: Seq<Crate>) -> Result<PathView, PathView> {
    res_either(choose|fuel: nat| #[trigger] res_either(fuel, path, cr, m, crates) is Some, path, cr, m, crates).unwrap()
}

/// The path that `path`, written in module `m`, stands for: its resolution,
/// or the path as written where it does not resolve.
pub open spec fn target(path: Seq<Seq<char>>, cr: Crate, m: Mod, crates: Seq<Crate>) -> PathView {
    match either_resolution(path, cr, m, crates) {
        Ok(v) => v,
        Err(v) => v,
    }
}

/// Resolves an item path written in crate `cr`: its first segment is `crate` or
/// the name of a dependency; `Ok` gives the path of the item in the crate that
/// declares it, `Err` the path as given with `cr`'s index.
pub fn resolve(path: Vec<String>, cr: &Crate, crates: &Vec<Crate>) -> (r: Result<Path, Path>)
    requires
        resolvable(path.deep_view(), *cr, crates@),
    ensures
        res_view(r) == resolution(path.deep_view(), *cr, crates@),
{
    let ghost fuel = choose|fuel: nat| #[trigger] res(fuel, path.deep_view(), *cr, crates@) is Some;
    resolve_fuel(path, cr, crates, Ghost(fuel))
}

/// Resolves `path[idx..]` in module `m` of crate `cr` (see `res_mod`).
pub fn resolve_mod(path: Vec<String>, idx: usize, cr: &Crate, m: &Mod, crates: &Vec<Crate>) -> (r: Result<Path, Path>)
    requires
        mod_resolvable(path.deep_view(), idx as int, *cr, *m, crates@),
    ensures
        res_view(r) == mod_resolution(path.deep_view(), idx as int, *cr, *m, crates@),
{
    let ghost fuel = choose|fuel: nat| #[trigger] res_mod(fuel, path.deep_view(), idx as int, *cr, *m, crates@) is Some;
    resolve_mod_fuel(path, idx, cr, m, crates, Ghost(fuel))
}

/// Resolves a path written in module `m` of crate `cr`: relative to the
/// module's items and imports, and failing that from the crate (see
/// `res_either`).
pub fn resolve_path(path: Vec<String>, cr: &Crate, m: &Mod, crates: &Vec<Crate>) -> (r: Result<Path, Path>)
    requires
        either_resolvable(path.deep_view(), *cr, *m, crates@),
    ensures
        res_view(r) == either_resolution(path.deep_view(), *cr, *m, crates@),
{
    let ghost fuel = choose|fuel: nat| #[trigger] res_either(fuel, path.deep_view(), *cr, *m, crates@) is Some;
    resolve_either_fuel(path, cr, m, crates, Ghost(fuel))
}

/// Resolves a path relative to module `m` of crate `cr` (see `res_local`).
pub fn resolve_local_path(path: Vec<String>, cr: &Crate, m: &Mod, crates: &Vec<Crate>) -> (r: Result<Path, Path>)
    requires
        local_resolvable(path.deep_view(), *cr, *m, crates@),
    ensures
        res_view(r) == local_resolution(path.deep_view(), *cr, *m, crates@),
{
    let ghost fuel = choose|fuel: nat| #[trigger] res_local(fuel, path.deep_view(), *cr, *m, crates@) is Some;
    resolve_local_fuel(path, cr, m, crates, Ghost(fuel))
}

} // verus!

verus! {

/// Whether two lists of strings are equal.
pub fn same_strings(a: &Vec<String>, b: &Vec<String>) -> (r: bool)
    ensures
        r == (a.deep_view() == b.deep_view()),
{
    if a.len() != b.len() {
        proof {
            assert(a.deep_view().len() != b.deep_view().len());
        }
        return false;
    }
    let mut i: usize = 0;
    while i < a.len()
        invariant
            a@.len() == b@.len(),
            i <= a@.len(),
            forall|j: int| 0 <= j < i ==> a.deep_view()[j] == b.deep_view()[j],
        decreases a.len() - i,
    {
        if a[i] != b[i] {
            proof {
                assert(a.deep_view()[i as int] != b.deep_view()[i as int]);
            }
            return false;
        }
        i = i + 1;
    }
    proof {
        assert(a.deep_view() =~= b.deep_view());
    }
    true
}

impl Path {
    /// Whether the two paths name the same item of the same crate.
    pub fn same(&self, other: &Path) -> (r: bool)
        ensures
            r == (self@ == other@),
    {
        self.cr_idx == other.cr_idx && same_strings(&self.path, &other.path)
    }
}

} // verus!
