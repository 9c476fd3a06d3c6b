use vstd::prelude::*;
use vstd::string::*;
use crate::ast_crate::Crate;
use crate::ast_fn_arg::{arg_resolvable, FnArg, FnArgType};
use crate::ast_mod::{MarkType, MarkedItem, Mod};
use crate::ast_paths::Paths;
use crate::ast_resolve::{
    concat_from, crate_kw, dep_lookup, either_resolution, either_resolvable, glob_kw, local_candidate, mk_path, target,
    mod_search, pub_symbol, res, res_either, res_local, res_mod, res_uses, res_view, Path, PathView,
};
use crate::items_parse::{macro_views, scan_ok, subs_ok, tree_ok};
use crate::text::str_eq;

verus! {

/// A bounded resolution as numbers and character sequences.
pub open spec fn bounded_view(r: Option<Result<Path, Path>>) -> Option<Result<PathView, PathView>> {
    match r {
        Some(x) => Some(res_view(x)),
        None => None,
    }
}

#[verifier::loop_isolation(false)]
fn res_within(path: &Vec<String>, cr: &Crate, crates: &Vec<Crate>, fuel: u64) -> (r: Option<Result<Path, Path>>)
    ensures
        bounded_view(r) == res(fuel as nat, path.deep_view(), *cr, crates@),
    decreases fuel, 0nat,
{
    if fuel == 0 {
        return None;
    }
    if path.len() == 0 {
        return Some(Err(mk_path(cr.idx, path)));
    }
    proof {
        reveal_strlit("crate");
        assert("crate"@ =~= crate_kw());
    }
    if str_eq(path[0].as_str(), "crate") {
        return res_mod_within(path, 1, cr, &cr.main, crates, fuel - 1);
    }
    let mut k: usize = 0;
    while k < cr.deps.len()
        invariant
            k <= cr.deps@.len(),
            path@.len() > 0,
            dep_lookup(cr.deps@, path.deep_view()[0], crates@.len(), 0) == dep_lookup(cr.deps@, path.deep_view()[0], crates@.len(), k as int),
        decreases cr.deps.len() - k,
    {
        let idx = cr.deps[k].0;
        if idx >= crates.len() {
            return None;
        }
        if cr.deps[k].1 == path[0] {
            return res_mod_within(path, 1, &crates[idx], &crates[idx].main, crates, fuel - 1);
        }
        k = k + 1;
    }
    Some(Err(mk_path(cr.idx, path)))
}

#[verifier::loop_isolation(false)]
fn res_mod_within(path: &Vec<String>, idx: usize, cr: &Crate, m: &Mod, crates: &Vec<Crate>, fuel: u64) -> (r: Option<Result<Path, Path>>)
    ensures
        bounded_view(r) == res_mod(fuel as nat, path.deep_view(), idx as int, *cr, *m, crates@),
    decreases fuel, 0nat,
{
    if fuel == 0 {
        return None;
    }
    if idx == path.len() {
        return Some(Ok(mk_path(cr.idx, path)));
    }
    if idx > path.len() {
        return None;
    }
    let ghost name = path.deep_view()[idx as int];
    let mut i: usize = 0;
    while i < m.mods.len()
        invariant
            idx < path@.len(),
            i <= m.mods@.len(),
            mod_search(m.mods@, name, 0) == mod_search(m.mods@, name, i as int),
        decreases m.mods.len() - i,
    {
        let sub = &m.mods[i];
        if sub.path.len() == 0 {
            return None;
        }
        if sub.path[sub.path.len() - 1] == path[idx] {
            return res_mod_within(path, idx + 1, cr, sub, crates, fuel - 1);
        }
        i = i + 1;
    }
    let mut s: usize = 0;
    while s < m.symbols.len()
        invariant
            idx < path@.len(),
            s <= m.symbols@.len(),
            pub_symbol(m.symbols@, name, 0) == pub_symbol(m.symbols@, name, s as int),
        decreases m.symbols.len() - s,
    {
        let sym = &m.symbols[s];
        if sym.public && sym.ident == path[idx] {
            return Some(Ok(mk_path(cr.idx, &sym.path)));
        }
        s = s + 1;
    }
    res_uses_within(path, idx, cr, m, crates, fuel - 1)
}

#[verifier::loop_isolation(false)]
fn res_uses_within(path: &Vec<String>, idx: usize, cr: &Crate, m: &Mod, crates: &Vec<Crate>, fuel: u64) -> (r: Option<Result<Path, Path>>)
    ensures
        bounded_view(r) == res_uses(fuel as nat, path.deep_view(), idx as int, *cr, *m, crates@, 0),
    decreases fuel, m.uses@.len() + 1,
{
    if fuel == 0 || idx >= path.len() {
        return None;
    }
    proof {
        reveal_strlit("*");
        assert("*"@ =~= glob_kw());
    }
    let mut k: usize = 0;
    while k < m.uses.len()
        invariant
            fuel > 0,
            idx < path@.len(),
            k <= m.uses@.len(),
            res_uses(fuel as nat, path.deep_view(), idx as int, *cr, *m, crates@, 0)
                == res_uses(fuel as nat, path.deep_view(), idx as int, *cr, *m, crates@, k as int),
        decreases m.uses.len() - k,
    {
        let sym = &m.uses[k];
        if sym.public {
            if str_eq(sym.ident.as_str(), "*") {
                let p2 = concat_from(&sym.path, path, idx);
                match res_either_within(&p2, cr, m, crates, fuel - 1) {
                    None => {
                        return None;
                    },
                    Some(Ok(v)) => {
                        return Some(Ok(v));
                    },
                    Some(Err(_)) => {},
                }
            } else if sym.ident == path[idx] {
                let plen = path.len();
                assert(idx < plen);
                let p2 = concat_from(&sym.path, path, idx + 1);
                return res_either_within(&p2, cr, m, crates, fuel - 1);
            }
        }
        k = k + 1;
    }
    Some(Err(mk_path(cr.idx, path)))
}

fn res_either_within(path: &Vec<String>, cr: &Crate, m: &Mod, crates: &Vec<Crate>, fuel: u64) -> (r: Option<Result<Path, Path>>)
    ensures
        bounded_view(r) == res_either(fuel as nat, path.deep_view(), *cr, *m, crates@),
    decreases fuel, 1nat,
{
    match res_local_within(path, cr, m, crates, fuel) {
        None => None,
        Some(Ok(v)) => Some(Ok(v)),
        Some(Err(_)) => res_within(path, cr, crates, fuel),
    }
}

#[verifier::loop_isolation(false)]
fn res_local_within(path: &Vec<String>, cr: &Crate, m: &Mod, crates: &Vec<Crate>, fuel: u64) -> (r: Option<Result<Path, Path>>)
    ensures
        bounded_view(r) == res_local(fuel as nat, path.deep_view(), *cr, *m, crates@),
    decreases fuel, 0nat,
{
    if fuel == 0 || path.len() == 0 {
        return None;
    }
    proof {
        reveal_strlit("*");
        assert("*"@ =~= glob_kw());
    }
    let ghost all = m.symbols@ + m.uses@;
    let ghost name = path.deep_view()[0];
    let mut s: usize = 0;
    while s < m.symbols.len()
        invariant
            path@.len() > 0,
            s <= m.symbols@.len(),
            all == m.symbols@ + m.uses@,
            local_candidate(all, name, 0) == local_candidate(all, name, s as int),
        decreases m.symbols.len() - s,
    {
        let sym = &m.symbols[s];
        assert(all[s as int] == *sym);
        if str_eq(sym.ident.as_str(), "*") {
            assert(local_candidate(all, name, s as int) == Some(s as int));
            assert(path.deep_view().skip(0) =~= path.deep_view());
            let pp = concat_from(&sym.path, path, 0);
            return res_within(&pp, cr, crates, fuel - 1);
        } else if sym.ident == path[0] {
            assert(local_candidate(all, name, s as int) == Some(s as int));
            let pp = concat_from(&sym.path, path, 1);
            return res_within(&pp, cr, crates, fuel - 1);
        }
        s = s + 1;
    }
    let mut u: usize = 0;
    while u < m.uses.len()
        invariant
            path@.len() > 0,
            u <= m.uses@.len(),
            all == m.symbols@ + m.uses@,
            local_candidate(all, name, 0) == local_candidate(all, name, (m.symbols@.len() + u) as int),
        decreases m.uses.len() - u,
    {
        let sym = &m.uses[u];
        assert(all[m.symbols@.len() + u] == *sym);
        if str_eq(sym.ident.as_str(), "*") {
            assert(local_candidate(all, name, (m.symbols@.len() + u) as int) == Some((m.symbols@.len() + u) as int));
            assert(path.deep_view().skip(0) =~= path.deep_view());
            let pp = concat_from(&sym.path, path, 0);
            return res_within(&pp, cr, crates, fuel - 1);
        } else if sym.ident == path[0] {
            assert(local_candidate(all, name, (m.symbols@.len() + u) as int) == Some((m.symbols@.len() + u) as int));
            let pp = concat_from(&sym.path, path, 1);
            return res_within(&pp, cr, crates, fuel - 1);
        }
        u = u + 1;
    }
    Some(Err(mk_path(cr.idx, path)))
}

proof fn lemma_res_mono(f: nat, path: Seq<Seq<char>>, cr: Crate, crates: Seq<Crate>)
    requires
        res(f, path, cr, crates) is Some,
    ensures
        res(f + 1, path, cr, crates) == res(f, path, cr, crates),
    decreases f, 0nat,
{
    if f > 0 && path.len() > 0 {
        if path[0] == crate_kw() {
            lemma_res_mod_mono((f - 1) as nat, path, 1, cr, cr.main, crates);
        } else if let Some(Some(i)) = dep_lookup(cr.deps@, path[0], crates.len(), 0) {
            lemma_res_mod_mono((f - 1) as nat, path, 1, crates[i as int], crates[i as int].main, crates);
        }
    }
}

proof fn lemma_res_mod_mono(f: nat, path: Seq<Seq<char>>, idx: int, cr: Crate, m: Mod, crates: Seq<Crate>)
    requires
        res_mod(f, path, idx, cr, m, crates) is Some,
    ensures
        res_mod(f + 1, path, idx, cr, m, crates) == res_mod(f, path, idx, cr, m, crates),
    decreases f, 0nat,
{
    if f > 0 && 0 <= idx < path.len() {
        let name = path[idx];
        match mod_search(m.mods@, name, 0) {
            Some(Some(i)) => {
                lemma_res_mod_mono((f - 1) as nat, path, idx + 1, cr, m.mods@[i], crates);
            },
            Some(None) => {
                if pub_symbol(m.symbols@, name, 0) is None {
                    lemma_res_uses_mono((f - 1) as nat, path, idx, cr, m, crates, 0);
                }
            },
            None => {},
        }
    }
}

proof fn lemma_res_uses_mono(f: nat, path: Seq<Seq<char>>, idx: int, cr: Crate, m: Mod, crates: Seq<Crate>, k: int)
    requires
        res_uses(f, path, idx, cr, m, crates, k) is Some,
    ensures
        res_uses(f + 1, path, idx, cr, m, crates, k) == res_uses(f, path, idx, cr, m, crates, k),
    decreases f, m.uses@.len() + 1 - k,
{
    if f > 0 && 0 <= idx < path.len() && 0 <= k < m.uses@.len() {
        let sym = m.uses@[k];
        if !sym.public {
            lemma_res_uses_mono(f, path, idx, cr, m, crates, k + 1);
        } else if sym.ident@ == glob_kw() {
            let p2 = sym.path.deep_view() + path.skip(idx);
            lemma_res_either_mono((f - 1) as nat, p2, cr, m, crates);
            if let Some(Err(_)) = res_either((f - 1) as nat, p2, cr, m, crates) {
                lemma_res_uses_mono(f, path, idx, cr, m, crates, k + 1);
            }
        } else if sym.ident@ == path[idx] {
            lemma_res_either_mono((f - 1) as nat, sym.path.deep_view() + path.skip(idx + 1), cr, m, crates);
        } else {
            lemma_res_uses_mono(f, path, idx, cr, m, crates, k + 1);
        }
    }
}

proof fn lemma_res_either_mono(f: nat, path: Seq<Seq<char>>, cr: Crate, m: Mod, crates: Seq<Crate>)
    requires
        res_either(f, path, cr, m, crates) is Some,
    ensures
        res_either(f + 1, path, cr, m, crates) == res_either(f, path, cr, m, crates),
    decreases f, 1nat,
{
    lemma_res_local_mono(f, path, cr, m, crates);
    if let Some(Err(_)) = res_local(f, path, cr, m, crates) {
        lemma_res_mono(f, path, cr, crates);
    }
}

proof fn lemma_res_local_mono(f: nat, path: Seq<Seq<char>>, cr: Crate, m: Mod, crates: Seq<Crate>)
    requires
        res_local(f, path, cr, m, crates) is Some,
    ensures
        res_local(f + 1, path, cr, m, crates) == res_local(f, path, cr, m, crates),
    decreases f, 0nat,
{
    if f > 0 && path.len() > 0 {
        let all = m.symbols@ + m.uses@;
        if let Some(s) = local_candidate(all, path[0], 0) {
            let sym = all[s];
            let pp = if sym.ident@ == glob_kw() { sym.path.deep_view() + path } else { sym.path.deep_view() + path.skip(1) };
            lemma_res_mono((f - 1) as nat, pp, cr, crates);
        }
    }
}

/// Resolving a path from a module gives, within more nested steps, what it
/// gave within fewer: the answer does not depend on the bound once it ends.
pub proof fn lemma_res_either_up(f: nat, g: nat, path: Seq<Seq<char>>, cr: Crate, m: Mod, crates: Seq<Crate>)
    requires
        f <= g,
        res_either(f, path, cr, m, crates) is Some,
    ensures
        res_either(g, path, cr, m, crates) == res_either(f, path, cr, m, crates),
    decreases g - f,
{
    if f < g {
        lemma_res_either_mono(f, path, cr, m, crates);
        lemma_res_either_up(f + 1, g, path, cr, m, crates);
    }
}

/// Resolutions that end give one answer, whatever the number of steps.
proof fn lemma_res_either_one(f: nat, path: Seq<Seq<char>>, cr: Crate, m: Mod, crates: Seq<Crate>)
    requires
        res_either(f, path, cr, m, crates) is Some,
    ensures
        either_resolvable(path, cr, m, crates),
        Some(either_resolution(path, cr, m, crates)) == res_either(f, path, cr, m, crates),
{
    let g = choose|fuel: nat| #[trigger] res_either(fuel, path, cr, m, crates) is Some;
    if f <= g {
        lemma_res_either_up(f, g, path, cr, m, crates);
    } else {
        lemma_res_either_up(g, f, path, cr, m, crates);
    }
}

/// Whether resolving `path` from module `m` of crate `cr` ends within `fuel`
/// nested steps (see `res_either`); when it does, it ends.
pub fn ends_within(path: &Vec<String>, cr: &Crate, m: &Mod, crates: &Vec<Crate>, fuel: u64) -> (r: bool)
    ensures
        r == (res_either(fuel as nat, path.deep_view(), *cr, *m, crates@) is Some),
        r ==> either_resolvable(path.deep_view(), *cr, *m, crates@),
{
    let r = res_either_within(path, cr, m, crates, fuel);
    proof {
        if r is Some {
            let f = fuel as nat;
            assert(res_either(f, path.deep_view(), *cr, *m, crates@) is Some);
        }
    }
    r.is_some()
}

/// Every path in argument `a` resolves from module `m` within `fuel` nested
/// steps.
pub open spec fn arg_within(a: FnArg, cr: Crate, m: Mod, crates: Seq<Crate>, fuel: nat) -> bool
    decreases a,
{
    match a.ty {
        FnArgType::Path(p) => res_either(fuel, p.path.deep_view(), cr, m, crates) is Some,
        FnArgType::Trait(p) => res_either(fuel, p.path.deep_view(), cr, m, crates) is Some,
        FnArgType::SContainer(p, b) => res_either(fuel, p.path.deep_view(), cr, m, crates) is Some
            && arg_within(*b, cr, m, crates, fuel),
        FnArgType::Container(p, v) => res_either(fuel, p.path.deep_view(), cr, m, crates) is Some
            && forall|i: int| 0 <= i < v@.len() ==> arg_within(#[trigger] v@[i], cr, m, crates, fuel),
    }
}

/// Reading the attributes of `mi` from the `k`-th on ends within `fuel`
/// nested steps per path: as `scan_ok`, with each resolution bounded.
pub open spec fn scan_within(mi: MarkedItem, k: int, cr: Crate, m: Mod, crates: Seq<Crate>, macros: Seq<PathView>, fuel: nat) -> bool
    decreases mi.attrs@.len() - k,
{
    if k < 0 || k >= mi.attrs@.len() {
        true
    } else {
        match res_either(fuel, mi.attrs@[k].0.deep_view(), cr, m, crates) {
            None => false,
            Some(x) => {
                let t = match x { Ok(v) => v, Err(v) => v };
                match mi.ty {
                    MarkType::Struct => t == macros[0] || t == macros[1] || scan_within(mi, k + 1, cr, m, crates, macros, fuel),
                    MarkType::Fn { args } => if t == macros[3] {
                        forall|a: int| 0 <= a < args@.len() ==> arg_within(#[trigger] args@[a], cr, m, crates, fuel)
                    } else {
                        scan_within(mi, k + 1, cr, m, crates, macros, fuel)
                    },
                    MarkType::Enum { .. } => scan_within(mi, k + 1, cr, m, crates, macros, fuel),
                }
            },
        }
    }
}

/// Reading module `m` and its submodules ends within `fuel` nested steps per
/// path.
pub open spec fn tree_within(m: Mod, cr: Crate, crates: Seq<Crate>, macros: Seq<PathView>, fuel: nat) -> bool
    decreases m, 0int,
{
    &&& forall|k: int| 0 <= k < m.marked@.len() ==> #[trigger] scan_within(m.marked@[k], 0, cr, m, crates, macros, fuel)
    &&& subs_within(m.mods@, m.mods@.len() as int, cr, crates, macros, fuel)
}

/// Reading the first `n` of `mods` ends within `fuel` nested steps per path.
pub open spec fn subs_within(mods: Seq<Mod>, n: int, cr: Crate, crates: Seq<Crate>, macros: Seq<PathView>, fuel: nat) -> bool
    decreases mods, n,
{
    if n <= 0 || n > mods.len() {
        true
    } else {
        subs_within(mods, n - 1, cr, crates, macros, fuel) && tree_within(mods[n - 1], cr, crates, macros, fuel)
    }
}

proof fn lemma_subs_within(mods: Seq<Mod>, n: int, j: int, cr: Crate, crates: Seq<Crate>, macros: Seq<PathView>, fuel: nat)
    requires
        subs_within(mods, n, cr, crates, macros, fuel),
        0 <= j < n <= mods.len(),
    ensures
        tree_within(mods[j], cr, crates, macros, fuel),
    decreases n,
{
    if j < n - 1 {
        lemma_subs_within(mods, n - 1, j, cr, crates, macros, fuel);
    }
}

/// Whether every path in argument `a` resolves from module `m` within `fuel`
/// nested steps; when it does, each of them ends.
#[verifier::loop_isolation(false)]
pub fn arg_ends_within(a: &FnArg, cr: &Crate, m: &Mod, crates: &Vec<Crate>, fuel: u64) -> (r: bool)
    ensures
        r == arg_within(*a, *cr, *m, crates@, fuel as nat),
        r ==> arg_resolvable(*a, *cr, *m, crates@),
    decreases a,
{
    match &a.ty {
        FnArgType::Path(p) => ends_within(&p.path, cr, m, crates, fuel),
        FnArgType::Trait(p) => ends_within(&p.path, cr, m, crates, fuel),
        FnArgType::SContainer(p, b) => ends_within(&p.path, cr, m, crates, fuel) && arg_ends_within(&**b, cr, m, crates, fuel),
        FnArgType::Container(p, v) => {
            if !ends_within(&p.path, cr, m, crates, fuel) {
                return false;
            }
            let mut i: usize = 0;
            while i < v.len()
                invariant
                    i <= v@.len(),
                    forall|j: int| 0 <= j < i ==> arg_resolvable(#[trigger] v@[j], *cr, *m, crates@),
                    forall|j: int| 0 <= j < i ==> arg_within(#[trigger] v@[j], *cr, *m, crates@, fuel as nat),
                decreases v.len() - i,
            {
                proof {
                    assert(decreases_to!(*a => v@[i as int]));
                }
                if !arg_ends_within(&v[i], cr, m, crates, fuel) {
                    return false;
                }
                i = i + 1;
            }
            true
        },
    }
}

/// What `path` stands for from module `m` within `fuel` steps, if its
/// resolution ends within them.
fn target_within(path: &Vec<String>, cr: &Crate, m: &Mod, crates: &Vec<Crate>, fuel: u64) -> (r: Option<Path>)
    ensures
        r is None <==> res_either(fuel as nat, path.deep_view(), *cr, *m, crates@) is None,
        r matches Some(t) ==> (res_either(fuel as nat, path.deep_view(), *cr, *m, crates@) matches Some(x)
            && t@ == (match x { Ok(v) => v, Err(v) => v })),
        r matches Some(t) ==> either_resolvable(path.deep_view(), *cr, *m, crates@)
            && t@ == target(path.deep_view(), *cr, *m, crates@),
{
    let r = res_either_within(path, cr, m, crates, fuel);
    proof {
        if r is Some {
            lemma_res_either_one(fuel as nat, path.deep_view(), *cr, *m, crates@);
        }
    }
    match r {
        None => None,
        Some(Ok(v)) => Some(v),
        Some(Err(v)) => Some(v),
    }
}

/// Whether reading the attributes of `mi` ends within `fuel` nested steps per
/// path: each attribute looked at resolves, and so does every argument of a
/// system; when it does, reading them ends.
#[verifier::loop_isolation(false)]
fn item_ends_within(mi: &MarkedItem, cr: &Crate, m: &Mod, crates: &Vec<Crate>, paths: &Paths, fuel: u64) -> (r: bool)
    ensures
        r == scan_within(*mi, 0, *cr, *m, crates@, macro_views(*paths), fuel as nat),
        r ==> scan_ok(*mi, 0, *cr, *m, crates@, macro_views(*paths)),
{
    let ghost macros = macro_views(*paths);
    let mut k: usize = 0;
    while k < mi.attrs.len()
        invariant
            k <= mi.attrs@.len(),
            macros == macro_views(*paths),
            scan_ok(*mi, k as int, *cr, *m, crates@, macros) ==> scan_ok(*mi, 0, *cr, *m, crates@, macros),
            scan_within(*mi, 0, *cr, *m, crates@, macros, fuel as nat) == scan_within(*mi, k as int, *cr, *m, crates@, macros, fuel as nat),
        decreases mi.attrs.len() - k,
    {
        let t = match target_within(&mi.attrs[k].0, cr, m, crates, fuel) {
            None => {
                return false;
            },
            Some(t) => t,
        };
        proof {
            assert(macros[0] == paths.macros@[0]@ && macros[1] == paths.macros@[1]@);
            assert(macros[3] == paths.macros@[3]@);
        }
        match &mi.ty {
            MarkType::Struct => {
                if t.same(&paths.macros[0]) || t.same(&paths.macros[1]) {
                    return true;
                }
            },
            MarkType::Fn { args } => {
                if t.same(&paths.macros[3]) {
                    let mut a: usize = 0;
                    while a < args.len()
                        invariant
                            a <= args@.len(),
                            forall|i: int| 0 <= i < a ==> arg_resolvable(#[trigger] args@[i], *cr, *m, crates@),
                            forall|i: int| 0 <= i < a ==> arg_within(#[trigger] args@[i], *cr, *m, crates@, fuel as nat),
                        decreases args.len() - a,
                    {
                        if !arg_ends_within(&args[a], cr, m, crates, fuel) {
                            return false;
                        }
                        a = a + 1;
                    }
                    return true;
                }
            },
            MarkType::Enum { .. } => {},
        }
        k = k + 1;
    }
    true
}

/// Whether reading the attributes of every marked item in module `m` and its
/// submodules ends within `fuel` nested steps per path (each attribute looked
/// at resolves, and so does every argument of a system); when it does, reading
/// the module's items ends, as `ItemsCrate::parse_mod` asks.
pub fn tree_ends_within(m: &Mod, cr: &Crate, paths: &Paths, crates: &Vec<Crate>, fuel: u64) -> (r: bool)
    ensures
        r == tree_within(*m, *cr, crates@, macro_views(*paths), fuel as nat),
        r ==> tree_ok(*m, *cr, crates@, macro_views(*paths)),
    decreases m,
{
    let ghost macros = macro_views(*paths);
    let mut i: usize = 0;
    while i < m.marked.len()
        invariant
            i <= m.marked@.len(),
            macros == macro_views(*paths),
            forall|k: int| 0 <= k < i ==> #[trigger] scan_ok(m.marked@[k], 0, *cr, *m, crates@, macros),
            forall|k: int| 0 <= k < i ==> #[trigger] scan_within(m.marked@[k], 0, *cr, *m, crates@, macros, fuel as nat),
        decreases m.marked.len() - i,
    {
        if !item_ends_within(&m.marked[i], cr, m, crates, paths, fuel) {
            return false;
        }
        proof {
            assert(scan_ok(m.marked@[i as int], 0, *cr, *m, crates@, macros));
            assert(scan_within(m.marked@[i as int], 0, *cr, *m, crates@, macros, fuel as nat));
        }
        i = i + 1;
    }
    let mut j: usize = 0;
    while j < m.mods.len()
        invariant
            j <= m.mods@.len(),
            subs_ok(m.mods@, j as int, *cr, crates@, macros),
            subs_within(m.mods@, j as int, *cr, crates@, macros, fuel as nat),
            forall|k: int| 0 <= k < m.marked@.len() ==> #[trigger] scan_within(m.marked@[k], 0, *cr, *m, crates@, macros, fuel as nat),
            macros == macro_views(*paths),
        decreases m.mods.len() - j,
    {
        assert(decreases_to!(*m => m.mods@[j as int]));
        if !tree_ends_within(&m.mods[j], cr, paths, crates, fuel) {
            proof {
                if subs_within(m.mods@, m.mods@.len() as int, *cr, crates@, macros, fuel as nat) {
                    lemma_subs_within(m.mods@, m.mods@.len() as int, j as int, *cr, crates@, macros, fuel as nat);
                }
            }
            return false;
        }
        j = j + 1;
    }
    true
}

} // verus!
