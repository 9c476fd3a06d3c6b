use vstd::prelude::*;
use vstd::string::*;
use crate::ast_crate::Crate;
use crate::ast_mod::{Mod, Symbol};
use crate::ast_resolve::{clone_strings, concat_from, glob_kw, mod_search, pub_symbol};
use crate::text::str_eq;

verus! {

/// A found path as character sequences.
pub open spec fn opt_path(r: Option<Vec<String>>) -> Option<Seq<Seq<char>>> {
    match r {
        Some(v) => Some(v.deep_view()),
        None => None,
    }
}

/// The first crate from the `k`-th on whose name is `name`.
pub open spec fn crate_named(crates: Seq<Crate>, name: Seq<char>, k: int) -> Option<int>
    decreases crates.len() - k,
{
    if k < 0 || k >= crates.len() {
        None
    } else if crates[k].name@ == name {
        Some(k)
    } else {
        crate_named(crates, name, k + 1)
    }
}

/// Resolution of `path` by crate names within `fuel` steps: `None` when it
/// takes more steps (or would stop on a malformed module), else the path of
/// the item, or `None` inside when nothing matches. The first segment names a
/// crate of `crates`.
pub open spec fn use_res(fuel: nat, path: Seq<Seq<char>>, crates: Seq<Crate>) -> Option<Option<Seq<Seq<char>>>>
    decreases fuel, 0nat,
{
    if fuel == 0 {
        None
    } else if path.len() == 0 {
        Some(None)
    } else {
        match crate_named(crates, path[0], 0) {
            Some(i) => use_res_mod((fuel - 1) as nat, path, 1, crates[i].main, crates),
            None => Some(None),
        }
    }
}

/// Resolution of `path[idx..]` in module `m`: a submodule named `path[idx]` is
/// entered, else a public item of that name answers, else the public `use`
/// items are tried in order.
pub open spec fn use_res_mod(fuel: nat, path: Seq<Seq<char>>, idx: int, m: Mod, crates: Seq<Crate>) -> Option<Option<Seq<Seq<char>>>>
    decreases fuel, 0nat,
{
    if fuel == 0 || idx < 0 || idx > path.len() {
        None
    } else if idx == path.len() {
        Some(Some(path))
    } else {
        let name = path[idx];
        match mod_search(m.mods@, name, 0) {
            None => None,
            Some(Some(i)) => use_res_mod((fuel - 1) as nat, path, idx + 1, m.mods@[i], crates),
            Some(None) => match pub_symbol(m.symbols@, name, 0) {
                Some(s) => Some(Some(m.symbols@[s].path.deep_view())),
                None => use_res_uses((fuel - 1) as nat, path, idx, m, crates, 0),
            },
        }
    }
}

/// The public `use` items of `m` from the `k`-th on: a glob answers when the
/// rest of the path resolves through it, an import named `path[idx]` answers
/// with whatever it resolves to.
pub open spec fn use_res_uses(fuel: nat, path: Seq<Seq<char>>, idx: int, m: Mod, crates: Seq<Crate>, k: int) -> Option<Option<Seq<Seq<char>>>>
    decreases fuel, m.uses@.len() + 1 - k,
{
    if fuel == 0 || idx < 0 || idx >= path.len() || k < 0 {
        None
    } else if k >= m.uses@.len() {
        Some(None)
    } else {
        let sym = m.uses@[k];
        if !sym.public {
            use_res_uses(fuel, path, idx, m, crates, k + 1)
        } else if sym.ident@ == glob_kw() {
            match use_res_or_local((fuel - 1) as nat, sym.path.deep_view() + path.skip(idx), m, crates) {
                None => None,
                Some(Some(v)) => Some(Some(v)),
                Some(None) => use_res_uses(fuel, path, idx, m, crates, k + 1),
            }
        } else if sym.ident@ == path[idx] {
            use_res_or_local((fuel - 1) as nat, sym.path.deep_view() + path.skip(idx + 1), m, crates)
        } else {
            use_res_uses(fuel, path, idx, m, crates, k + 1)
        }
    }
}

/// `path` resolved by crate names, and failing that relative to module `m`.
pub open spec fn use_res_or_local(fuel: nat, path: Seq<Seq<char>>, m: Mod, crates: Seq<Crate>) -> Option<Option<Seq<Seq<char>>>>
    decreases fuel, 1nat,
{
    match use_res(fuel, path, crates) {
        None => None,
        Some(Some(v)) => Some(Some(v)),
        Some(None) => use_res_local(fuel, path, m, crates),
    }
}

/// `path` resolved relative to module `m`: each item and then each import of
/// `m` that is a glob or is named `path[0]` offers a path, and the first offer
/// that resolves answers.
pub open spec fn use_res_local(fuel: nat, path: Seq<Seq<char>>, m: Mod, crates: Seq<Crate>) -> Option<Option<Seq<Seq<char>>>>
    decreases fuel, 0nat,
{
    if fuel == 0 || path.len() == 0 {
        None
    } else {
        use_res_offers((fuel - 1) as nat, path, m, crates, 0)
    }
}

/// The offers of the items and imports of `m` from the `k`-th on.
pub open spec fn use_res_offers(fuel: nat, path: Seq<Seq<char>>, m: Mod, crates: Seq<Crate>, k: int) -> Option<Option<Seq<Seq<char>>>>
    decreases fuel, m.symbols@.len() + m.uses@.len() + 1 - k,
{
    let all = m.symbols@ + m.uses@;
    if k < 0 || path.len() == 0 {
        None
    } else if k >= all.len() {
        Some(None)
    } else {
        let sym = all[k];
        if sym.ident@ == glob_kw() || sym.ident@ == path[0] {
            let pp = if sym.ident@ == glob_kw() { sym.path.deep_view() + path } else { sym.path.deep_view() + path.skip(1) };
            match use_res(fuel, pp, crates) {
                None => None,
                Some(Some(v)) => Some(Some(v)),
                Some(None) => use_res_offers(fuel, path, m, crates, k + 1),
            }
        } else {
            use_res_offers(fuel, path, m, crates, k + 1)
        }
    }
}

#[verifier::loop_isolation(false)]
fn use_res_fuel(path: &Vec<String>, crates: &Vec<Crate>, Ghost(fuel): Ghost<nat>) -> (r: Option<Vec<String>>)
    requires
        use_res(fuel, path.deep_view(), crates@) is Some,
    ensures
        Some(opt_path(r)) == use_res(fuel, path.deep_view(), crates@),
    decreases fuel, 0nat,
{
    if path.len() == 0 {
        return None;
    }
    let ghost name = path.deep_view()[0];
    let mut i: usize = 0;
    while i < crates.len()
        invariant
            i <= crates@.len(),
            path@.len() > 0,
            crate_named(crates@, name, 0) == crate_named(crates@, name, i as int),
        decreases crates.len() - i,
    {
        if crates[i].name == path[0] {
            return use_res_mod_fuel(path, 1, &crates[i].main, crates, Ghost((fuel - 1) as nat));
        }
        i = i + 1;
    }
    None
}

#[verifier::loop_isolation(false)]
fn use_res_mod_fuel(path: &Vec<String>, idx: usize, m: &Mod, crates: &Vec<Crate>, Ghost(fuel): Ghost<nat>) -> (r: Option<Vec<String>>)
    requires
        use_res_mod(fuel, path.deep_view(), idx as int, *m, crates@) is Some,
    ensures
        Some(opt_path(r)) == use_res_mod(fuel, path.deep_view(), idx as int, *m, crates@),
    decreases fuel, 0nat,
{
    if idx == path.len() {
        return Some(clone_strings(path));
    }
    let ghost name = path.deep_view()[idx as int];
    let mut i: usize = 0;
    while i < m.mods.len()
        invariant
            idx < path@.len(),
            i <= m.mods@.len(),
            mod_search(m.mods@, name, 0) == mod_search(m.mods@, name, i as int),
        decreases m.mods.len() - i,
    {
        let sub = &m.mods[i];
        if sub.path.len() == 0 {
            proof {
                assert(false);
            }
        }
        if sub.path[sub.path.len() - 1] == path[idx] {
            return use_res_mod_fuel(path, idx + 1, sub, crates, Ghost((fuel - 1) as nat));
        }
        i = i + 1;
    }
    let mut s: usize = 0;
    while s < m.symbols.len()
        invariant
            idx < path@.len(),
            s <= m.symbols@.len(),
            pub_symbol(m.symbols@, name, 0) == pub_symbol(m.symbols@, name, s as int),
        decreases m.symbols.len() - s,
    {
        let sym = &m.symbols[s];
        if sym.public && sym.ident == path[idx] {
            return Some(clone_strings(&sym.path));
        }
        s = s + 1;
    }
    use_res_uses_fuel(path, idx, m, crates, Ghost((fuel - 1) as nat))
}

#[verifier::loop_isolation(false)]
fn use_res_uses_fuel(path: &Vec<String>, idx: usize, m: &Mod, crates: &Vec<Crate>, Ghost(fuel): Ghost<nat>) -> (r: Option<Vec<String>>)
    requires
        use_res_uses(fuel, path.deep_view(), idx as int, *m, crates@, 0) is Some,
    ensures
        Some(opt_path(r)) == use_res_uses(fuel, path.deep_view(), idx as int, *m, crates@, 0),
    decreases fuel, m.uses@.len() + 1,
{
    proof {
        reveal_strlit("*");
        assert("*"@ =~= glob_kw());
    }
    let mut k: usize = 0;
    while k < m.uses.len()
        invariant
            fuel > 0,
            idx < path@.len(),
            k <= m.uses@.len(),
            use_res_uses(fuel, path.deep_view(), idx as int, *m, crates@, 0) is Some,
            use_res_uses(fuel, path.deep_view(), idx as int, *m, crates@, 0)
                == use_res_uses(fuel, path.deep_view(), idx as int, *m, crates@, k as int),
        decreases m.uses.len() - k,
    {
        let sym = &m.uses[k];
        if sym.public {
            if str_eq(sym.ident.as_str(), "*") {
                let p2 = concat_from(&sym.path, path, idx);
                let r2 = use_res_or_local_fuel(&p2, m, crates, Ghost((fuel - 1) as nat));
                if r2.is_some() {
                    return r2;
                }
            } else if sym.ident == path[idx] {
                let plen = path.len();
                assert(idx < plen);
                let p2 = concat_from(&sym.path, path, idx + 1);
                return use_res_or_local_fuel(&p2, m, crates, Ghost((fuel - 1) as nat));
            }
        }
        k = k + 1;
    }
    None
}

fn use_res_or_local_fuel(path: &Vec<String>, m: &Mod, crates: &Vec<Crate>, Ghost(fuel): Ghost<nat>) -> (r: Option<Vec<String>>)
    requires
        use_res_or_local(fuel, path.deep_view(), *m, crates@) is Some,
    ensures
        Some(opt_path(r)) == use_res_or_local(fuel, path.deep_view(), *m, crates@),
    decreases fuel, 1nat,
{
    let r = use_res_fuel(path, crates, Ghost(fuel));
    if r.is_some() {
        r
    } else {
        use_res_local_fuel(path, m, crates, Ghost(fuel))
    }
}

fn use_res_local_fuel(path: &Vec<String>, m: &Mod, crates: &Vec<Crate>, Ghost(fuel): Ghost<nat>) -> (r: Option<Vec<String>>)
    requires
        use_res_local(fuel, path.deep_view(), *m, crates@) is Some,
    ensures
        Some(opt_path(r)) == use_res_local(fuel, path.deep_view(), *m, crates@),
    decreases fuel, 0nat,
{
    use_res_offers_fuel(path, m, crates, Ghost((fuel - 1) as nat))
}

/// What symbol `sym` offers for `path`: the resolution of its path followed
/// by `path` (for a glob) or by `path[1..]` (for a symbol named `path[0]`),
/// and nothing for any other symbol.
#[verifier::loop_isolation(false)]
fn offer(sym: &Symbol, path: &Vec<String>, crates: &Vec<Crate>, Ghost(fuel): Ghost<nat>) -> (r: Option<Vec<String>>)
    requires
        path@.len() > 0,
        (sym.ident@ == glob_kw() ==> use_res(fuel, sym.path.deep_view() + path.deep_view(), crates@) is Some),
        (sym.ident@ != glob_kw() && sym.ident@ == path.deep_view()[0]
            ==> use_res(fuel, sym.path.deep_view() + path.deep_view().skip(1), crates@) is Some),
    ensures
        sym.ident@ == glob_kw() ==> Some(opt_path(r)) == use_res(fuel, sym.path.deep_view() + path.deep_view(), crates@),
        sym.ident@ != glob_kw() && sym.ident@ == path.deep_view()[0]
            ==> Some(opt_path(r)) == use_res(fuel, sym.path.deep_view() + path.deep_view().skip(1), crates@),
        sym.ident@ != glob_kw() && sym.ident@ != path.deep_view()[0] ==> r is None,
    decreases fuel, 1nat,
{
    proof {
        reveal_strlit("*");
        assert("*"@ =~= glob_kw());
    }
    if str_eq(sym.ident.as_str(), "*") {
        let pp = concat_from(&sym.path, path, 0);
        proof {
            assert(path.deep_view().skip(0) =~= path.deep_view());
        }
        use_res_fuel(&pp, crates, Ghost(fuel))
    } else if sym.ident == path[0] {
        let pp = concat_from(&sym.path, path, 1);
        use_res_fuel(&pp, crates, Ghost(fuel))
    } else {
        None
    }
}

#[verifier::loop_isolation(false)]
fn use_res_offers_fuel(path: &Vec<String>, m: &Mod, crates: &Vec<Crate>, Ghost(fuel): Ghost<nat>) -> (r: Option<Vec<String>>)
    requires
        use_res_offers(fuel, path.deep_view(), *m, crates@, 0) is Some,
    ensures
        Some(opt_path(r)) == use_res_offers(fuel, path.deep_view(), *m, crates@, 0),
    decreases fuel, m.symbols@.len() + m.uses@.len() + 1,
{
    proof {
        reveal_strlit("*");
        assert("*"@ =~= glob_kw());
    }
    let ghost all = m.symbols@ + m.uses@;
    let mut k: usize = 0;
    while k < m.symbols.len()
        invariant
            path@.len() > 0,
            k <= m.symbols@.len(),
            all == m.symbols@ + m.uses@,
            use_res_offers(fuel, path.deep_view(), *m, crates@, 0) is Some,
            use_res_offers(fuel, path.deep_view(), *m, crates@, 0)
                == use_res_offers(fuel, path.deep_view(), *m, crates@, k as int),
        decreases m.symbols.len() - k,
    {
        let sym = &m.symbols[k];
        assert(*sym == all[k as int]);
        let r2 = offer(sym, path, crates, Ghost(fuel));
        if r2.is_some() {
            return r2;
        }
        k = k + 1;
    }
    let mut u: usize = 0;
    while u < m.uses.len()
        invariant
            path@.len() > 0,
            u <= m.uses@.len(),
            all == m.symbols@ + m.uses@,
            use_res_offers(fuel, path.deep_view(), *m, crates@, 0) is Some,
            use_res_offers(fuel, path.deep_view(), *m, crates@, 0)
                == use_res_offers(fuel, path.deep_view(), *m, crates@, (m.symbols@.len() + u) as int),
        decreases m.uses.len() - u,
    {
        let sym = &m.uses[u];
        assert(*sym == all[m.symbols@.len() + u]);
        let r2 = offer(sym, path, crates, Ghost(fuel));
        if r2.is_some() {
            return r2;
        }
        u = u + 1;
    }
    None
}

/// Resolving `path` by crate names ends (it does not cycle through imports,
/// and every module it meets is well formed).
pub open spec fn use_resolvable(path: Seq<Seq<char>>, crates: Seq<Crate>) -> bool {
    exists|fuel: nat| #[trigger] use_res(fuel, path, crates) is Some
}

/// What resolving `path` by crate names gives (see `use_res`).
pub open spec fn use_resolution(path: Seq<Seq<char>>, crates: Seq<Crate>) -> Option<Seq<Seq<char>>> {
    use_res(choose|fuel: nat| #[trigger] use_res(fuel, path, crates) is Some, path, crates).unwrap()
}

/// Resolving `path[idx..]` in module `m` ends.
pub open spec fn use_mod_resolvable(path: Seq<Seq<char>>, idx: int, m: Mod, crates: Seq<Crate>) -> bool {
    exists|fuel: nat| #[trigger] use_res_mod(fuel, path, idx, m, crates) is Some
}

/// What resolving `path[idx..]` in module `m` gives (see `use_res_mod`).
pub open spec fn use_mod_resolution(path: Seq<Seq<char>>, idx: int, m: Mod, crates: Seq<Crate>) -> Option<Seq<Seq<char>>> {
    use_res_mod(choose|fuel: nat| #[trigger] use_res_mod(fuel, path, idx, m, crates) is Some, path, idx, m, crates).unwrap()
}

/// Resolving `path` relative to module `m` ends.
pub open spec fn use_local_resolvable(path: Seq<Seq<char>>, m: Mod, crates: Seq<Crate>) -> bool {
    exists|fuel: nat| #[trigger] use_res_local(fuel, path, m, crates) is Some
}

/// What resolving `path` relative to module `m` gives (see `use_res_local`).
pub open spec fn use_local_resolution(path: Seq<Seq<char>>, m: Mod, crates: Seq<Crate>) -> Option<Seq<Seq<char>>> {
    use_res_local(choose|fuel: nat| #[trigger] use_res_local(fuel, path, m, crates) is Some, path, m, crates).unwrap()
}

/// Resolves a path whose first segment names one of `crates` to the path of
/// the item it stands for; `None` when no crate, module, item or import
/// matches. The path is left as it is.
pub fn resolve(path: &mut Vec<String>, crates: &Vec<Crate>) -> (r: Option<Vec<String>>)
    requires
        use_resolvable(old(path).deep_view(), crates@),
    ensures
        final(path)@ == old(path)@,
        opt_path(r) == use_resolution(old(path).deep_view(), crates@),
{
    let ghost fuel = choose|fuel: nat| #[trigger] use_res(fuel, path.deep_view(), crates@) is Some;
    use_res_fuel(path, crates, Ghost(fuel))
}

/// Resolves `path[idx..]` in module `m` (see `use_res_mod`). The path is
/// left as it is.
pub fn resolve_mod(path: &mut Vec<String>, idx: usize, m: &Mod, crates: &Vec<Crate>) -> (r: Option<Vec<String>>)
    requires
        use_mod_resolvable(old(path).deep_view(), idx as int, *m, crates@),
    ensures
        final(path)@ == old(path)@,
        opt_path(r) == use_mod_resolution(old(path).deep_view(), idx as int, *m, crates@),
{
    let ghost fuel = choose|fuel: nat| #[trigger] use_res_mod(fuel, path.deep_view(), idx as int, *m, crates@) is Some;
    use_res_mod_fuel(path, idx, m, crates, Ghost(fuel))
}

/// Resolves a path relative to the items and imports of module `m` (see
/// `use_res_local`). The path is left as it is.
pub fn resolve_local_path(path: &mut Vec<String>, m: &Mod, crates: &Vec<Crate>) -> (r: Option<Vec<String>>)
    requires
        use_local_resolvable(old(path).deep_view(), *m, crates@),
    ensures
        final(path)@ == old(path)@,
        opt_path(r) == use_local_resolution(old(path).deep_view(), *m, crates@),
{
    let ghost fuel = choose|fuel: nat| #[trigger] use_res_local(fuel, path.deep_view(), *m, crates@) is Some;
    use_res_local_fuel(path, m, crates, Ghost(fuel))
}

} // verus!
