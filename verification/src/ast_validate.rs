use vstd::prelude::*;
use vstd::string::*;
use crate::ast_items::{Global, GlobalMacroArgs, ItemsCrate};
use crate::ast_paths::{EngineGlobals, Paths};
use crate::ast_resolve::{Path, PathView};
use crate::ast_pathing::{crates_searchable, path_from_view};
use crate::system_data::{
    find_global, items_view,
    comp_paths_of, event_paths_of, first_path, global_consts_of, global_paths_of, system_in_range, system_outcome,
    trait_segments_of, ItemsView,
};
use crate::text::{decimal, join, join_strings, push_decimal, string_of};
use crate::ast_item_list::{derefs, ItemList};
use crate::ast_resolve::{clone_strings, concat_from, mk_path};
use crate::constants::SEP;
use crate::ast_system::push_err;

verus! {

/// The first position in `t` whose crate index exceeds `k`.
pub open spec fn insert_pos(t: Seq<ItemsCrate>, k: usize, j: int) -> int
    decreases t.len() - j,
{
    if j < 0 || j >= t.len() {
        t.len() as int
    } else if t[j].cr_idx > k {
        j
    } else {
        insert_pos(t, k, j + 1)
    }
}

/// `s` ordered by crate index, crates with the same index in their given order
/// (insertion sort: each crate goes after the crates whose index is not greater).
pub open spec fn sorted_crates(s: Seq<ItemsCrate>) -> Seq<ItemsCrate>
    decreases s.len(),
{
    if s.len() == 0 {
        s
    } else {
        let t = sorted_crates(s.drop_last());
        t.insert(insert_pos(t, s.last().cr_idx, 0), s.last())
    }
}

proof fn lemma_insert_pos_bounds(t: Seq<ItemsCrate>, k: usize, j: int)
    requires
        0 <= j <= t.len(),
    ensures
        j <= insert_pos(t, k, j) <= t.len(),
    decreases t.len() - j,
{
    if j < t.len() && t[j].cr_idx <= k {
        lemma_insert_pos_bounds(t, k, j + 1);
    }
}

proof fn lemma_sorted_len(s: Seq<ItemsCrate>)
    ensures
        sorted_crates(s).len() == s.len(),
    decreases s.len(),
{
    if s.len() > 0 {
        lemma_sorted_len(s.drop_last());
        lemma_insert_pos_bounds(sorted_crates(s.drop_last()), s.last().cr_idx, 0);
    }
}

/// Orders the crates by crate index, keeping the order of crates with equal
/// indices (see `sorted_crates`).
pub fn sort_crates(crates: &mut Vec<ItemsCrate>)
    ensures
        final(crates)@ == sorted_crates(old(crates)@),
{
    let ghost s = crates@;
    let mut rest: Vec<ItemsCrate> = Vec::new();
    std::mem::swap(crates, &mut rest);
    let mut sorted: Vec<ItemsCrate> = Vec::new();
    let mut i: usize = 0;
    let n = rest.len();
    proof {
        assert(s.take(0) =~= Seq::<ItemsCrate>::empty());
        assert(rest@.skip(0) =~= rest@);
    }
    while rest.len() > 0
        invariant
            n == s.len(),
            i + rest@.len() == n,
            rest@ == s.skip(i as int),
            sorted@ == sorted_crates(s.take(i as int)),
        decreases rest.len(),
    {
        proof {
            assert(rest@[0] == s[i as int]);
            assert(s.take(i + 1).drop_last() =~= s.take(i as int));
            assert(s.take(i + 1).last() == s[i as int]);
            lemma_sorted_len(s.take(i as int));
        }
        let x = rest.remove(0);
        let k = x.cr_idx;
        let mut p: usize = 0;
        proof {
            lemma_insert_pos_bounds(sorted@, k, 0);
        }
        while p < sorted.len() && sorted[p].cr_idx <= k
            invariant
                p <= sorted@.len(),
                insert_pos(sorted@, k, 0) == insert_pos(sorted@, k, p as int),
            decreases sorted.len() - p,
        {
            p = p + 1;
        }
        sorted.insert(p, x);
        proof {
            assert(rest@ =~= s.skip(i + 1));
        }
        i = i + 1;
    }
    proof {
        assert(s.take(n as int) =~= s);
    }
    *crates = sorted;
}


/// The item lists of sorted crates as paths (see `ItemList::from`).
pub open spec fn items_view_of(cs: Seq<ItemsCrate>, traits: Seq<Global>) -> ItemsView {
    ItemsView {
        comps: Seq::new(cs.len(), |k: int| comp_paths_of(cs[k].components@)),
        globals: Seq::new(cs.len(), |k: int| global_paths_of(glob_list(cs[k], traits))),
        global_consts: Seq::new(cs.len(), |k: int| global_consts_of(glob_list(cs[k], traits))),
        events: Seq::new(cs.len(), |k: int| event_paths_of(cs[k].events@)),
        traits: trait_segments_of(traits),
    }
}

/// The globals of a crate, with the engine traits first in the entry crate.
pub open spec fn glob_list(c: ItemsCrate, traits: Seq<Global>) -> Seq<Global> {
    if c.cr_idx == 0 { traits + c.globals@ } else { c.globals@ }
}

/// The managers that stand for the engine traits, as globals.
pub open spec fn engine_traits(paths: Paths) -> Seq<Global> {
    let args = GlobalMacroArgs { is_dummy: false, is_const: false, is_trait: true };
    seq![
        Global { path: paths.globals@[EngineGlobals::CFoo.pos()], args },
        Global { path: paths.globals@[EngineGlobals::EFoo.pos()], args },
    ]
}

/// A path's segments after its crate segment, joined by `::`.
pub open spec fn tail_text(p: Seq<Seq<char>>) -> Seq<char> {
    join(p.skip(1), "::"@)
}

/// The component entries of a crate.
pub open spec fn comp_entries(c: ItemsCrate) -> Seq<Seq<char>> {
    Seq::new(c.components@.len(), |i: int| tail_text(c.components@[i].path@.path))
}

/// The global entries of a list of globals.
pub open spec fn glob_entries(gs: Seq<Global>) -> Seq<Seq<char>> {
    Seq::new(gs.len(), |i: int| tail_text(gs[i].path@.path))
}

/// The event entries of a crate.
pub open spec fn event_entries(c: ItemsCrate) -> Seq<Seq<char>> {
    Seq::new(c.events@.len(), |i: int| tail_text(c.events@[i].path@.path))
}

/// The system entries of a crate.
pub open spec fn system_entries(c: ItemsCrate, paths: Paths, iv: ItemsView) -> Seq<Seq<char>> {
    Seq::new(c.systems@.len(), |i: int| system_outcome(c.systems@[i], paths, iv).0)
}

/// The dependency entry of a crate: `<dir>(<alias>:<index>,...)`.
pub open spec fn dep_text(c: ItemsCrate) -> Seq<char> {
    c.dir@ + "("@ + join(
        Seq::new(c.dependencies@.len(), |i: int| c.dependencies@[i].cr_alias@ + ":"@ + decimal(c.dependencies@[i].cr_idx as nat)),
        ","@,
    ) + ")"@
}

/// The paths by which a crate names the engine traits.
pub open spec fn trait_entries(c: ItemsCrate, paths: Paths, cs: Seq<ItemsCrate>) -> Seq<Seq<char>> {
    Seq::new(2, |t: int| join(path_from_view(paths.traits@[t]@, c.cr_idx, cs)->0, "::"@))
}

/// `<crate>_<index>` of an engine global among its crate's globals.
pub open spec fn global_pos_text(p: PathView, iv: ItemsView) -> Seq<char> {
    decimal(p.cr_idx as nat) + "_"@ + decimal((first_path(iv.globals[p.cr_idx as int], p)->0) as nat)
}

/// A crate's root path: `crate` for the entry crate, else the crate's name.
pub open spec fn crate_root(c: ItemsCrate) -> PathView {
    PathView { cr_idx: c.cr_idx, path: seq![if c.cr_idx == 0 { "crate"@ } else { c.cr_name@ }] }
}

/// The path by which the entry crate names a crate.
pub open spec fn crate_path_text(c: ItemsCrate, cs: Seq<ItemsCrate>) -> Seq<char> {
    join(path_from_view(crate_root(c), 0, cs)->0, "::"@)
}

/// The entries of each data line for the sorted crates `cs`: per crate its
/// components, globals, events, systems, dependencies and engine trait paths;
/// the engine globals' positions; per crate its path from the entry crate; and
/// the engine crate's index.
pub open spec fn data_entries(paths: Paths, cs: Seq<ItemsCrate>) -> Seq<Seq<Seq<char>>> {
    data_entries_with(paths, cs, engine_traits(paths))
}

/// `data_entries` with the engine traits given as `traits`.
pub open spec fn data_entries_with(paths: Paths, cs: Seq<ItemsCrate>, traits: Seq<Global>) -> Seq<Seq<Seq<char>>> {
    let iv = items_view_of(cs, traits);
    seq![
        Seq::new(cs.len(), |i: int| join(comp_entries(cs[i]), ","@)),
        Seq::new(cs.len(), |i: int| join(glob_entries(glob_list(cs[i], traits)), ","@)),
        Seq::new(cs.len(), |i: int| join(event_entries(cs[i]), ","@)),
        Seq::new(cs.len(), |i: int| join(system_entries(cs[i], paths, iv), ","@)),
        Seq::new(cs.len(), |i: int| dep_text(cs[i])),
        Seq::new(cs.len(), |i: int| join(trait_entries(cs[i], paths, cs), ","@)),
        seq![join(Seq::new(8, |g: int| global_pos_text(paths.globals@[g]@, iv)), ","@)],
        Seq::new(cs.len(), |i: int| crate_path_text(cs[i], cs)),
        seq![decimal(paths.globals@[EngineGlobals::Entity.pos()]@.cr_idx as nat)],
    ]
}

/// Whether the path of every item has a crate segment.
pub open spec fn items_rooted(cs: Seq<ItemsCrate>, traits: Seq<Global>) -> bool {
    &&& forall|i: int, j: int| 0 <= i < cs.len() && 0 <= j < cs[i].components@.len() ==> (#[trigger] cs[i].components@[j]).path@.path.len() >= 1
    &&& forall|i: int, j: int| 0 <= i < cs.len() && 0 <= j < glob_list(cs[i], traits).len() ==> (#[trigger] glob_list(cs[i], traits)[j]).path@.path.len() >= 1
    &&& forall|i: int, j: int| 0 <= i < cs.len() && 0 <= j < cs[i].events@.len() ==> (#[trigger] cs[i].events@[j]).path@.path.len() >= 1
}

/// Whether the sorted crates `cs` can be written as data: every item path has
/// a crate segment, every system passes its checks, every crate reaches the
/// engine traits and the entry crate reaches every crate, every engine global
/// is among its crate's globals, and no entry holds the separator `;`.
pub open spec fn data_ok(paths: Paths, cs: Seq<ItemsCrate>) -> bool {
    data_ok_with(paths, cs, engine_traits(paths))
}

/// Whether every system passes its checks against the item lists `iv`.
pub open spec fn systems_pass(paths: Paths, cs: Seq<ItemsCrate>, iv: ItemsView) -> bool {
    forall|i: int, j: int| 0 <= i < cs.len() && 0 <= j < cs[i].systems@.len() ==> {
        &&& system_in_range(#[trigger] cs[i].systems@[j], paths, iv)
        &&& system_outcome(cs[i].systems@[j], paths, iv).1.errs.len() == 0
    }
}

/// Whether every crate reaches both engine traits.
pub open spec fn traits_reachable(paths: Paths, cs: Seq<ItemsCrate>) -> bool {
    forall|i: int, t: int| #![trigger cs[i], paths.traits@[t]] 0 <= i < cs.len() && 0 <= t < 2 ==> {
        &&& cs[i].cr_idx != paths.traits@[t].cr_idx ==> cs[i].cr_idx < cs.len() && paths.traits@[t]@.path.len() >= 1 && crates_searchable(cs)
        &&& path_from_view(paths.traits@[t]@, cs[i].cr_idx, cs) is Some
    }
}

/// Whether every engine global is among the globals of its crate.
pub open spec fn engine_globals_found(paths: Paths, cs: Seq<ItemsCrate>, iv: ItemsView) -> bool {
    forall|g: int| 0 <= g < 8 ==> {
        &&& (#[trigger] paths.globals@[g]).cr_idx < cs.len()
        &&& first_path(iv.globals[paths.globals@[g].cr_idx as int], paths.globals@[g]@) is Some
    }
}

/// Whether the entry crate reaches every crate.
pub open spec fn crate_roots_reachable(cs: Seq<ItemsCrate>) -> bool {
    forall|i: int| 0 <= i < cs.len() ==> {
        &&& 0 != (#[trigger] cs[i]).cr_idx ==> 0 < cs.len() && crates_searchable(cs)
        &&& path_from_view(crate_root(cs[i]), 0, cs) is Some
    }
}

/// The checks of `data_ok_with` that come before the entries are written.
pub open spec fn data_ready_with(paths: Paths, cs: Seq<ItemsCrate>, traits: Seq<Global>) -> bool {
    let iv = items_view_of(cs, traits);
    &&& items_rooted(cs, traits)
    &&& systems_pass(paths, cs, iv)
    &&& traits_reachable(paths, cs)
    &&& engine_globals_found(paths, cs, iv)
    &&& crate_roots_reachable(cs)
}

/// Whether no entry holds the separator `;`.
pub open spec fn entries_free_of_sep(ent: Seq<Seq<Seq<char>>>) -> bool {
    forall|d: int, j: int| 0 <= d < ent.len() && 0 <= j < ent[d].len() ==> !(#[trigger] ent[d][j]).contains(';')
}

/// `data_ok` with the engine traits given as `traits`.
pub open spec fn data_ok_with(paths: Paths, cs: Seq<ItemsCrate>, traits: Seq<Global>) -> bool {
    &&& data_ready_with(paths, cs, traits)
    &&& entries_free_of_sep(data_entries_with(paths, cs, traits))
}

/// The data lines written for the crates: the entries of each line joined by
/// `;`.
pub struct ItemData {
    pub data: Vec<String>,
}


fn tail_text_exec(path: &Vec<String>) -> (s: String)
    requires
        path@.len() >= 1,
    ensures
        s@ == tail_text(path.deep_view()),
{
    let empty: Vec<String> = Vec::new();
    let tail = concat_from(&empty, path, 1);
    proof {
        assert(empty.deep_view() + path.deep_view().skip(1) =~= path.deep_view().skip(1));
    }
    join_strings(&tail, "::")
}

fn comp_line_exec(c: &ItemsCrate) -> (s: String)
    requires
        forall|j: int| 0 <= j < c.components@.len() ==> (#[trigger] c.components@[j]).path@.path.len() >= 1,
    ensures
        s@ == join(comp_entries(*c), ","@),
{
    let mut v: Vec<String> = Vec::new();
    let mut i: usize = 0;
    while i < c.components.len()
        invariant
            i <= c.components@.len(),
            forall|j: int| 0 <= j < c.components@.len() ==> (#[trigger] c.components@[j]).path@.path.len() >= 1,
            v@.len() == i,
            forall|j: int| 0 <= j < i ==> #[trigger] v.deep_view()[j] == comp_entries(*c)[j],
        decreases c.components.len() - i,
    {
        let t = tail_text_exec(&c.components[i].path.path);
        let ghost v0 = v@;
        let ghost d0 = v.deep_view();
        v.push(t);
        proof {
            assert forall|j: int| 0 <= j < i + 1 implies #[trigger] v.deep_view()[j] == comp_entries(*c)[j] by {
                if j < i {
                    assert(v@[j] == v0[j]);
                    assert(d0[j] == v0[j]@);
                }
            }
        }
        i = i + 1;
    }
    proof {
        assert(v.deep_view() =~= comp_entries(*c));
    }
    join_strings(&v, ",")
}

fn event_line_exec(c: &ItemsCrate) -> (s: String)
    requires
        forall|j: int| 0 <= j < c.events@.len() ==> (#[trigger] c.events@[j]).path@.path.len() >= 1,
    ensures
        s@ == join(event_entries(*c), ","@),
{
    let mut v: Vec<String> = Vec::new();
    let mut i: usize = 0;
    while i < c.events.len()
        invariant
            i <= c.events@.len(),
            forall|j: int| 0 <= j < c.events@.len() ==> (#[trigger] c.events@[j]).path@.path.len() >= 1,
            v@.len() == i,
            forall|j: int| 0 <= j < i ==> #[trigger] v.deep_view()[j] == event_entries(*c)[j],
        decreases c.events.len() - i,
    {
        let t = tail_text_exec(&c.events[i].path.path);
        let ghost v0 = v@;
        let ghost d0 = v.deep_view();
        v.push(t);
        proof {
            assert forall|j: int| 0 <= j < i + 1 implies #[trigger] v.deep_view()[j] == event_entries(*c)[j] by {
                if j < i {
                    assert(v@[j] == v0[j]);
                    assert(d0[j] == v0[j]@);
                }
            }
        }
        i = i + 1;
    }
    proof {
        assert(v.deep_view() =~= event_entries(*c));
    }
    join_strings(&v, ",")
}

fn push_glob_entries(v: &mut Vec<String>, gs: &Vec<Global>)
    requires
        forall|j: int| 0 <= j < gs@.len() ==> (#[trigger] gs@[j]).path@.path.len() >= 1,
    ensures
        final(v).deep_view() == old(v).deep_view() + glob_entries(gs@),
{
    let ghost start = v.deep_view();
    let mut i: usize = 0;
    while i < gs.len()
        invariant
            i <= gs@.len(),
            forall|j: int| 0 <= j < gs@.len() ==> (#[trigger] gs@[j]).path@.path.len() >= 1,
            v.deep_view() == start + glob_entries(gs@).take(i as int),
        decreases gs.len() - i,
    {
        let t = tail_text_exec(&gs[i].path.path);
        let ghost v0 = v@;
        let ghost d0 = v.deep_view();
        v.push(t);
        proof {
            assert forall|j: int| 0 <= j < v@.len() implies #[trigger] v.deep_view()[j] == d0.push(t@)[j] by {
                if j < v0.len() {
                    assert(v@[j] == v0[j]);
                }
            }
            assert(v.deep_view() =~= d0.push(t@));
            assert(start + glob_entries(gs@).take(i + 1) =~= (start + glob_entries(gs@).take(i as int)).push(t@));
        }
        i = i + 1;
    }
    proof {
        assert(glob_entries(gs@).take(gs@.len() as int) =~= glob_entries(gs@));
    }
}

fn glob_line_exec(c: &ItemsCrate, traits: &Vec<Global>) -> (s: String)
    requires
        forall|j: int| 0 <= j < glob_list(*c, traits@).len() ==> (#[trigger] glob_list(*c, traits@)[j]).path@.path.len() >= 1,
    ensures
        s@ == join(glob_entries(glob_list(*c, traits@)), ","@),
{
    let mut v: Vec<String> = Vec::new();
    proof {
        assert(v.deep_view() =~= Seq::<Seq<char>>::empty());
    }
    if c.cr_idx == 0 {
        proof {
            assert forall|j: int| 0 <= j < traits@.len() implies (#[trigger] traits@[j]).path@.path.len() >= 1 by {
                assert(glob_list(*c, traits@)[j] == traits@[j]);
            }
            assert forall|j: int| 0 <= j < c.globals@.len() implies (#[trigger] c.globals@[j]).path@.path.len() >= 1 by {
                assert(glob_list(*c, traits@)[traits@.len() + j] == c.globals@[j]);
            }
        }
        push_glob_entries(&mut v, traits);
        push_glob_entries(&mut v, &c.globals);
        proof {
            assert(glob_entries(glob_list(*c, traits@)) =~= glob_entries(traits@) + glob_entries(c.globals@));
            assert(v.deep_view() =~= glob_entries(glob_list(*c, traits@)));
        }
    } else {
        push_glob_entries(&mut v, &c.globals);
        proof {
            assert(v.deep_view() =~= glob_entries(glob_list(*c, traits@)));
        }
    }
    join_strings(&v, ",")
}

fn dep_line_exec(c: &ItemsCrate) -> (s: String)
    ensures
        s@ == dep_text(*c),
{
    let mut v: Vec<String> = Vec::new();
    let mut i: usize = 0;
    let ghost f = |k: int| c.dependencies@[k].cr_alias@ + ":"@ + decimal(c.dependencies@[k].cr_idx as nat);
    while i < c.dependencies.len()
        invariant
            i <= c.dependencies@.len(),
            v@.len() == i,
            forall|j: int| 0 <= j < i ==> #[trigger] v.deep_view()[j] == c.dependencies@[j].cr_alias@ + ":"@ + decimal(c.dependencies@[j].cr_idx as nat),
        decreases c.dependencies.len() - i,
    {
        let d = &c.dependencies[i];
        let mut t = d.cr_alias.clone();
        t.append(":");
        let mut digits: Vec<char> = Vec::new();
        push_decimal(&mut digits, d.cr_idx);
        let ds = string_of(&digits);
        t.append(ds.as_str());
        proof {
            assert(digits@ =~= decimal(d.cr_idx as nat));
        }
        let ghost v0 = v@;
        let ghost d0 = v.deep_view();
        v.push(t);
        proof {
            assert forall|j: int| 0 <= j < i + 1 implies #[trigger] v.deep_view()[j] == c.dependencies@[j].cr_alias@ + ":"@ + decimal(c.dependencies@[j].cr_idx as nat) by {
                if j < i {
                    assert(v@[j] == v0[j]);
                    assert(d0[j] == v0[j]@);
                }
            }
        }
        i = i + 1;
    }
    proof {
        assert(v.deep_view() =~= Seq::new(c.dependencies@.len(), |k: int| c.dependencies@[k].cr_alias@ + ":"@ + decimal(c.dependencies@[k].cr_idx as nat)));
    }
    let j = join_strings(&v, ",");
    let mut s = c.dir.clone();
    s.append("(");
    s.append(j.as_str());
    s.append(")");
    s
}


/// The item lists built from sorted crates and the engine traits show the items
/// of those crates.
proof fn lemma_items_view(items: ItemList, cs: Seq<ItemsCrate>, traits: Seq<Global>)
    requires
        items.components@.len() == cs.len(),
        items.globals@.len() == cs.len(),
        items.events@.len() == cs.len(),
        forall|i: int| 0 <= i < cs.len() ==> #[trigger] derefs(items.components@[i]@) == cs[i].components@,
        forall|i: int| 0 <= i < cs.len() ==> #[trigger] derefs(items.globals@[i]@) == glob_list(cs[i], traits),
        forall|i: int| 0 <= i < cs.len() ==> #[trigger] derefs(items.events@[i]@) == cs[i].events@,
        derefs(items.traits@) == traits,
    ensures
        items_view(items) == items_view_of(cs, traits),
{
    let a = items_view(items);
    let b = items_view_of(cs, traits);
    assert(a.comps =~= b.comps) by {
        assert forall|k: int| 0 <= k < cs.len() implies a.comps[k] == b.comps[k] by {
            assert(derefs(items.components@[k]@) == cs[k].components@);
        }
    }
    assert(a.globals =~= b.globals) by {
        assert forall|k: int| 0 <= k < cs.len() implies a.globals[k] == b.globals[k] by {
            assert(derefs(items.globals@[k]@) == glob_list(cs[k], traits));
        }
    }
    assert(a.global_consts =~= b.global_consts) by {
        assert forall|k: int| 0 <= k < cs.len() implies a.global_consts[k] == b.global_consts[k] by {
            assert(derefs(items.globals@[k]@) == glob_list(cs[k], traits));
        }
    }
    assert(a.events =~= b.events) by {
        assert forall|k: int| 0 <= k < cs.len() implies a.events[k] == b.events[k] by {
            assert(derefs(items.events@[k]@) == cs[k].events@);
        }
    }
}

fn system_line_exec(c: &ItemsCrate, paths: &Paths, crates: &Vec<ItemsCrate>, items: &ItemList, Ghost(iv): Ghost<ItemsView>) -> (s: String)
    requires
        iv == items_view(*items),
        forall|j: int| 0 <= j < c.systems@.len() ==> {
            &&& system_in_range(#[trigger] c.systems@[j], *paths, iv)
            &&& system_outcome(c.systems@[j], *paths, iv).1.errs.len() == 0
        },
    ensures
        s@ == join(system_entries(*c, *paths, iv), ","@),
{
    let mut v: Vec<String> = Vec::new();
    let mut i: usize = 0;
    while i < c.systems.len()
        invariant
            i <= c.systems@.len(),
            iv == items_view(*items),
            forall|j: int| 0 <= j < c.systems@.len() ==> {
                &&& system_in_range(#[trigger] c.systems@[j], *paths, iv)
                &&& system_outcome(c.systems@[j], *paths, iv).1.errs.len() == 0
            },
            v@.len() == i,
            forall|j: int| 0 <= j < i ==> #[trigger] v.deep_view()[j] == system_entries(*c, *paths, iv)[j],
        decreases c.systems.len() - i,
    {
        let t = c.systems[i].validate_to_data(paths, crates, items);
        let ghost v0 = v@;
        let ghost d0 = v.deep_view();
        v.push(t);
        proof {
            assert forall|j: int| 0 <= j < i + 1 implies #[trigger] v.deep_view()[j] == system_entries(*c, *paths, iv)[j] by {
                if j < i {
                    assert(v@[j] == v0[j]);
                    assert(d0[j] == v0[j]@);
                }
            }
        }
        i = i + 1;
    }
    proof {
        assert(v.deep_view() =~= system_entries(*c, *paths, iv));
    }
    join_strings(&v, ",")
}

fn trait_line_exec(c: &ItemsCrate, paths: &Paths, crates: &Vec<ItemsCrate>) -> (s: String)
    requires
        forall|t: int| #![trigger paths.traits@[t]] 0 <= t < 2 ==> {
            &&& c.cr_idx != paths.traits@[t].cr_idx ==> c.cr_idx < crates@.len() && paths.traits@[t]@.path.len() >= 1 && crates_searchable(crates@)
            &&& path_from_view(paths.traits@[t]@, c.cr_idx, crates@) is Some
        },
    ensures
        s@ == join(trait_entries(*c, *paths, crates@), ","@),
{
    let p0 = paths.traits[0].path_from(c.cr_idx, crates);
    let p1 = paths.traits[1].path_from(c.cr_idx, crates);
    let mut v: Vec<String> = Vec::new();
    v.push(join_strings(&p0, "::"));
    v.push(join_strings(&p1, "::"));
    proof {
        assert(v.deep_view() =~= trait_entries(*c, *paths, crates@));
    }
    join_strings(&v, ",")
}

fn crate_path_exec(c: &ItemsCrate, crates: &Vec<ItemsCrate>) -> (s: String)
    requires
        0 != c.cr_idx ==> 0 < crates@.len() && crates_searchable(crates@),
        path_from_view(crate_root(*c), 0, crates@) is Some,
    ensures
        s@ == crate_path_text(*c, crates@),
{
    let mut segs: Vec<String> = Vec::new();
    if c.cr_idx == 0 {
        segs.push(String::from_str("crate"));
    } else {
        segs.push(c.cr_name.clone());
    }
    let root = Path { cr_idx: c.cr_idx, path: segs };
    proof {
        assert(root@.path =~= crate_root(*c).path);
    }
    let p = root.path_from(0, crates);
    join_strings(&p, "::")
}

fn engine_globals_line(paths: &Paths, items: &ItemList, Ghost(iv): Ghost<ItemsView>) -> (s: String)
    requires
        iv == items_view(*items),
        forall|g: int| 0 <= g < 8 ==> {
            &&& (#[trigger] paths.globals@[g]).cr_idx < iv.globals.len()
            &&& first_path(iv.globals[paths.globals@[g].cr_idx as int], paths.globals@[g]@) is Some
        },
    ensures
        s@ == join(Seq::new(8, |g: int| global_pos_text(paths.globals@[g]@, iv)), ","@),
{
    let mut v: Vec<String> = Vec::new();
    let mut g: usize = 0;
    while g < 8
        invariant
            g <= 8,
            iv == items_view(*items),
            forall|k: int| 0 <= k < 8 ==> {
                &&& (#[trigger] paths.globals@[k]).cr_idx < iv.globals.len()
                &&& first_path(iv.globals[paths.globals@[k].cr_idx as int], paths.globals@[k]@) is Some
            },
            v@.len() == g,
            forall|k: int| 0 <= k < g ==> #[trigger] v.deep_view()[k] == global_pos_text(paths.globals@[k]@, iv),
        decreases 8 - g,
    {
        let p = &paths.globals[g];
        let pos = match find_global(items, p) {
            Some(x) => x,
            None => 0,
        };
        let mut digits: Vec<char> = Vec::new();
        push_decimal(&mut digits, p.cr_idx);
        digits.push('_');
        push_decimal(&mut digits, pos);
        let t = string_of(&digits);
        proof {
            reveal_strlit("_");
            assert(t@ =~= global_pos_text(paths.globals@[g as int]@, iv));
        }
        let ghost v0 = v@;
        let ghost d0 = v.deep_view();
        v.push(t);
        proof {
            assert forall|k: int| 0 <= k < g + 1 implies #[trigger] v.deep_view()[k] == global_pos_text(paths.globals@[k]@, iv) by {
                if k < g {
                    assert(v@[k] == v0[k]);
                    assert(d0[k] == v0[k]@);
                }
            }
        }
        g = g + 1;
    }
    proof {
        assert(v.deep_view() =~= Seq::new(8, |k: int| global_pos_text(paths.globals@[k]@, iv)));
    }
    join_strings(&v, ",")
}


/// Two lists of engine traits with the same paths and arguments give the same
/// data.
proof fn lemma_traits_congruent(paths: Paths, cs: Seq<ItemsCrate>, t1: Seq<Global>, t2: Seq<Global>)
    requires
        t1.len() == t2.len(),
        forall|k: int| 0 <= k < t1.len() ==> (#[trigger] t1[k]).path@ == t2[k].path@ && t1[k].args == t2[k].args,
    ensures
        items_view_of(cs, t1) == items_view_of(cs, t2),
        data_entries_with(paths, cs, t1) == data_entries_with(paths, cs, t2),
        data_ready_with(paths, cs, t1) == data_ready_with(paths, cs, t2),
        data_ok_with(paths, cs, t1) == data_ok_with(paths, cs, t2),
{
    let a = items_view_of(cs, t1);
    let b = items_view_of(cs, t2);
    assert forall|k: int| 0 <= k < cs.len() implies glob_entries(#[trigger] glob_list(cs[k], t1)) == glob_entries(glob_list(cs[k], t2))
        && global_paths_of(glob_list(cs[k], t1)) == global_paths_of(glob_list(cs[k], t2))
        && global_consts_of(glob_list(cs[k], t1)) == global_consts_of(glob_list(cs[k], t2)) by {
        let g1 = glob_list(cs[k], t1);
        let g2 = glob_list(cs[k], t2);
        assert(g1.len() == g2.len());
        assert forall|j: int| 0 <= j < g1.len() implies (#[trigger] g1[j]).path@ == g2[j].path@ && g1[j].args == g2[j].args by {
            if cs[k].cr_idx == 0 && j < t1.len() {
                assert(g1[j] == t1[j]);
                assert(g2[j] == t2[j]);
            }
        }
        assert(glob_entries(g1) =~= glob_entries(g2));
        assert(global_paths_of(g1) =~= global_paths_of(g2));
        assert(global_consts_of(g1) =~= global_consts_of(g2));
    }
    assert(a.globals =~= b.globals);
    assert(a.global_consts =~= b.global_consts);
    assert(a.traits =~= b.traits);
    assert(a == b);
    let d1 = data_entries_with(paths, cs, t1);
    let d2 = data_entries_with(paths, cs, t2);
    assert(d1[1] =~= d2[1]);
    assert(d1 =~= d2);
    assert forall|i: int, j: int| 0 <= i < cs.len() && 0 <= j < glob_list(cs[i], t1).len() implies
        ((#[trigger] glob_list(cs[i], t1)[j]).path@.path.len() >= 1) == (glob_list(cs[i], t2)[j].path@.path.len() >= 1) by {
        if cs[i].cr_idx == 0 && j < t1.len() {
            assert(glob_list(cs[i], t1)[j] == t1[j]);
            assert(glob_list(cs[i], t2)[j] == t2[j]);
        }
    }
    assert(items_rooted(cs, t1) == items_rooted(cs, t2)) by {
        if items_rooted(cs, t1) {
            assert forall|i: int, j: int| 0 <= i < cs.len() && 0 <= j < glob_list(cs[i], t2).len() implies
                (#[trigger] glob_list(cs[i], t2)[j]).path@.path.len() >= 1 by {
                assert(glob_list(cs[i], t1)[j].path@.path.len() >= 1);
            }
        }
        if items_rooted(cs, t2) {
            assert forall|i: int, j: int| 0 <= i < cs.len() && 0 <= j < glob_list(cs[i], t1).len() implies
                (#[trigger] glob_list(cs[i], t1)[j]).path@.path.len() >= 1 by {
                assert(glob_list(cs[i], t2)[j].path@.path.len() >= 1);
            }
        }
    }
}


/// The data lines: the entries of each line joined by `;`.
pub open spec fn data_lines(entries: Seq<Seq<Seq<char>>>) -> Seq<Seq<char>> {
    Seq::new(entries.len(), |d: int| join(entries[d], ";"@))
}

fn engine_trait_global(paths: &Paths, g: EngineGlobals) -> (r: Global)
    ensures
        r.path@ == paths.globals@[g.pos()]@,
        r.args == (GlobalMacroArgs { is_dummy: false, is_const: false, is_trait: true }),
{
    let p = paths.get_global(g);
    Global { path: mk_path(p.cr_idx, &p.path), args: GlobalMacroArgs { is_dummy: false, is_const: false, is_trait: true } }
}

/// The entries of the data lines of sorted crates that pass the checks of
/// `data_ready_with` (see `data_entries`).
#[verifier::rlimit(40)]
fn entries_exec(paths: &Paths, crates: &Vec<ItemsCrate>) -> (ent: Vec<Vec<String>>)
    requires
        data_ready_with(*paths, crates@, engine_traits(*paths)),
    ensures
        ent.deep_view() == data_entries(*paths, crates@),
{
    let ghost cs = crates@;
    let mut traits: Vec<Global> = Vec::new();
    traits.push(engine_trait_global(paths, EngineGlobals::CFoo));
    traits.push(engine_trait_global(paths, EngineGlobals::EFoo));
    proof {
        lemma_traits_congruent(*paths, cs, traits@, engine_traits(*paths));
    }
    let items = ItemList::from(crates, &traits);
    let ghost iv = items_view(items);
    proof {
        assert forall|i: int| 0 <= i < cs.len() implies #[trigger] derefs(items.globals@[i]@) == glob_list(cs[i], traits@) by {}
        lemma_items_view(items, cs, traits@);
    }
    let ghost ent = data_entries_with(*paths, cs, traits@);
    let n = crates.len();
    let mut comps: Vec<String> = Vec::new();
    let mut globs: Vec<String> = Vec::new();
    let mut events: Vec<String> = Vec::new();
    let mut systems: Vec<String> = Vec::new();
    let mut deps: Vec<String> = Vec::new();
    let mut trs: Vec<String> = Vec::new();
    let mut cps: Vec<String> = Vec::new();
    let mut i: usize = 0;
    while i < n
        invariant
            i <= n == cs.len(),
            cs == crates@,
            ent == data_entries_with(*paths, cs, traits@),
            iv == items_view(items),
            iv == items_view_of(cs, traits@),
            data_ready_with(*paths, cs, traits@),
            comps.deep_view() == ent[0].take(i as int),
            globs.deep_view() == ent[1].take(i as int),
            events.deep_view() == ent[2].take(i as int),
            systems.deep_view() == ent[3].take(i as int),
            deps.deep_view() == ent[4].take(i as int),
            trs.deep_view() == ent[5].take(i as int),
            cps.deep_view() == ent[7].take(i as int),
        decreases n - i,
    {
        let c = &crates[i];
        proof {
            assert(cs[i as int] == *c);
            assert forall|j: int| 0 <= j < c.components@.len() implies (#[trigger] c.components@[j]).path@.path.len() >= 1 by {
                assert(cs[i as int].components@[j] == c.components@[j]);
            }
            assert forall|j: int| 0 <= j < glob_list(*c, traits@).len() implies (#[trigger] glob_list(*c, traits@)[j]).path@.path.len() >= 1 by {
                assert(glob_list(cs[i as int], traits@)[j] == glob_list(*c, traits@)[j]);
            }
            assert forall|j: int| 0 <= j < c.events@.len() implies (#[trigger] c.events@[j]).path@.path.len() >= 1 by {
                assert(cs[i as int].events@[j] == c.events@[j]);
            }
            assert forall|j: int| 0 <= j < c.systems@.len() implies {
                &&& system_in_range(#[trigger] c.systems@[j], *paths, iv)
                &&& system_outcome(c.systems@[j], *paths, iv).1.errs.len() == 0
            } by {
                assert(cs[i as int].systems@[j] == c.systems@[j]);
            }
            assert forall|t: int| #![trigger paths.traits@[t]] 0 <= t < 2 implies {
                &&& c.cr_idx != paths.traits@[t].cr_idx ==> c.cr_idx < crates@.len() && paths.traits@[t]@.path.len() >= 1 && crates_searchable(crates@)
                &&& path_from_view(paths.traits@[t]@, c.cr_idx, crates@) is Some
            } by {}
            assert(ent[0].take(i + 1) =~= ent[0].take(i as int).push(ent[0][i as int]));
            assert(ent[1].take(i + 1) =~= ent[1].take(i as int).push(ent[1][i as int]));
            assert(ent[2].take(i + 1) =~= ent[2].take(i as int).push(ent[2][i as int]));
            assert(ent[3].take(i + 1) =~= ent[3].take(i as int).push(ent[3][i as int]));
            assert(ent[4].take(i + 1) =~= ent[4].take(i as int).push(ent[4][i as int]));
            assert(ent[5].take(i + 1) =~= ent[5].take(i as int).push(ent[5][i as int]));
            assert(ent[7].take(i + 1) =~= ent[7].take(i as int).push(ent[7][i as int]));
        }
        push_err(&mut comps, comp_line_exec(c));
        push_err(&mut globs, glob_line_exec(c, &traits));
        push_err(&mut events, event_line_exec(c));
        push_err(&mut systems, system_line_exec(c, paths, crates, &items, Ghost(iv)));
        push_err(&mut deps, dep_line_exec(c));
        push_err(&mut trs, trait_line_exec(c, paths, crates));
        push_err(&mut cps, crate_path_exec(c, crates));
        i = i + 1;
    }
    proof {
        assert(ent[0].take(n as int) =~= ent[0]);
        assert(ent[1].take(n as int) =~= ent[1]);
        assert(ent[2].take(n as int) =~= ent[2]);
        assert(ent[3].take(n as int) =~= ent[3]);
        assert(ent[4].take(n as int) =~= ent[4]);
        assert(ent[5].take(n as int) =~= ent[5]);
        assert(ent[7].take(n as int) =~= ent[7]);
        assert forall|g: int| 0 <= g < 8 implies {
            &&& (#[trigger] paths.globals@[g]).cr_idx < iv.globals.len()
            &&& first_path(iv.globals[paths.globals@[g].cr_idx as int], paths.globals@[g]@) is Some
        } by {}
    }
    let eg = engine_globals_line(paths, &items, Ghost(iv));
    let mut digits: Vec<char> = Vec::new();
    push_decimal(&mut digits, paths.get_global(EngineGlobals::Entity).cr_idx);
    let eci = string_of(&digits);
    let mut egv: Vec<String> = Vec::new();
    egv.push(eg);
    let mut eciv: Vec<String> = Vec::new();
    eciv.push(eci);
    proof {
        assert(egv.deep_view() =~= ent[6]);
        assert(eciv.deep_view() =~= ent[8]);
    }
    let mut lines: Vec<Vec<String>> = Vec::new();
    lines.push(comps);
    lines.push(globs);
    lines.push(events);
    lines.push(systems);
    lines.push(deps);
    lines.push(trs);
    lines.push(egv);
    lines.push(cps);
    lines.push(eciv);
    proof {
        assert(lines.deep_view() =~= ent);
    }
    lines
}

/// The data lines: the entries of each line joined by `;`.
fn lines_exec(ent: &Vec<Vec<String>>) -> (v: Vec<String>)
    ensures
        v.deep_view() == data_lines(ent.deep_view()),
{
    let mut v: Vec<String> = Vec::new();
    let mut d: usize = 0;
    while d < ent.len()
        invariant
            d <= ent@.len(),
            v.deep_view() == data_lines(ent.deep_view()).take(d as int),
        decreases ent.len() - d,
    {
        let ghost v0 = v.deep_view();
        let t = join_strings(&ent[d], SEP);
        v.push(t);
        proof {
            assert(SEP@ == ";"@);
            assert(ent.deep_view()[d as int] == ent@[d as int].deep_view());
            assert(v.deep_view() =~= v0.push(t@));
            assert(data_lines(ent.deep_view()).take(d + 1) =~= data_lines(ent.deep_view()).take(d as int).push(t@));
        }
        d = d + 1;
    }
    proof {
        assert(data_lines(ent.deep_view()).take(ent@.len() as int) =~= data_lines(ent.deep_view()));
    }
    v
}

fn globals_rooted(gs: &Vec<Global>) -> (r: bool)
    ensures
        r == forall|j: int| 0 <= j < gs@.len() ==> (#[trigger] gs@[j]).path@.path.len() >= 1,
{
    let mut j: usize = 0;
    while j < gs.len()
        invariant
            j <= gs@.len(),
            forall|k: int| 0 <= k < j ==> (#[trigger] gs@[k]).path@.path.len() >= 1,
        decreases gs.len() - j,
    {
        if gs[j].path.path.len() == 0 {
            return false;
        }
        j = j + 1;
    }
    true
}

/// Whether the path of every item of `c` has a crate segment, with `traits`
/// among the globals of the entry crate.
fn crate_rooted(c: &ItemsCrate, traits: &Vec<Global>) -> (r: bool)
    ensures
        r == {
            &&& forall|j: int| 0 <= j < c.components@.len() ==> (#[trigger] c.components@[j]).path@.path.len() >= 1
            &&& forall|j: int| 0 <= j < glob_list(*c, traits@).len() ==> (#[trigger] glob_list(*c, traits@)[j]).path@.path.len() >= 1
            &&& forall|j: int| 0 <= j < c.events@.len() ==> (#[trigger] c.events@[j]).path@.path.len() >= 1
        },
{
    let mut j: usize = 0;
    while j < c.components.len()
        invariant
            j <= c.components@.len(),
            forall|k: int| 0 <= k < j ==> (#[trigger] c.components@[k]).path@.path.len() >= 1,
        decreases c.components.len() - j,
    {
        if c.components[j].path.path.len() == 0 {
            return false;
        }
        j = j + 1;
    }
    let mut j: usize = 0;
    while j < c.events.len()
        invariant
            j <= c.events@.len(),
            forall|k: int| 0 <= k < j ==> (#[trigger] c.events@[k]).path@.path.len() >= 1,
        decreases c.events.len() - j,
    {
        if c.events[j].path.path.len() == 0 {
            return false;
        }
        j = j + 1;
    }
    let own = globals_rooted(&c.globals);
    let ghost g = glob_list(*c, traits@);
    if c.cr_idx == 0 {
        let tr = globals_rooted(traits);
        proof {
            let n = traits@.len();
            assert(g =~= traits@ + c.globals@);
            if tr && own {
                assert forall|j: int| 0 <= j < g.len() implies (#[trigger] g[j]).path@.path.len() >= 1 by {
                    if j < n {
                        assert(g[j] == traits@[j]);
                    } else {
                        assert(g[j] == c.globals@[j - n]);
                    }
                }
            } else if !tr {
                let j = choose|j: int| 0 <= j < traits@.len() && !(traits@[j].path@.path.len() >= 1);
                assert(g[j] == traits@[j]);
            } else {
                let j = choose|j: int| 0 <= j < c.globals@.len() && !(c.globals@[j].path@.path.len() >= 1);
                assert(g[j + n] == c.globals@[j]);
            }
        }
        tr && own
    } else {
        proof {
            assert(g == c.globals@);
        }
        own
    }
}

/// Whether `items_rooted` holds of the crates.
fn items_rooted_exec(crates: &Vec<ItemsCrate>, traits: &Vec<Global>) -> (r: bool)
    ensures
        r == items_rooted(crates@, traits@),
{
    let mut i: usize = 0;
    while i < crates.len()
        invariant
            i <= crates@.len(),
            forall|k: int, j: int| 0 <= k < i && 0 <= j < crates@[k].components@.len() ==> (#[trigger] crates@[k].components@[j]).path@.path.len() >= 1,
            forall|k: int, j: int| 0 <= k < i && 0 <= j < glob_list(crates@[k], traits@).len() ==> (#[trigger] glob_list(crates@[k], traits@)[j]).path@.path.len() >= 1,
            forall|k: int, j: int| 0 <= k < i && 0 <= j < crates@[k].events@.len() ==> (#[trigger] crates@[k].events@[j]).path@.path.len() >= 1,
        decreases crates.len() - i,
    {
        if !crate_rooted(&crates[i], traits) {
            return false;
        }
        i = i + 1;
    }
    true
}

/// Whether every system of the crates passes its checks (see `systems_pass`).
fn systems_pass_exec(paths: &Paths, crates: &Vec<ItemsCrate>, items: &ItemList) -> (r: bool)
    ensures
        r == systems_pass(*paths, crates@, items_view(*items)),
{
    let ghost iv = items_view(*items);
    let mut i: usize = 0;
    while i < crates.len()
        invariant
            i <= crates@.len(),
            iv == items_view(*items),
            forall|k: int, j: int| 0 <= k < i && 0 <= j < crates@[k].systems@.len() ==> {
                &&& system_in_range(#[trigger] crates@[k].systems@[j], *paths, iv)
                &&& system_outcome(crates@[k].systems@[j], *paths, iv).1.errs.len() == 0
            },
        decreases crates.len() - i,
    {
        let sys = &crates[i].systems;
        let mut j: usize = 0;
        while j < sys.len()
            invariant
                i < crates@.len(),
                *sys == crates@[i as int].systems,
                j <= sys@.len(),
                iv == items_view(*items),
                forall|k: int, l: int| 0 <= k < i && 0 <= l < crates@[k].systems@.len() ==> {
                    &&& system_in_range(#[trigger] crates@[k].systems@[l], *paths, iv)
                    &&& system_outcome(crates@[k].systems@[l], *paths, iv).1.errs.len() == 0
                },
                forall|l: int| 0 <= l < j ==> {
                    &&& system_in_range(#[trigger] sys@[l], *paths, iv)
                    &&& system_outcome(sys@[l], *paths, iv).1.errs.len() == 0
                },
            decreases sys.len() - j,
        {
            if !sys[j].in_range(paths, items) {
                return false;
            }
            let errs = sys[j].validation_errors(paths, items);
            if errs.len() != 0 {
                return false;
            }
            j = j + 1;
        }
        i = i + 1;
    }
    true
}

/// Whether every crate reaches both engine traits (see `traits_reachable`);
/// `searchable` tells whether the crates are searchable.
fn traits_reachable_exec(paths: &Paths, crates: &Vec<ItemsCrate>, searchable: bool) -> (r: bool)
    requires
        searchable == crates_searchable(crates@),
    ensures
        r == traits_reachable(*paths, crates@),
{
    let n = crates.len();
    let mut i: usize = 0;
    while i < n
        invariant
            n == crates@.len(),
            i <= n,
            searchable == crates_searchable(crates@),
            forall|k: int, t: int| #![trigger crates@[k], paths.traits@[t]] 0 <= k < i && 0 <= t < 2 ==> {
                &&& crates@[k].cr_idx != paths.traits@[t].cr_idx ==> crates@[k].cr_idx < crates@.len() && paths.traits@[t]@.path.len() >= 1 && crates_searchable(crates@)
                &&& path_from_view(paths.traits@[t]@, crates@[k].cr_idx, crates@) is Some
            },
        decreases n - i,
    {
        let c = &crates[i];
        let mut t: usize = 0;
        while t < 2
            invariant
                n == crates@.len(),
                i < n,
                *c == crates@[i as int],
                t <= 2,
                searchable == crates_searchable(crates@),
                forall|k: int, u: int| #![trigger crates@[k], paths.traits@[u]] 0 <= k < i && 0 <= u < 2 ==> {
                    &&& crates@[k].cr_idx != paths.traits@[u].cr_idx ==> crates@[k].cr_idx < crates@.len() && paths.traits@[u]@.path.len() >= 1 && crates_searchable(crates@)
                    &&& path_from_view(paths.traits@[u]@, crates@[k].cr_idx, crates@) is Some
                },
                forall|u: int| #![trigger paths.traits@[u]] 0 <= u < t ==> {
                    &&& c.cr_idx != paths.traits@[u].cr_idx ==> c.cr_idx < crates@.len() && paths.traits@[u]@.path.len() >= 1 && crates_searchable(crates@)
                    &&& path_from_view(paths.traits@[u]@, c.cr_idx, crates@) is Some
                },
            decreases 2 - t,
        {
            let tp = &paths.traits[t];
            if c.cr_idx != tp.cr_idx && !(c.cr_idx < n && tp.path.len() >= 1 && searchable) {
                proof {
                    assert(crates@[i as int] == *c);
                }
                return false;
            }
            if tp.try_path_from(c.cr_idx, crates).is_none() {
                proof {
                    assert(crates@[i as int] == *c);
                }
                return false;
            }
            t = t + 1;
        }
        proof {
            assert forall|k: int, u: int| #![trigger crates@[k], paths.traits@[u]] 0 <= k < i + 1 && 0 <= u < 2 implies {
                &&& crates@[k].cr_idx != paths.traits@[u].cr_idx ==> crates@[k].cr_idx < crates@.len() && paths.traits@[u]@.path.len() >= 1 && crates_searchable(crates@)
                &&& path_from_view(paths.traits@[u]@, crates@[k].cr_idx, crates@) is Some
            } by {
                if k == i {
                    assert(crates@[k] == *c);
                }
            }
        }
        i = i + 1;
    }
    true
}

/// Whether every engine global is among its crate's globals (see
/// `engine_globals_found`); the item lists hold one list per crate.
fn engine_globals_found_exec(paths: &Paths, crates: &Vec<ItemsCrate>, items: &ItemList) -> (r: bool)
    requires
        items.globals@.len() == crates@.len(),
    ensures
        r == engine_globals_found(*paths, crates@, items_view(*items)),
{
    let ghost iv = items_view(*items);
    let mut g: usize = 0;
    while g < 8
        invariant
            g <= 8,
            iv == items_view(*items),
            items.globals@.len() == crates@.len(),
            forall|k: int| 0 <= k < g ==> {
                &&& (#[trigger] paths.globals@[k]).cr_idx < crates@.len()
                &&& first_path(iv.globals[paths.globals@[k].cr_idx as int], paths.globals@[k]@) is Some
            },
        decreases 8 - g,
    {
        let p = &paths.globals[g];
        if p.cr_idx >= crates.len() {
            return false;
        }
        if find_global(items, p).is_none() {
            return false;
        }
        g = g + 1;
    }
    true
}

/// Whether the entry crate reaches every crate (see `crate_roots_reachable`);
/// `searchable` tells whether the crates are searchable.
fn crate_roots_reachable_exec(crates: &Vec<ItemsCrate>, searchable: bool) -> (r: bool)
    requires
        searchable == crates_searchable(crates@),
    ensures
        r == crate_roots_reachable(crates@),
{
    let n = crates.len();
    let mut i: usize = 0;
    while i < n
        invariant
            n == crates@.len(),
            i <= n,
            searchable == crates_searchable(crates@),
            forall|k: int| 0 <= k < i ==> {
                &&& 0 != (#[trigger] crates@[k]).cr_idx ==> 0 < crates@.len() && crates_searchable(crates@)
                &&& path_from_view(crate_root(crates@[k]), 0, crates@) is Some
            },
        decreases n - i,
    {
        let c = &crates[i];
        proof {
            assert(crates@[i as int] == *c);
        }
        if c.cr_idx != 0 && !searchable {
            return false;
        }
        let mut segs: Vec<String> = Vec::new();
        if c.cr_idx == 0 {
            segs.push(String::from_str("crate"));
        } else {
            segs.push(c.cr_name.clone());
        }
        let root = Path { cr_idx: c.cr_idx, path: segs };
        proof {
            assert(root@.path =~= crate_root(*c).path);
        }
        if root.try_path_from(0, crates).is_none() {
            return false;
        }
        i = i + 1;
    }
    true
}

/// Whether `data_ready_with` holds of the sorted crates with the engine traits.
fn data_ready_exec(paths: &Paths, crates: &Vec<ItemsCrate>) -> (r: bool)
    ensures
        r == data_ready_with(*paths, crates@, engine_traits(*paths)),
{
    let ghost cs = crates@;
    let mut traits: Vec<Global> = Vec::new();
    traits.push(engine_trait_global(paths, EngineGlobals::CFoo));
    traits.push(engine_trait_global(paths, EngineGlobals::EFoo));
    proof {
        lemma_traits_congruent(*paths, cs, traits@, engine_traits(*paths));
    }
    let items = ItemList::from(crates, &traits);
    proof {
        assert forall|i: int| 0 <= i < cs.len() implies #[trigger] derefs(items.globals@[i]@) == glob_list(cs[i], traits@) by {}
        lemma_items_view(items, cs, traits@);
    }
    if !items_rooted_exec(crates, &traits) {
        return false;
    }
    if !systems_pass_exec(paths, crates, &items) {
        return false;
    }
    let searchable = crate::ast_pathing::crates_searchable_exec(crates);
    if !traits_reachable_exec(paths, crates, searchable) {
        return false;
    }
    if !engine_globals_found_exec(paths, crates, &items) {
        return false;
    }
    crate_roots_reachable_exec(crates, searchable)
}

fn has_sep(s: &String) -> (r: bool)
    ensures
        r == s@.contains(';'),
{
    let v = crate::text::chars_of(s.as_str());
    let mut i: usize = 0;
    while i < v.len()
        invariant
            v@ == s@,
            i <= v@.len(),
            forall|k: int| 0 <= k < i ==> v@[k] != ';',
        decreases v.len() - i,
    {
        if v[i] == ';' {
            assert(s@[i as int] == ';');
            return true;
        }
        i = i + 1;
    }
    false
}

/// Whether `entries_free_of_sep` holds of the entries.
fn free_of_sep(ent: &Vec<Vec<String>>) -> (r: bool)
    ensures
        r == entries_free_of_sep(ent.deep_view()),
{
    let ghost e = ent.deep_view();
    let mut d: usize = 0;
    while d < ent.len()
        invariant
            e == ent.deep_view(),
            d <= ent@.len(),
            forall|k: int, j: int| 0 <= k < d && 0 <= j < e[k].len() ==> !(#[trigger] e[k][j]).contains(';'),
        decreases ent.len() - d,
    {
        let line = &ent[d];
        proof {
            assert(e[d as int] == line.deep_view());
        }
        let mut j: usize = 0;
        while j < line.len()
            invariant
                e == ent.deep_view(),
                d < ent@.len(),
                e[d as int] == line.deep_view(),
                j <= line@.len(),
                forall|k: int, l: int| 0 <= k < d && 0 <= l < e[k].len() ==> !(#[trigger] e[k][l]).contains(';'),
                forall|l: int| 0 <= l < j ==> !(#[trigger] e[d as int][l]).contains(';'),
            decreases line.len() - j,
        {
            proof {
                assert(e[d as int][j as int] == line@[j as int]@);
            }
            if has_sep(&line[j]) {
                return false;
            }
            j = j + 1;
        }
        d = d + 1;
    }
    true
}

impl ItemData {
    /// Sorts the crates by index and writes their data lines (see
    /// `data_entries`); the crates must pass the checks of `data_ok`.
    pub fn validate(paths: &Paths, crates: &mut Vec<ItemsCrate>) -> (d: ItemData)
        requires
            data_ok(*paths, sorted_crates(old(crates)@)),
        ensures
            final(crates)@ == sorted_crates(old(crates)@),
            d.data.deep_view() == data_lines(data_entries(*paths, final(crates)@)),
    {
        sort_crates(crates);
        let ent = entries_exec(paths, crates);
        ItemData { data: lines_exec(&ent) }
    }

    /// Sorts the crates by index and writes their data lines where they pass
    /// the checks of `data_ok`; none where they fail them.
    pub fn try_validate(paths: &Paths, crates: &mut Vec<ItemsCrate>) -> (d: Option<ItemData>)
        ensures
            final(crates)@ == sorted_crates(old(crates)@),
            d is Some <==> data_ok(*paths, final(crates)@),
            d is Some ==> (d->0).data.deep_view() == data_lines(data_entries(*paths, final(crates)@)),
    {
        sort_crates(crates);
        if !data_ready_exec(paths, crates) {
            return None;
        }
        let ent = entries_exec(paths, crates);
        if !free_of_sep(&ent) {
            return None;
        }
        Some(ItemData { data: lines_exec(&ent) })
    }

    /// The contents of the data file: the lines joined by line breaks.
    pub fn file_text(&self) -> (s: String)
        ensures
            s@ == join(self.data.deep_view(), "\n"@),
    {
        join_strings(&self.data, "\n")
    }
}


/// Each component, global and event entry of the data file is the item's
/// path after its crate segment, joined by `::`, so that `crate::` followed by
/// the entry names the item in its crate; a crate's entries are joined by `,`.
pub proof fn lemma_item_entries(paths: Paths, cs: Seq<ItemsCrate>, i: int)
    requires
        0 <= i < cs.len(),
    ensures
        data_entries(paths, cs)[0][i] == join(Seq::new(cs[i].components@.len(), |j: int|
            join(cs[i].components@[j].path@.path.skip(1), "::"@)), ","@),
        data_entries(paths, cs)[1][i] == join(Seq::new(glob_list(cs[i], engine_traits(paths)).len(), |j: int|
            join(glob_list(cs[i], engine_traits(paths))[j].path@.path.skip(1), "::"@)), ","@),
        data_entries(paths, cs)[2][i] == join(Seq::new(cs[i].events@.len(), |j: int|
            join(cs[i].events@[j].path@.path.skip(1), "::"@)), ","@),
{
    let c = cs[i];
    assert(comp_entries(c) =~= Seq::new(c.components@.len(), |j: int| join(c.components@[j].path@.path.skip(1), "::"@)));
    let gl = glob_list(c, engine_traits(paths));
    assert(glob_entries(gl) =~= Seq::new(gl.len(), |j: int| join(gl[j].path@.path.skip(1), "::"@)));
    assert(event_entries(c) =~= Seq::new(c.events@.len(), |j: int| join(c.events@[j].path@.path.skip(1), "::"@)));
}

/// Each crate's dependency entry is its directory followed, in parentheses,
/// by each dependency as the name the crate uses for it, `:`, and its crate
/// index in decimal, separated by `,`.
pub proof fn lemma_dependency_entries(paths: Paths, cs: Seq<ItemsCrate>, i: int)
    requires
        0 <= i < cs.len(),
    ensures
        data_entries(paths, cs)[4][i] == cs[i].dir@ + "("@ + join(Seq::new(cs[i].dependencies@.len(), |j: int|
            cs[i].dependencies@[j].cr_alias@ + ":"@ + decimal(cs[i].dependencies@[j].cr_idx as nat)), ","@) + ")"@,
{
}

/// What the decoder reads from the data file that `ItemData` writes is the
/// entries that were written: for at least one crate (so that no line is
/// empty) and entries free of line breaks (the separator `;` is ruled out by
/// the checks).
pub proof fn lemma_written_data_decodes(paths: Paths, cs: Seq<ItemsCrate>)
    requires
        data_ok(paths, cs),
        cs.len() >= 1,
        forall|d: int, j: int| 0 <= d < 9 && 0 <= j < data_entries(paths, cs)[d].len() ==>
            !(#[trigger] data_entries(paths, cs)[d][j]).contains('\n'),
    ensures
        crate::decoder::decoded(join(data_lines(data_entries(paths, cs)), "\n"@)) == data_entries(paths, cs),
{
    let ent = data_entries(paths, cs);
    assert(data_lines(ent) =~= ent.map_values(|l: Seq<Seq<char>>| join(l, ";"@)));
    assert forall|d: int| 0 <= d < ent.len() implies (#[trigger] ent[d]).len() >= 1 by {}
    crate::decoder::lemma_decode_encode(ent);
}

} // verus!
