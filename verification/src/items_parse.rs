use vstd::prelude::*;
use crate::ast_crate::Crate;
use crate::ast_fn_arg::{arg_resolvable, arg_resolved, FnArg};
use crate::ast_items::{Dependency, Component, ComponentMacroArgs, Event, Global, GlobalMacroArgs, ItemsCrate, System, SystemMacroArgs};
use crate::ast_mod::{MarkType, MarkedItem, Mod};
use crate::ast_paths::{crate_rooted, EngineGlobals, MacroPaths, Paths};
use crate::util::Get;
use crate::ast_resolve::{either_resolvable, mk_path, pv, resolve_path, target, Path, PathView};

verus! {

/// What one attribute of a marked item makes of it: a component, a global, an
/// event or a system (with the attribute that says so).
pub enum Found {
    Component(int),
    Global(int),
    Event,
    System(int),
}

/// The paths of the component, global, event and system macros.
pub open spec fn macro_views(paths: Paths) -> Seq<PathView> {
    Seq::new(4, |i: int| paths.macros@[i]@)
}

/// What the attributes of marked item `mi` of module `m` make of it, from the
/// `k`-th on: a struct whose attribute stands for the component or global macro
/// is that and nothing more; one for the event macro is an event, and the
/// attributes after it count too; a function whose attribute stands for the
/// system macro is a system and nothing more; other attributes make nothing.
pub open spec fn found_from(mi: MarkedItem, k: int, cr: Crate, m: Mod, crates: Seq<Crate>, macros: Seq<PathView>) -> Seq<Found>
    decreases mi.attrs@.len() - k,
{
    if k < 0 || k >= mi.attrs@.len() {
        seq![]
    } else {
        let t = target(mi.attrs@[k].0.deep_view(), cr, m, crates);
        match mi.ty {
            MarkType::Struct => if t == macros[0] {
                seq![Found::Component(k)]
            } else if t == macros[1] {
                seq![Found::Global(k)]
            } else if t == macros[2] {
                seq![Found::Event] + found_from(mi, k + 1, cr, m, crates, macros)
            } else {
                found_from(mi, k + 1, cr, m, crates, macros)
            },
            MarkType::Fn { .. } => if t == macros[3] {
                seq![Found::System(k)]
            } else {
                found_from(mi, k + 1, cr, m, crates, macros)
            },
            MarkType::Enum { .. } => found_from(mi, k + 1, cr, m, crates, macros),
        }
    }
}

/// Reading the attributes of `mi` from the `k`-th on ends: each attribute that
/// is looked at resolves, and so does every argument of a system.
pub open spec fn scan_ok(mi: MarkedItem, k: int, cr: Crate, m: Mod, crates: Seq<Crate>, macros: Seq<PathView>) -> bool
    decreases mi.attrs@.len() - k,
{
    if k < 0 || k >= mi.attrs@.len() {
        true
    } else {
        let p = mi.attrs@[k].0.deep_view();
        let t = target(p, cr, m, crates);
        &&& either_resolvable(p, cr, m, crates)
        &&& match mi.ty {
            MarkType::Struct => t == macros[0] || t == macros[1] || scan_ok(mi, k + 1, cr, m, crates, macros),
            MarkType::Fn { args } => if t == macros[3] {
                forall|a: int| 0 <= a < args@.len() ==> arg_resolvable(#[trigger] args@[a], cr, m, crates)
            } else {
                scan_ok(mi, k + 1, cr, m, crates, macros)
            },
            MarkType::Enum { .. } => scan_ok(mi, k + 1, cr, m, crates, macros),
        }
    }
}

/// Each of `f` with the module and item it was found on.
pub open spec fn found_at(f: Seq<Found>, m: Mod, mi: MarkedItem) -> Seq<(Mod, MarkedItem, Found)> {
    f.map_values(|x: Found| (m, mi, x))
}

/// What the first `n` marked items of module `m` make.
pub open spec fn found_upto(m: Mod, n: int, cr: Crate, crates: Seq<Crate>, macros: Seq<PathView>) -> Seq<(Mod, MarkedItem, Found)>
    decreases n,
{
    if n <= 0 || n > m.marked@.len() {
        seq![]
    } else {
        found_upto(m, n - 1, cr, crates, macros) + found_at(found_from(m.marked@[n - 1], 0, cr, m, crates, macros), m, m.marked@[n - 1])
    }
}

/// What module `m` and its submodules make: its own items first, then each
/// submodule in order.
pub open spec fn found_tree(m: Mod, cr: Crate, crates: Seq<Crate>, macros: Seq<PathView>) -> Seq<(Mod, MarkedItem, Found)>
    decreases m, 0int,
{
    found_upto(m, m.marked@.len() as int, cr, crates, macros) + found_subs(m.mods@, m.mods@.len() as int, cr, crates, macros)
}

/// What the first `n` of `mods` make.
pub open spec fn found_subs(mods: Seq<Mod>, n: int, cr: Crate, crates: Seq<Crate>, macros: Seq<PathView>) -> Seq<(Mod, MarkedItem, Found)>
    decreases mods, n,
{
    if n <= 0 || n > mods.len() {
        seq![]
    } else {
        found_subs(mods, n - 1, cr, crates, macros) + found_tree(mods[n - 1], cr, crates, macros)
    }
}

/// Reading module `m` and its submodules ends.
pub open spec fn tree_ok(m: Mod, cr: Crate, crates: Seq<Crate>, macros: Seq<PathView>) -> bool
    decreases m, 0int,
{
    &&& forall|k: int| 0 <= k < m.marked@.len() ==> #[trigger] scan_ok(m.marked@[k], 0, cr, m, crates, macros)
    &&& subs_ok(m.mods@, m.mods@.len() as int, cr, crates, macros)
}

/// Reading the first `n` of `mods` ends.
pub open spec fn subs_ok(mods: Seq<Mod>, n: int, cr: Crate, crates: Seq<Crate>, macros: Seq<PathView>) -> bool
    decreases mods, n,
{
    if n <= 0 || n > mods.len() {
        true
    } else {
        subs_ok(mods, n - 1, cr, crates, macros) && tree_ok(mods[n - 1], cr, crates, macros)
    }
}

/// The components among `f`, with the path of their item in crate `cr_idx`
/// and the arguments of the attribute that made them.
pub open spec fn found_components(f: Seq<(Mod, MarkedItem, Found)>, cr_idx: usize) -> Seq<(PathView, ComponentMacroArgs)>
    decreases f.len(),
{
    if f.len() == 0 {
        seq![]
    } else {
        let prev = found_components(f.drop_last(), cr_idx);
        let mi = f.last().1;
        match f.last().2 {
            Found::Component(k) => prev.push((pv(cr_idx, mi.sym.path.deep_view()), ComponentMacroArgs::from_spec(mi.attrs@[k].1.deep_view()))),
            _ => prev,
        }
    }
}

/// The globals among `f` (see `found_components`).
pub open spec fn found_globals(f: Seq<(Mod, MarkedItem, Found)>, cr_idx: usize) -> Seq<(PathView, GlobalMacroArgs)>
    decreases f.len(),
{
    if f.len() == 0 {
        seq![]
    } else {
        let prev = found_globals(f.drop_last(), cr_idx);
        let mi = f.last().1;
        match f.last().2 {
            Found::Global(k) => prev.push((pv(cr_idx, mi.sym.path.deep_view()), GlobalMacroArgs::from_spec(mi.attrs@[k].1.deep_view()))),
            _ => prev,
        }
    }
}

/// The paths of the events among `f`.
pub open spec fn found_events(f: Seq<(Mod, MarkedItem, Found)>, cr_idx: usize) -> Seq<PathView>
    decreases f.len(),
{
    if f.len() == 0 {
        seq![]
    } else {
        let prev = found_events(f.drop_last(), cr_idx);
        match f.last().2 {
            Found::Event => prev.push(pv(cr_idx, f.last().1.sym.path.deep_view())),
            _ => prev,
        }
    }
}

/// The systems among `f`: the module and item of each, and the attribute that
/// made it.
pub open spec fn found_systems(f: Seq<(Mod, MarkedItem, Found)>) -> Seq<(Mod, MarkedItem, int)>
    decreases f.len(),
{
    if f.len() == 0 {
        seq![]
    } else {
        let prev = found_systems(f.drop_last());
        match f.last().2 {
            Found::System(k) => prev.push((f.last().0, f.last().1, k)),
            _ => prev,
        }
    }
}

/// Components as paths and arguments.
pub open spec fn component_views(v: Seq<Component>) -> Seq<(PathView, ComponentMacroArgs)> {
    v.map_values(|c: Component| (c.path@, c.args))
}

/// Globals as paths and arguments.
pub open spec fn global_views(v: Seq<Global>) -> Seq<(PathView, GlobalMacroArgs)> {
    v.map_values(|g: Global| (g.path@, g.args))
}

/// Events as paths.
pub open spec fn event_views(v: Seq<Event>) -> Seq<PathView> {
    v.map_values(|e: Event| e.path@)
}

/// System `s` is what function item `src.1` of module `src.0` makes through
/// its attribute `src.2`: the item's path, the attribute's arguments, and the
/// function's arguments with their paths resolved from the module.
pub open spec fn system_from(s: System, src: (Mod, MarkedItem, int), cr: Crate, crates: Seq<Crate>) -> bool {
    &&& s.path@ == pv(cr.idx, src.1.sym.path.deep_view())
    &&& s.attr_args == SystemMacroArgs::from_spec(src.1.attrs@[src.2].1.deep_view())
    &&& match src.1.ty {
        MarkType::Fn { args } => s.args@.len() == args@.len()
            && forall|a: int| 0 <= a < args@.len() ==> arg_resolved(#[trigger] args@[a], s.args@[a], cr, src.0, crates),
        _ => false,
    }
}

/// Each of `s` is made by the matching one of `srcs`.
pub open spec fn systems_from(s: Seq<System>, srcs: Seq<(Mod, MarkedItem, int)>, cr: Crate, crates: Seq<Crate>) -> bool {
    &&& s.len() == srcs.len()
    &&& forall|i: int| 0 <= i < s.len() ==> system_from(#[trigger] s[i], srcs[i], cr, crates)
}

/// What a list of found items makes splits over its parts.
pub proof fn lemma_found_concat(a: Seq<(Mod, MarkedItem, Found)>, b: Seq<(Mod, MarkedItem, Found)>, cr_idx: usize)
    ensures
        found_components(a + b, cr_idx) == found_components(a, cr_idx) + found_components(b, cr_idx),
        found_globals(a + b, cr_idx) == found_globals(a, cr_idx) + found_globals(b, cr_idx),
        found_events(a + b, cr_idx) == found_events(a, cr_idx) + found_events(b, cr_idx),
        found_systems(a + b) == found_systems(a) + found_systems(b),
    decreases b.len(),
{
    if b.len() == 0 {
        assert(a + b =~= a);
        assert(found_components(a, cr_idx) + found_components(b, cr_idx) =~= found_components(a, cr_idx));
        assert(found_globals(a, cr_idx) + found_globals(b, cr_idx) =~= found_globals(a, cr_idx));
        assert(found_events(a, cr_idx) + found_events(b, cr_idx) =~= found_events(a, cr_idx));
        assert(found_systems(a) + found_systems(b) =~= found_systems(a));
    } else {
        lemma_found_concat(a, b.drop_last(), cr_idx);
        assert((a + b).drop_last() =~= a + b.drop_last());
        assert((a + b).last() == b.last());
        assert(found_components(a, cr_idx) + found_components(b, cr_idx) =~= found_components(a + b, cr_idx));
        assert(found_globals(a, cr_idx) + found_globals(b, cr_idx) =~= found_globals(a + b, cr_idx));
        assert(found_events(a, cr_idx) + found_events(b, cr_idx) =~= found_events(a + b, cr_idx));
        assert(found_systems(a) + found_systems(b) =~= found_systems(a + b));
    }
}


/// `new` is `old` with what `f` makes added: its components, globals, events
/// and systems after those `old` had, and nothing else changed.
pub open spec fn adds(old: ItemsCrate, new: ItemsCrate, f: Seq<(Mod, MarkedItem, Found)>, cr: Crate, crates: Seq<Crate>) -> bool {
    &&& component_views(new.components@) == component_views(old.components@) + found_components(f, cr.idx)
    &&& global_views(new.globals@) == global_views(old.globals@) + found_globals(f, cr.idx)
    &&& event_views(new.events@) == event_views(old.events@) + found_events(f, cr.idx)
    &&& new.systems@.len() >= old.systems@.len()
    &&& new.systems@.take(old.systems@.len() as int) == old.systems@
    &&& systems_from(new.systems@.skip(old.systems@.len() as int), found_systems(f), cr, crates)
    &&& new.dir == old.dir
    &&& new.cr_name == old.cr_name
    &&& new.cr_idx == old.cr_idx
    &&& new.dependencies == old.dependencies
}

proof fn lemma_adds_none(a: ItemsCrate, cr: Crate, crates: Seq<Crate>)
    ensures
        adds(a, a, seq![], cr, crates),
{
    assert(component_views(a.components@) + found_components(seq![], cr.idx) =~= component_views(a.components@));
    assert(global_views(a.globals@) + found_globals(seq![], cr.idx) =~= global_views(a.globals@));
    assert(event_views(a.events@) + found_events(seq![], cr.idx) =~= event_views(a.events@));
    assert(a.systems@.take(a.systems@.len() as int) =~= a.systems@);
    assert(a.systems@.skip(a.systems@.len() as int) =~= Seq::<System>::empty());
}

proof fn lemma_adds_trans(
    a: ItemsCrate,
    b: ItemsCrate,
    c: ItemsCrate,
    f1: Seq<(Mod, MarkedItem, Found)>,
    f2: Seq<(Mod, MarkedItem, Found)>,
    cr: Crate,
    crates: Seq<Crate>,
)
    requires
        adds(a, b, f1, cr, crates),
        adds(b, c, f2, cr, crates),
    ensures
        adds(a, c, f1 + f2, cr, crates),
{
    lemma_found_concat(f1, f2, cr.idx);
    assert(component_views(c.components@) =~= component_views(a.components@) + found_components(f1 + f2, cr.idx));
    assert(global_views(c.globals@) =~= global_views(a.globals@) + found_globals(f1 + f2, cr.idx));
    assert(event_views(c.events@) =~= event_views(a.events@) + found_events(f1 + f2, cr.idx));
    let na = a.systems@.len() as int;
    let nb = b.systems@.len() as int;
    assert(c.systems@.take(na) =~= c.systems@.take(nb).take(na));
    let s1 = b.systems@.skip(na);
    let s2 = c.systems@.skip(nb);
    assert(c.systems@.skip(na) =~= s1 + s2) by {
        assert(c.systems@.take(nb) == b.systems@);
    }
    let srcs = found_systems(f1) + found_systems(f2);
    assert forall|i: int| 0 <= i < (s1 + s2).len() implies system_from(#[trigger] (s1 + s2)[i], srcs[i], cr, crates) by {
        if i < s1.len() {
            assert(system_from(s1[i], found_systems(f1)[i], cr, crates));
        } else {
            assert(system_from(s2[i - s1.len()], found_systems(f2)[i - s1.len()], cr, crates));
        }
    }
}

proof fn lemma_found_at_push(f: Seq<Found>, m: Mod, mi: MarkedItem, x: Found)
    ensures
        found_at(f.push(x), m, mi) == found_at(f, m, mi).push((m, mi, x)),
{
    assert(found_at(f.push(x), m, mi) =~= found_at(f, m, mi).push((m, mi, x)));
}

impl ItemsCrate {
    fn scan_marked(&mut self, cr: &Crate, m: &Mod, mi: &MarkedItem, paths: &Paths, crates: &Vec<Crate>)
        requires
            scan_ok(*mi, 0, *cr, *m, crates@, macro_views(*paths)),
        ensures
            adds(*old(self), *final(self), found_at(found_from(*mi, 0, *cr, *m, crates@, macro_views(*paths)), *m, *mi), *cr, crates@),
    {
        let ghost s0 = *self;
        let ghost macros = macro_views(*paths);
        let ghost mut prefix: Seq<Found> = seq![];
        proof {
            lemma_adds_none(s0, *cr, crates@);
            assert(found_at(prefix, *m, *mi) =~= Seq::<(Mod, MarkedItem, Found)>::empty());
            assert(found_from(*mi, 0, *cr, *m, crates@, macros) =~= prefix + found_from(*mi, 0, *cr, *m, crates@, macros));
        }
        let mut done = false;
        let mut k: usize = 0;
        while k < mi.attrs.len() && !done
            invariant
                k <= mi.attrs@.len(),
                macros == macro_views(*paths),
                !done ==> scan_ok(*mi, k as int, *cr, *m, crates@, macros),
                !done ==> found_from(*mi, 0, *cr, *m, crates@, macros) == prefix + found_from(*mi, k as int, *cr, *m, crates@, macros),
                done ==> found_from(*mi, 0, *cr, *m, crates@, macros) == prefix,
                adds(s0, *self, found_at(prefix, *m, *mi), *cr, crates@),
            decreases mi.attrs@.len() - k,
        {
            let ghost before = *self;
            let ghost ki = k as int;
            let path = &mi.attrs[k].0;
            let args = &mi.attrs[k].1;
            let copy = crate::ast_resolve::clone_strings(path);
            let match_path = resolve_path(copy, cr, m, crates).get();
            proof {
                assert(match_path@ == target(mi.attrs@[ki].0.deep_view(), *cr, *m, crates@));
                assert(macros[0] == paths.macros@[0]@);
                assert(macros[1] == paths.macros@[1]@);
                assert(macros[2] == paths.macros@[2]@);
                assert(macros[3] == paths.macros@[3]@);
                assert(MacroPaths::Component.pos() == 0);
            }
            match &mi.ty {
                MarkType::Struct => {
                    if match_path.same(paths.get_macro(MacroPaths::Component)) {
                        let c = Component { path: mk_path(cr.idx, &mi.sym.path), args: ComponentMacroArgs::from(args) };
                        self.components.push(c);
                        let ghost x = Found::Component(ki);
                        proof {
                            lemma_found_at_push(prefix, *m, *mi, x);
                            assert(component_views(self.components@) =~= component_views(before.components@).push((c.path@, c.args)));
                            let f1 = found_at(prefix, *m, *mi);
                            let f2 = f1.push((*m, *mi, x));
                            assert(f2.drop_last() =~= f1);
                            assert(found_globals(f2, cr.idx) == found_globals(f1, cr.idx));
                            assert(found_events(f2, cr.idx) == found_events(f1, cr.idx));
                            assert(found_systems(f2) == found_systems(f1));
                            assert(found_from(*mi, ki, *cr, *m, crates@, macros) == seq![x]);
                            prefix = prefix.push(x);
                            assert(found_from(*mi, 0, *cr, *m, crates@, macros) =~= prefix);
                        }
                        done = true;
                    } else if match_path.same(paths.get_macro(MacroPaths::Global)) {
                        let g = Global { path: mk_path(cr.idx, &mi.sym.path), args: GlobalMacroArgs::from(args) };
                        self.globals.push(g);
                        let ghost x = Found::Global(ki);
                        proof {
                            lemma_found_at_push(prefix, *m, *mi, x);
                            assert(global_views(self.globals@) =~= global_views(before.globals@).push((g.path@, g.args)));
                            let f1 = found_at(prefix, *m, *mi);
                            let f2 = f1.push((*m, *mi, x));
                            assert(f2.drop_last() =~= f1);
                            assert(found_components(f2, cr.idx) == found_components(f1, cr.idx));
                            assert(found_events(f2, cr.idx) == found_events(f1, cr.idx));
                            assert(found_systems(f2) == found_systems(f1));
                            assert(found_from(*mi, ki, *cr, *m, crates@, macros) == seq![x]);
                            prefix = prefix.push(x);
                            assert(found_from(*mi, 0, *cr, *m, crates@, macros) =~= prefix);
                        }
                        done = true;
                    } else if match_path.same(paths.get_macro(MacroPaths::Event)) {
                        let e = Event { path: mk_path(cr.idx, &mi.sym.path) };
                        self.events.push(e);
                        let ghost x = Found::Event;
                        proof {
                            lemma_found_at_push(prefix, *m, *mi, x);
                            assert(event_views(self.events@) =~= event_views(before.events@).push(e.path@));
                            let f1 = found_at(prefix, *m, *mi);
                            let f2 = f1.push((*m, *mi, x));
                            assert(f2.drop_last() =~= f1);
                            assert(found_components(f2, cr.idx) == found_components(f1, cr.idx));
                            assert(found_globals(f2, cr.idx) == found_globals(f1, cr.idx));
                            assert(found_systems(f2) == found_systems(f1));
                            assert(found_from(*mi, ki, *cr, *m, crates@, macros)
                                == seq![x] + found_from(*mi, ki + 1, *cr, *m, crates@, macros));
                            prefix = prefix.push(x);
                            assert(found_from(*mi, 0, *cr, *m, crates@, macros) =~= prefix + found_from(*mi, ki + 1, *cr, *m, crates@, macros));
                        }
                    } else {
                        proof {
                            assert(found_from(*mi, ki, *cr, *m, crates@, macros) == found_from(*mi, ki + 1, *cr, *m, crates@, macros));
                        }
                    }
                },
                MarkType::Fn { args: fn_args } => {
                    if match_path.same(paths.get_macro(MacroPaths::System)) {
                        let mut sargs: Vec<FnArg> = Vec::new();
                        let mut a: usize = 0;
                        while a < fn_args.len()
                            invariant
                                a <= fn_args@.len(),
                                sargs@.len() == a,
                                forall|j: int| 0 <= j < fn_args@.len() ==> arg_resolvable(#[trigger] fn_args@[j], *cr, *m, crates@),
                                forall|j: int| 0 <= j < a ==> arg_resolved(#[trigger] fn_args@[j], sargs@[j], *cr, *m, crates@),
                            decreases fn_args.len() - a,
                        {
                            let x = fn_args[a].resolved(cr, m, crates);
                            sargs.push(x);
                            a = a + 1;
                        }
                        let sys = System { path: mk_path(cr.idx, &mi.sym.path), args: sargs, attr_args: SystemMacroArgs::from(args) };
                        let ghost sv = sys;
                        self.systems.push(sys);
                        let ghost x = Found::System(ki);
                        proof {
                            lemma_found_at_push(prefix, *m, *mi, x);
                            let f1 = found_at(prefix, *m, *mi);
                            let f2 = f1.push((*m, *mi, x));
                            assert(f2.drop_last() =~= f1);
                            assert(found_components(f2, cr.idx) == found_components(f1, cr.idx));
                            assert(found_globals(f2, cr.idx) == found_globals(f1, cr.idx));
                            assert(found_events(f2, cr.idx) == found_events(f1, cr.idx));
                            assert(found_systems(f2) == found_systems(f1).push((*m, *mi, ki)));
                            let n0 = s0.systems@.len() as int;
                            assert(self.systems@ == before.systems@.push(sv));
                            assert(self.systems@.take(n0) =~= before.systems@.take(n0));
                            assert(self.systems@.skip(n0) =~= before.systems@.skip(n0).push(sv));
                            assert(system_from(sv, (*m, *mi, ki), *cr, crates@));
                            assert(found_from(*mi, ki, *cr, *m, crates@, macros) == seq![x]);
                            prefix = prefix.push(x);
                            assert(found_from(*mi, 0, *cr, *m, crates@, macros) =~= prefix);
                        }
                        done = true;
                    } else {
                        proof {
                            assert(found_from(*mi, ki, *cr, *m, crates@, macros) == found_from(*mi, ki + 1, *cr, *m, crates@, macros));
                        }
                    }
                },
                MarkType::Enum { .. } => {
                    proof {
                        assert(found_from(*mi, ki, *cr, *m, crates@, macros) == found_from(*mi, ki + 1, *cr, *m, crates@, macros));
                    }
                },
            }
            k = k + 1;
        }
        proof {
            if !done {
                assert(prefix + found_from(*mi, k as int, *cr, *m, crates@, macros) =~= prefix);
            }
        }
    }
}


proof fn lemma_subs_ok(mods: Seq<Mod>, n: int, j: int, cr: Crate, crates: Seq<Crate>, macros: Seq<PathView>)
    requires
        subs_ok(mods, n, cr, crates, macros),
        0 <= j < n <= mods.len(),
    ensures
        tree_ok(mods[j], cr, crates, macros),
    decreases n,
{
    if j < n - 1 {
        lemma_subs_ok(mods, n - 1, j, cr, crates, macros);
    }
}

impl ItemsCrate {
    /// Adds the engine items of module `m` of crate `cr` and of its
    /// submodules (see `found_tree`): each marked item's attributes are
    /// resolved from its module and compared with the engine's macros, and a
    /// system's arguments get their paths resolved.
    pub fn parse_mod(&mut self, cr: &Crate, m: &Mod, paths: &Paths, crates: &Vec<Crate>)
        requires
            tree_ok(*m, *cr, crates@, macro_views(*paths)),
        ensures
            adds(*old(self), *final(self), found_tree(*m, *cr, crates@, macro_views(*paths)), *cr, crates@),
        decreases m,
    {
        let ghost s0 = *self;
        let ghost macros = macro_views(*paths);
        proof {
            lemma_adds_none(s0, *cr, crates@);
            assert(found_upto(*m, 0, *cr, crates@, macros) =~= Seq::<(Mod, MarkedItem, Found)>::empty());
        }
        let mut i: usize = 0;
        while i < m.marked.len()
            invariant
                i <= m.marked@.len(),
                macros == macro_views(*paths),
                tree_ok(*m, *cr, crates@, macros),
                adds(s0, *self, found_upto(*m, i as int, *cr, crates@, macros), *cr, crates@),
            decreases m.marked.len() - i,
        {
            let ghost before = *self;
            proof {
                assert(scan_ok(m.marked@[i as int], 0, *cr, *m, crates@, macros));
            }
            self.scan_marked(cr, m, &m.marked[i], paths, crates);
            proof {
                let f1 = found_upto(*m, i as int, *cr, crates@, macros);
                let f2 = found_at(found_from(m.marked@[i as int], 0, *cr, *m, crates@, macros), *m, m.marked@[i as int]);
                lemma_adds_trans(s0, before, *self, f1, f2, *cr, crates@);
                assert(found_upto(*m, i + 1, *cr, crates@, macros) == f1 + f2);
            }
            i = i + 1;
        }
        let ghost own = found_upto(*m, m.marked@.len() as int, *cr, crates@, macros);
        proof {
            assert(found_subs(m.mods@, 0, *cr, crates@, macros) =~= Seq::<(Mod, MarkedItem, Found)>::empty());
            assert(own + found_subs(m.mods@, 0, *cr, crates@, macros) =~= own);
        }
        let mut j: usize = 0;
        while j < m.mods.len()
            invariant
                j <= m.mods@.len(),
                macros == macro_views(*paths),
                own == found_upto(*m, m.marked@.len() as int, *cr, crates@, macros),
                tree_ok(*m, *cr, crates@, macros),
                adds(s0, *self, own + found_subs(m.mods@, j as int, *cr, crates@, macros), *cr, crates@),
            decreases m.mods.len() - j,
        {
            let ghost before = *self;
            proof {
                assert(decreases_to!(*m => m.mods@[j as int]));
                lemma_subs_ok(m.mods@, m.mods@.len() as int, j as int, *cr, crates@, macros);
            }
            self.parse_mod(cr, &m.mods[j], paths, crates);
            proof {
                let f1 = own + found_subs(m.mods@, j as int, *cr, crates@, macros);
                let f2 = found_tree(m.mods@[j as int], *cr, crates@, macros);
                lemma_adds_trans(s0, before, *self, f1, f2, *cr, crates@);
                assert(found_subs(m.mods@, j + 1, *cr, crates@, macros) == found_subs(m.mods@, j as int, *cr, crates@, macros) + f2);
                assert(f1 + f2 =~= own + found_subs(m.mods@, j + 1, *cr, crates@, macros));
            }
            j = j + 1;
        }
    }
}


/// Dependencies as crate indices and names.
pub open spec fn dependency_views(v: Seq<Dependency>) -> Seq<(usize, Seq<char>)> {
    v.map_values(|d: Dependency| (d.cr_idx, d.cr_alias@))
}

/// A crate's dependency list as crate indices and names.
pub open spec fn dep_pairs(v: Seq<(usize, String)>) -> Seq<(usize, Seq<char>)> {
    v.map_values(|d: (usize, String)| (d.0, d.1@))
}

/// The globals that the entry crate declares for the component and event
/// managers.
pub open spec fn manager_globals(cr_idx: usize) -> Seq<(PathView, GlobalMacroArgs)> {
    seq![
        (pv(cr_idx, crate_rooted(EngineGlobals::CFoo.middle(), EngineGlobals::CFoo.ident_view())), GlobalMacroArgs::from_spec(seq![])),
        (pv(cr_idx, crate_rooted(EngineGlobals::EFoo.middle(), EngineGlobals::EFoo.ident_view())), GlobalMacroArgs::from_spec(seq![])),
    ]
}

impl ItemsCrate {
    /// Takes crate `cr`'s directory, name, index and dependencies, and adds
    /// the engine items of its modules (see `parse_mod`); the entry crate (index
    /// 0) also gets the managers as globals.
    pub fn parse_crate(&mut self, cr: &Crate, paths: &Paths, crates: &Vec<Crate>)
        requires
            tree_ok(cr.main, *cr, crates@, macro_views(*paths)),
        ensures
            final(self).dir == cr.dir,
            final(self).cr_name == cr.name,
            final(self).cr_idx == cr.idx,
            dependency_views(final(self).dependencies@) == dep_pairs(cr.deps@),
            component_views(final(self).components@) == component_views(old(self).components@)
                + found_components(found_tree(cr.main, *cr, crates@, macro_views(*paths)), cr.idx),
            event_views(final(self).events@) == event_views(old(self).events@)
                + found_events(found_tree(cr.main, *cr, crates@, macro_views(*paths)), cr.idx),
            global_views(final(self).globals@) == global_views(old(self).globals@)
                + found_globals(found_tree(cr.main, *cr, crates@, macro_views(*paths)), cr.idx)
                + (if cr.idx == 0 { manager_globals(cr.idx) } else { seq![] }),
            final(self).systems@.len() >= old(self).systems@.len(),
            final(self).systems@.take(old(self).systems@.len() as int) == old(self).systems@,
            systems_from(final(self).systems@.skip(old(self).systems@.len() as int),
                found_systems(found_tree(cr.main, *cr, crates@, macro_views(*paths))), *cr, crates@),
    {
        self.dir = cr.dir.clone();
        self.cr_name = cr.name.clone();
        self.cr_idx = cr.idx;
        let mut deps: Vec<Dependency> = Vec::new();
        let mut i: usize = 0;
        while i < cr.deps.len()
            invariant
                i <= cr.deps@.len(),
                dependency_views(deps@) == dep_pairs(cr.deps@).take(i as int),
            decreases cr.deps.len() - i,
        {
            let d = Dependency { cr_idx: cr.deps[i].0, cr_alias: cr.deps[i].1.clone() };
            let ghost d0 = deps@;
            deps.push(d);
            proof {
                assert(dependency_views(deps@) =~= dependency_views(d0).push((d.cr_idx, d.cr_alias@)));
                assert(dep_pairs(cr.deps@).take(i + 1) =~= dep_pairs(cr.deps@).take(i as int).push(dep_pairs(cr.deps@)[i as int]));
            }
            i = i + 1;
        }
        proof {
            assert(dep_pairs(cr.deps@).take(cr.deps@.len() as int) =~= dep_pairs(cr.deps@));
        }
        self.dependencies = deps;
        let ghost mid = *self;
        self.parse_mod(cr, &cr.main, paths, crates);
        let ghost after = *self;
        if self.cr_idx == 0 {
            crate::codegen_mods::entry_namespace_items(self);
            proof {
                let n = after.globals@.len() as int;
                assert(global_views(self.globals@) =~= global_views(after.globals@) + manager_globals(cr.idx)) by {
                    assert(global_views(self.globals@)[n] == manager_globals(cr.idx)[0]);
                    assert(global_views(self.globals@)[n + 1] == manager_globals(cr.idx)[1]);
                }
            }
        } else {
            proof {
                assert(global_views(self.globals@) + seq![] =~= global_views(self.globals@));
            }
        }
    }
}

} // verus!
