use vstd::prelude::*;
use vstd::string::*;
use crate::codegen_system::{parse_view, System, SystemRegexes, SystemView};
use crate::constants::{var2, NAMESPACE, component_var, event_variant, global_var};
use crate::ast_paths::EngineGlobals;
use crate::decoder::{deps_of, dep_views, engine_crate_of, engine_globals_of, non_empty, Data, Decoder};
use crate::dependency::{acyclic_from_entry, dep_graph, get_deps_post_order, is_acyclic_from_entry, post_order, Dependency};
use crate::text::{join, join_strings, split_on};
use crate::ast_system::push_err;

verus! {

/// The system that well-formed data describes.
pub open spec fn parsed(cr_path: Seq<char>, d: Seq<char>) -> SystemView {
    match parse_view(cr_path, d) {
        Ok(v) => v,
        Err(_) => vstd::pervasive::arbitrary(),
    }
}

/// The system data pieces of crate `cr_idx`.
pub open spec fn system_pieces(lines: Seq<Seq<Seq<char>>>, cr_idx: int) -> Seq<Seq<char>> {
    non_empty(split_on(lines[Data::Systems.pos()][cr_idx], ','))
}

impl Decoder {
    /// The systems of crate `cr_idx`, whose functions are at `cr_path`; every
    /// piece of its entry must describe a system.
    pub fn get_systems(&self, cr_idx: usize, cr_path: &str) -> (r: Vec<System>)
        requires
            self.wf(),
            cr_idx < self.lines()[Data::Systems.pos()].len(),
            forall|i: int| 0 <= i < system_pieces(self.lines(), cr_idx as int).len() ==>
                #[trigger] parse_view(cr_path@, system_pieces(self.lines(), cr_idx as int)[i]) is Ok,
        ensures
            r@.len() == system_pieces(self.lines(), cr_idx as int).len(),
            forall|i: int| 0 <= i < r@.len() ==> (#[trigger] r@[i])@ == parsed(cr_path@, system_pieces(self.lines(), cr_idx as int)[i]),
            all_wf(r@),
    {
        let regexes = SystemRegexes::new();
        let pieces = self.split_crate_data(Data::Systems, cr_idx, ',');
        let ghost ps = system_pieces(self.lines(), cr_idx as int);
        let mut r: Vec<System> = Vec::new();
        let mut i: usize = 0;
        while i < pieces.len()
            invariant
                i <= pieces@.len(),
                pieces.deep_view() == ps,
                ps == system_pieces(self.lines(), cr_idx as int),
                forall|j: int| 0 <= j < ps.len() ==> #[trigger] parse_view(cr_path@, ps[j]) is Ok,
                r@.len() == i,
                forall|j: int| 0 <= j < i ==> (#[trigger] r@[j])@ == parsed(cr_path@, ps[j]),
                all_wf(r@),
            decreases pieces.len() - i,
        {
            proof {
                assert(pieces.deep_view()[i as int] == pieces@[i as int]@);
                assert(parse_view(cr_path@, ps[i as int]) is Ok);
            }
            let s = System::parse(cr_path, pieces[i].as_str(), &regexes);
            r.push(s);
            i = i + 1;
        }
        r
    }

    /// The paths of the engine traits as crate `cr_idx` names them: the first
    /// two pieces of its entry.
    pub fn get_engine_trait_paths(&self, cr_idx: usize) -> (r: Vec<String>)
        requires
            self.wf(),
            cr_idx < self.lines()[Data::EngineTraits.pos()].len(),
            split_on(self.lines()[Data::EngineTraits.pos()][cr_idx as int], ',').len() >= 2,
        ensures
            r.deep_view() == split_on(self.lines()[Data::EngineTraits.pos()][cr_idx as int], ',').take(2),
    {
        let e = self.get_crate_data(Data::EngineTraits, cr_idx);
        let pieces = crate::text::split_char(e.as_str(), ',');
        let mut r: Vec<String> = Vec::new();
        r.push(pieces[0].clone());
        r.push(pieces[1].clone());
        proof {
            assert(r.deep_view() =~= pieces.deep_view().take(2));
        }
        r
    }

    /// The path of every crate from the entry crate.
    pub fn get_crate_paths(&self) -> (r: Vec<String>)
        requires
            self.wf(),
        ensures
            r.deep_view() == self.lines()[Data::CratePaths.pos()],
    {
        proof {
            assert(self.lines()[Data::CratePaths.pos()] == self.data@[Data::CratePaths.pos()].deep_view());
        }
        crate::ast_resolve::clone_strings(&self.data[Data::CratePaths.index()])
    }
}


/// The declaration of a marker trait `name` that requires `bounds`.
pub open spec fn trait_text(name: Seq<char>, bounds: Seq<Seq<char>>) -> Seq<char> {
    if bounds.len() == 0 {
        "pub trait "@ + name + " {}"@
    } else {
        "pub trait "@ + name + ": "@ + join(bounds, " + "@) + " {}"@
    }
}

/// The bounds of a crate's marker trait `name`: the engine trait `tr` for each
/// item type of the crate, then the marker trait of each dependency.
pub open spec fn trait_bounds(tr: Seq<char>, types: Seq<Seq<char>>, aliases: Seq<Seq<char>>, name: Seq<char>) -> Seq<Seq<char>> {
    Seq::new(types.len(), |i: int| tr + "<crate::"@ + types[i] + ">"@)
        + Seq::new(aliases.len(), |i: int| aliases[i] + "::"@ + NAMESPACE@ + "::"@ + name)
}

/// The names of a crate's dependencies.
pub open spec fn alias_views(deps: Seq<Dependency>) -> Seq<Seq<char>> {
    Seq::new(deps.len(), |i: int| deps[i].alias@)
}

/// The code of a dependency crate's namespace: a `pub use` of each dependency,
/// then the `AddComponent` and `AddEvent` marker traits.
pub open spec fn dep_code_text(lines: Seq<Seq<Seq<char>>>, cr_idx: int, deps: Seq<Dependency>) -> Seq<char> {
    let trs = split_on(lines[Data::EngineTraits.pos()][cr_idx], ',');
    let aliases = alias_views(deps);
    let comps = non_empty(split_on(lines[Data::Components.pos()][cr_idx], ','));
    let events = non_empty(split_on(lines[Data::Events.pos()][cr_idx], ','));
    join(Seq::new(aliases.len(), |i: int| "pub use "@ + aliases[i] + ";"@), ""@)
        + trait_text("AddComponent"@, trait_bounds(trs[0], comps, aliases, "AddComponent"@))
        + trait_text("AddEvent"@, trait_bounds(trs[1], events, aliases, "AddEvent"@))
}

/// Whether the lines hold what the namespace code of crate `cr_idx` reads.
pub open spec fn dep_code_ok(lines: Seq<Seq<Seq<char>>>, cr_idx: int) -> bool {
    &&& 0 <= cr_idx
    &&& cr_idx < lines[Data::EngineTraits.pos()].len()
    &&& split_on(lines[Data::EngineTraits.pos()][cr_idx], ',').len() >= 2
    &&& cr_idx < lines[Data::Components.pos()].len()
    &&& cr_idx < lines[Data::Events.pos()].len()
}

fn trait_bounds_exec(tr: &String, types: &Vec<String>, aliases: &Vec<String>, name: &str) -> (r: Vec<String>)
    ensures
        r.deep_view() == trait_bounds(tr@, types.deep_view(), aliases.deep_view(), name@),
{
    let mut r: Vec<String> = Vec::new();
    let mut i: usize = 0;
    while i < types.len()
        invariant
            i <= types@.len(),
            r.deep_view() == Seq::new(types@.len() as nat, |k: int| tr@ + "<crate::"@ + types.deep_view()[k] + ">"@).take(i as int),
        decreases types.len() - i,
    {
        let mut t = tr.clone();
        t.append("<crate::");
        t.append(types[i].as_str());
        t.append(">");
        push_err(&mut r, t);
        proof {
            assert(types.deep_view()[i as int] == types@[i as int]@);
            let f = Seq::new(types@.len() as nat, |k: int| tr@ + "<crate::"@ + types.deep_view()[k] + ">"@);
            assert(f.take(i + 1) =~= f.take(i as int).push(f[i as int]));
        }
        i = i + 1;
    }
    let ghost first = r.deep_view();
    proof {
        assert(first =~= Seq::new(types@.len() as nat, |k: int| tr@ + "<crate::"@ + types.deep_view()[k] + ">"@));
    }
    let mut j: usize = 0;
    while j < aliases.len()
        invariant
            j <= aliases@.len(),
            r.deep_view() == first + Seq::new(aliases@.len() as nat, |k: int| aliases.deep_view()[k] + "::"@ + NAMESPACE@ + "::"@ + name@).take(j as int),
        decreases aliases.len() - j,
    {
        let mut t = aliases[j].clone();
        t.append("::");
        t.append(NAMESPACE);
        t.append("::");
        t.append(name);
        push_err(&mut r, t);
        proof {
            assert(aliases.deep_view()[j as int] == aliases@[j as int]@);
            let g = Seq::new(aliases@.len() as nat, |k: int| aliases.deep_view()[k] + "::"@ + NAMESPACE@ + "::"@ + name@);
            assert(g.take(j + 1) =~= g.take(j as int).push(g[j as int]));
            assert(first + g.take(j + 1) =~= (first + g.take(j as int)).push(g[j as int]));
        }
        j = j + 1;
    }
    proof {
        let g = Seq::new(aliases@.len() as nat, |k: int| aliases.deep_view()[k] + "::"@ + NAMESPACE@ + "::"@ + name@);
        assert(g.take(aliases@.len() as int) =~= g);
        assert(r.deep_view() =~= trait_bounds(tr@, types.deep_view(), aliases.deep_view(), name@));
    }
    r
}

fn trait_text_exec(name: &str, bounds: &Vec<String>) -> (s: String)
    ensures
        s@ == trait_text(name@, bounds.deep_view()),
{
    let mut s = String::from_str("pub trait ");
    s.append(name);
    if bounds.len() == 0 {
        s.append(" {}");
    } else {
        s.append(": ");
        let j = join_strings(bounds, " + ");
        s.append(j.as_str());
        s.append(" {}");
    }
    s
}

impl Decoder {
    /// The names of the dependencies of crate `cr_idx`.
    fn aliases(deps: &Vec<Dependency>) -> (r: Vec<String>)
        ensures
            r.deep_view() == alias_views(deps@),
    {
        let mut r: Vec<String> = Vec::new();
        let mut i: usize = 0;
        while i < deps.len()
            invariant
                i <= deps@.len(),
                r.deep_view() == alias_views(deps@).take(i as int),
            decreases deps.len() - i,
        {
            push_err(&mut r, deps[i].alias.clone());
            proof {
                assert(alias_views(deps@).take(i + 1) =~= alias_views(deps@).take(i as int).push(deps@[i as int].alias@));
            }
            i = i + 1;
        }
        proof {
            assert(alias_views(deps@).take(deps@.len() as int) =~= alias_views(deps@));
        }
        r
    }

    /// The code of the namespace of crate `cr_idx` (see `dep_code_text`).
    #[verifier::loop_isolation(false)]
    pub fn codegen_dep(&self, cr_idx: usize, deps: &Vec<Vec<Dependency>>) -> (s: String)
        requires
            self.wf(),
            dep_code_ok(self.lines(), cr_idx as int),
            cr_idx < deps@.len(),
        ensures
            s@ == dep_code_text(self.lines(), cr_idx as int, deps@[cr_idx as int]@),
    {
        let trs = self.get_engine_trait_paths(cr_idx);
        let aliases = Self::aliases(&deps[cr_idx]);
        let comps = self.split_crate_data(Data::Components, cr_idx, ',');
        let events = self.split_crate_data(Data::Events, cr_idx, ',');
        let mut uses: Vec<String> = Vec::new();
        let mut i: usize = 0;
        let ghost av = alias_views(deps@[cr_idx as int]@);
        while i < aliases.len()
            invariant
                i <= aliases@.len(),
                aliases.deep_view() == av,
                uses.deep_view() == Seq::new(av.len(), |k: int| "pub use "@ + av[k] + ";"@).take(i as int),
            decreases aliases.len() - i,
        {
            let mut t = String::from_str("pub use ");
            t.append(aliases[i].as_str());
            t.append(";");
            push_err(&mut uses, t);
            proof {
                assert(aliases.deep_view()[i as int] == aliases@[i as int]@);
                let f = Seq::new(av.len(), |k: int| "pub use "@ + av[k] + ";"@);
                assert(f.take(i + 1) =~= f.take(i as int).push(f[i as int]));
            }
            i = i + 1;
        }
        proof {
            let f = Seq::new(av.len(), |k: int| "pub use "@ + av[k] + ";"@);
            assert(f.take(av.len() as int) =~= f);
            assert(trs.deep_view().len() == 2);
            assert(trs@.len() == 2);
            assert(trs.deep_view()[0] == trs@[0]@);
            assert(trs.deep_view()[1] == trs@[1]@);
        }
        let cb = trait_bounds_exec(&trs[0], &comps, &aliases, "AddComponent");
        let eb = trait_bounds_exec(&trs[1], &events, &aliases, "AddEvent");
        let mut s = join_strings(&uses, "");
        let ct = trait_text_exec("AddComponent", &cb);
        let et = trait_text_exec("AddEvent", &eb);
        s.append(ct.as_str());
        s.append(et.as_str());
        s
    }
}


/// The types of a crate's items, each under the crate's path.
pub open spec fn typed(cr_path: Seq<char>, items: Seq<Seq<char>>) -> Seq<Seq<char>> {
    Seq::new(items.len(), |i: int| cr_path + "::"@ + items[i])
}

/// The variables of a crate's items: `<p><crate>_<index>`.
pub open spec fn vars(p: char, cr: nat, n: nat) -> Seq<Seq<char>> {
    Seq::new(n, |i: int| var2(p, cr, i as nat))
}

/// The items of `kind` that crate `cr` lists.
pub open spec fn crate_items(lines: Seq<Seq<Seq<char>>>, kind: Data, cr: int) -> Seq<Seq<char>> {
    non_empty(split_on(lines[kind.pos()][cr], ','))
}

/// Per crate, the types of its items of `kind`.
pub open spec fn typed_per_crate(lines: Seq<Seq<Seq<char>>>, kind: Data) -> Seq<Seq<Seq<char>>> {
    let paths = lines[Data::CratePaths.pos()];
    Seq::new(paths.len(), |cr: int| typed(paths[cr], crate_items(lines, kind, cr)))
}

/// Per crate, the variables of its items of `kind`.
pub open spec fn vars_per_crate(lines: Seq<Seq<Seq<char>>>, kind: Data, p: char) -> Seq<Seq<Seq<char>>> {
    let paths = lines[Data::CratePaths.pos()];
    Seq::new(paths.len(), |cr: int| vars(p, cr as nat, crate_items(lines, kind, cr).len()))
}

/// Per crate, its systems.
pub open spec fn systems_per_crate(lines: Seq<Seq<Seq<char>>>) -> Seq<Seq<SystemView>> {
    let paths = lines[Data::CratePaths.pos()];
    Seq::new(paths.len(), |cr: int| Seq::new(system_pieces(lines, cr).len(), |i: int| parsed(paths[cr], system_pieces(lines, cr)[i])))
}

/// Whether the lines hold everything that the entry crate's code reads.
pub open spec fn entry_ok(lines: Seq<Seq<Seq<char>>>, cr_idx: int, deps: Seq<Vec<Dependency>>) -> bool {
    let paths = lines[Data::CratePaths.pos()];
    &&& dep_code_ok(lines, cr_idx)
    &&& cr_idx < deps.len()
    &&& acyclic_from_entry(dep_graph(deps))
    &&& forall|i: int| 0 <= i < post_order(dep_graph(deps)).len() ==> #[trigger] post_order(dep_graph(deps))[i] < paths.len()
    &&& engine_crate_of(lines) is Some
    &&& (engine_crate_of(lines)->0) < paths.len()
    &&& engine_globals_of(lines) is Some
    &&& (engine_globals_of(lines)->0)[EngineGlobals::EntityTrash.pos()].0 < paths.len()
    &&& paths.len() <= lines[Data::Components.pos()].len()
    &&& paths.len() <= lines[Data::Globals.pos()].len()
    &&& paths.len() <= lines[Data::Events.pos()].len()
    &&& paths.len() <= lines[Data::Systems.pos()].len()
    &&& forall|cr: int, i: int| 0 <= cr < paths.len() && 0 <= i < system_pieces(lines, cr).len() ==>
        #[trigger] parse_view(paths[cr], system_pieces(lines, cr)[i]) is Ok
}

/// What the code of the entry crate is made from: its namespace code, the
/// paths of the crates (all, and those reached from the entry crate in
/// dependency order), the engine crate's path, the types and variables of all
/// components, globals and events, the engine trait paths, the variables of the
/// engine globals, the path of the entity trash, and the init and other systems.
pub struct EntryCode {
    pub deps_code: String,
    pub crate_paths: Vec<String>,
    pub crate_paths_post: Vec<String>,
    pub engine_cr_path: String,
    pub crate_c_tys: Vec<Vec<String>>,
    pub c_tys: Vec<String>,
    pub c_vars: Vec<String>,
    pub g_tys: Vec<String>,
    pub g_vars: Vec<String>,
    pub e_tys: Vec<String>,
    pub e_vars: Vec<String>,
    pub engine_trait_paths: Vec<String>,
    pub engine_globals: Vec<String>,
    pub entity_trash_path: String,
    pub init_systems: Vec<System>,
    pub systems: Vec<System>,
}

fn typed_exec(cr_path: &String, items: &Vec<String>, p: char, cr: usize, tys: &mut Vec<String>, vs: &mut Vec<String>)
    ensures
        final(tys).deep_view() == old(tys).deep_view() + typed(cr_path@, items.deep_view()),
        final(vs).deep_view() == old(vs).deep_view() + vars(p, cr as nat, items@.len() as nat),
{
    let ghost t0 = tys.deep_view();
    let ghost v0 = vs.deep_view();
    let ghost ty = typed(cr_path@, items.deep_view());
    let ghost vr = vars(p, cr as nat, items@.len() as nat);
    let mut i: usize = 0;
    while i < items.len()
        invariant
            i <= items@.len(),
            ty == typed(cr_path@, items.deep_view()),
            vr == vars(p, cr as nat, items@.len() as nat),
            tys.deep_view() == t0 + ty.take(i as int),
            vs.deep_view() == v0 + vr.take(i as int),
        decreases items.len() - i,
    {
        let mut t = cr_path.clone();
        t.append("::");
        t.append(items[i].as_str());
        push_err(tys, t);
        let v = if p == 'c' {
            component_var(cr, i)
        } else if p == 'g' {
            global_var(cr, i)
        } else {
            let mut d: Vec<char> = Vec::new();
            d.push(p);
            crate::text::push_decimal(&mut d, cr);
            d.push('_');
            crate::text::push_decimal(&mut d, i);
            proof {
                assert(d@ =~= var2(p, cr as nat, i as nat));
            }
            crate::text::string_of(&d)
        };
        push_err(vs, v);
        proof {
            assert(items.deep_view()[i as int] == items@[i as int]@);
            assert(ty.take(i + 1) =~= ty.take(i as int).push(ty[i as int]));
            assert(vr.take(i + 1) =~= vr.take(i as int).push(vr[i as int]));
            assert(t0 + ty.take(i + 1) =~= (t0 + ty.take(i as int)).push(ty[i as int]));
            assert(v0 + vr.take(i + 1) =~= (v0 + vr.take(i as int)).push(vr[i as int]));
        }
        i = i + 1;
    }
    proof {
        assert(ty.take(items@.len() as int) =~= ty);
        assert(vr.take(items@.len() as int) =~= vr);
    }
}


/// The systems of `s` whose init mark is `init`, in order.
pub open spec fn with_init(s: Seq<SystemView>, init: bool) -> Seq<SystemView>
    decreases s.len(),
{
    if s.len() == 0 {
        seq![]
    } else {
        let r = with_init(s.drop_last(), init);
        if s.last().is_init == init { r.push(s.last()) } else { r }
    }
}

/// Lists of strings as characters.
pub open spec fn nested_view(v: Seq<Vec<String>>) -> Seq<Seq<Seq<char>>> {
    Seq::new(v.len(), |i: int| v[i].deep_view())
}

/// Every system of `v` is well formed.
pub open spec fn all_wf(v: Seq<System>) -> bool {
    forall|i: int| 0 <= i < v.len() ==> (#[trigger] v[i]).wf()
}

/// Systems as views.
pub open spec fn system_views(v: Seq<System>) -> Seq<SystemView> {
    Seq::new(v.len(), |i: int| v[i]@)
}

fn move_systems(from: Vec<System>, init: &mut Vec<System>, other: &mut Vec<System>)
    requires
        all_wf(from@),
        all_wf(old(init)@),
        all_wf(old(other)@),
    ensures
        all_wf(final(init)@),
        all_wf(final(other)@),
        system_views(final(init)@) == system_views(old(init)@) + with_init(system_views(from@), true),
        system_views(final(other)@) == system_views(old(other)@) + with_init(system_views(from@), false),
{
    let ghost f0 = system_views(from@);
    let ghost i0 = system_views(init@);
    let ghost o0 = system_views(other@);
    let mut rest = from;
    let n = rest.len();
    let mut k: usize = 0;
    let ghost r0 = rest@;
    proof {
        assert(f0.take(0) =~= Seq::<SystemView>::empty());
        assert(i0 + with_init(f0.take(0), true) =~= i0);
        assert(o0 + with_init(f0.take(0), false) =~= o0);
    }
    while rest.len() > 0
        invariant
            n == r0.len(),
            f0 == system_views(r0),
            k + rest@.len() == n,
            rest@ == r0.skip(k as int),
            system_views(init@) == i0 + with_init(f0.take(k as int), true),
            system_views(other@) == o0 + with_init(f0.take(k as int), false),
            all_wf(r0),
            all_wf(init@),
            all_wf(other@),
        decreases rest.len(),
    {
        let x = rest.remove(0);
        let ghost xv = x@;
        proof {
            assert(r0[k as int] == x);
            assert(f0.take(k + 1).drop_last() =~= f0.take(k as int));
            assert(f0.take(k + 1).last() == xv);
        }
        if x.is_init {
            let ghost iv0 = init@;
            init.push(x);
            proof {
                assert(system_views(init@) =~= system_views(iv0).push(xv));
            }
        } else {
            let ghost ov0 = other@;
            other.push(x);
            proof {
                assert(system_views(other@) =~= system_views(ov0).push(xv));
            }
        }
        proof {
            assert(rest@ =~= r0.skip(k + 1));
        }
        k = k + 1;
    }
    proof {
        assert(f0.take(n as int) =~= f0);
    }
}

proof fn lemma_with_init_concat(a: Seq<SystemView>, b: Seq<SystemView>, init: bool)
    ensures
        with_init(a + b, init) == with_init(a, init) + with_init(b, init),
    decreases b.len(),
{
    if b.len() == 0 {
        assert(a + b =~= a);
        assert(with_init(a, init) + with_init(b, init) =~= with_init(a, init));
    } else {
        assert((a + b).drop_last() =~= a + b.drop_last());
        lemma_with_init_concat(a, b.drop_last(), init);
        assert((a + b).last() == b.last());
    }
}

/// `e` is what the code of the entry crate `cr_idx` is made from, given the
/// lines and the dependencies of every crate (see `EntryCode`).
pub open spec fn entry_code_ok(e: EntryCode, lines: Seq<Seq<Seq<char>>>, cr_idx: int, deps: Seq<Vec<Dependency>>) -> bool {
    &&& e.deps_code@ == dep_code_text(lines, cr_idx, deps[cr_idx]@)
    &&& e.crate_paths.deep_view() == lines[Data::CratePaths.pos()]
    &&& e.crate_paths_post.deep_view() == Seq::new(post_order(dep_graph(deps)).len(), |i: int|
            lines[Data::CratePaths.pos()][post_order(dep_graph(deps))[i] as int])
    &&& e.engine_cr_path@ == lines[Data::CratePaths.pos()][engine_crate_of(lines)->0 as int]
    &&& nested_view(e.crate_c_tys@) == typed_per_crate(lines, Data::Components)
    &&& e.c_tys.deep_view() == typed_per_crate(lines, Data::Components).flatten()
    &&& e.c_vars.deep_view() == vars_per_crate(lines, Data::Components, 'c').flatten()
    &&& e.g_tys.deep_view() == typed_per_crate(lines, Data::Globals).flatten()
    &&& e.g_vars.deep_view() == vars_per_crate(lines, Data::Globals, 'g').flatten()
    &&& e.e_tys.deep_view() == typed_per_crate(lines, Data::Events).flatten()
    &&& e.e_vars.deep_view() == vars_per_crate(lines, Data::Events, 'e').flatten()
    &&& e.engine_trait_paths.deep_view() == split_on(lines[Data::EngineTraits.pos()][cr_idx], ',').take(2)
    &&& e.engine_globals.deep_view() == Seq::new(8, |g: int|
            var2('g', (engine_globals_of(lines)->0)[g].0 as nat, (engine_globals_of(lines)->0)[g].1 as nat))
    &&& e.entity_trash_path@ == lines[Data::CratePaths.pos()][(engine_globals_of(lines)->0)[EngineGlobals::EntityTrash.pos()].0 as int]
            + "::EntityTrash"@
    &&& system_views(e.init_systems@) == with_init(systems_per_crate(lines).flatten(), true)
    &&& system_views(e.systems@) == with_init(systems_per_crate(lines).flatten(), false)
    &&& all_wf(e.init_systems@)
    &&& all_wf(e.systems@)
}

impl Decoder {
    /// What the code of the entry crate `cr_idx` is made from (see
    /// `EntryCode`).
    #[verifier::loop_isolation(false)]
    #[verifier::rlimit(60)]
    pub fn codegen_entry(&self, cr_idx: usize, deps: &Vec<Vec<Dependency>>) -> (e: EntryCode)
        requires
            self.wf(),
            entry_ok(self.lines(), cr_idx as int, deps@),
        ensures
            entry_code_ok(e, self.lines(), cr_idx as int, deps@),
    {
        let ghost lines = self.lines();
        let deps_code = self.codegen_dep(cr_idx, deps);
        let deps_lrn = get_deps_post_order(deps);
        let crate_paths = self.get_crate_paths();
        let ghost paths = lines[Data::CratePaths.pos()];
        let mut post: Vec<String> = Vec::new();
        let mut i: usize = 0;
        while i < deps_lrn.len()
            invariant
                i <= deps_lrn@.len(),
                post.deep_view() == Seq::new(deps_lrn@.len(), |k: int| paths[deps_lrn@[k] as int]).take(i as int),
            decreases deps_lrn.len() - i,
        {
            proof {
                assert(deps_lrn@[i as int] == post_order(dep_graph(deps@))[i as int]);
                assert(crate_paths.deep_view()[deps_lrn@[i as int] as int] == crate_paths@[deps_lrn@[i as int] as int]@);
                let f = Seq::new(deps_lrn@.len(), |k: int| paths[deps_lrn@[k] as int]);
                assert(f.take(i + 1) =~= f.take(i as int).push(f[i as int]));
            }
            push_err(&mut post, crate_paths[deps_lrn[i]].clone());
            i = i + 1;
        }
        proof {
            let f = Seq::new(deps_lrn@.len(), |k: int| paths[deps_lrn@[k] as int]);
            assert(f.take(deps_lrn@.len() as int) =~= f);
        }
        let eci = self.get_engine_crate_index();
        proof {
            assert(crate_paths.deep_view()[eci as int] == crate_paths@[eci as int]@);
        }
        let engine_cr_path = crate_paths[eci].clone();
        let n = crate_paths.len();
        let mut crate_c_tys: Vec<Vec<String>> = Vec::new();
        let mut c_tys: Vec<String> = Vec::new();
        let mut c_vars: Vec<String> = Vec::new();
        let mut g_tys: Vec<String> = Vec::new();
        let mut g_vars: Vec<String> = Vec::new();
        let mut e_tys: Vec<String> = Vec::new();
        let mut e_vars: Vec<String> = Vec::new();
        let mut init_systems: Vec<System> = Vec::new();
        let mut systems: Vec<System> = Vec::new();
        let ghost tc = typed_per_crate(lines, Data::Components);
        let ghost vc = vars_per_crate(lines, Data::Components, 'c');
        let ghost tg = typed_per_crate(lines, Data::Globals);
        let ghost vg = vars_per_crate(lines, Data::Globals, 'g');
        let ghost te = typed_per_crate(lines, Data::Events);
        let ghost ve = vars_per_crate(lines, Data::Events, 'e');
        let ghost sp = systems_per_crate(lines);
        let mut cr: usize = 0;
        proof {
            assert(tc.take(0) =~= Seq::<Seq<Seq<char>>>::empty());
            assert(nested_view(crate_c_tys@) =~= tc.take(0));
            assert(c_tys.deep_view() =~= tc.take(0).flatten());
            assert(c_vars.deep_view() =~= vc.take(0).flatten());
            assert(g_tys.deep_view() =~= tg.take(0).flatten());
            assert(g_vars.deep_view() =~= vg.take(0).flatten());
            assert(e_tys.deep_view() =~= te.take(0).flatten());
            assert(e_vars.deep_view() =~= ve.take(0).flatten());
            assert(system_views(init_systems@) =~= with_init(sp.take(0).flatten(), true));
            assert(system_views(systems@) =~= with_init(sp.take(0).flatten(), false));
        }
        while cr < n
            invariant
                cr <= n == paths.len(),
                crate_paths.deep_view() == paths,
                nested_view(crate_c_tys@) == tc.take(cr as int),
                c_tys.deep_view() == tc.take(cr as int).flatten(),
                c_vars.deep_view() == vc.take(cr as int).flatten(),
                g_tys.deep_view() == tg.take(cr as int).flatten(),
                g_vars.deep_view() == vg.take(cr as int).flatten(),
                e_tys.deep_view() == te.take(cr as int).flatten(),
                e_vars.deep_view() == ve.take(cr as int).flatten(),
                system_views(init_systems@) == with_init(sp.take(cr as int).flatten(), true),
                system_views(systems@) == with_init(sp.take(cr as int).flatten(), false),
                all_wf(init_systems@),
                all_wf(systems@),
            decreases n - cr,
        {
            let cpath = &crate_paths[cr];
            proof {
                assert(crate_paths.deep_view()[cr as int] == cpath@);
            }
            let comps = self.split_crate_data(Data::Components, cr, ',');
            let globs = self.split_crate_data(Data::Globals, cr, ',');
            let evs = self.split_crate_data(Data::Events, cr, ',');
            let mut local: Vec<String> = Vec::new();
            let mut dummy: Vec<String> = Vec::new();
            proof {
                assert(local.deep_view() =~= Seq::<Seq<char>>::empty());
            }
            typed_exec(cpath, &comps, 'c', cr, &mut local, &mut c_vars);
            let copy = crate::ast_resolve::clone_strings(&local);
            let ghost ct0 = c_tys.deep_view();
            let mut copy2 = copy;
            c_tys.append(&mut copy2);
            let ghost cc0 = crate_c_tys@;
            crate_c_tys.push(local);
            typed_exec(cpath, &globs, 'g', cr, &mut g_tys, &mut g_vars);
            typed_exec(cpath, &evs, 'e', cr, &mut e_tys, &mut e_vars);
            proof {
                assert forall|cr2: int, k: int| 0 <= cr2 < paths.len() && 0 <= k < system_pieces(lines, cr2).len() implies
                    #[trigger] parse_view(paths[cr2], system_pieces(lines, cr2)[k]) is Ok by {}
                assert forall|k: int| 0 <= k < system_pieces(self.lines(), cr as int).len() implies
                    #[trigger] parse_view(cpath@, system_pieces(self.lines(), cr as int)[k]) is Ok by {
                    assert(parse_view(paths[cr as int], system_pieces(lines, cr as int)[k]) is Ok);
                }
            }
            let sys = self.get_systems(cr, cpath.as_str());
            proof {
                assert(system_views(sys@) =~= sp[cr as int]);
                assert(sp.take(cr + 1) =~= sp.take(cr as int).push(sp[cr as int]));
                lemma_with_init_concat(sp.take(cr as int).flatten(), sp[cr as int], true);
                lemma_with_init_concat(sp.take(cr as int).flatten(), sp[cr as int], false);
            }
            move_systems(sys, &mut init_systems, &mut systems);
            proof {
                assert(tc[cr as int] == typed(paths[cr as int], crate_items(lines, Data::Components, cr as int)));
                assert(comps.deep_view() == crate_items(lines, Data::Components, cr as int));
                assert(tc.take(cr + 1) =~= tc.take(cr as int).push(tc[cr as int]));
                assert(vc.take(cr + 1) =~= vc.take(cr as int).push(vc[cr as int]));
                assert(tg.take(cr + 1) =~= tg.take(cr as int).push(tg[cr as int]));
                assert(vg.take(cr + 1) =~= vg.take(cr as int).push(vg[cr as int]));
                assert(te.take(cr + 1) =~= te.take(cr as int).push(te[cr as int]));
                assert(ve.take(cr + 1) =~= ve.take(cr as int).push(ve[cr as int]));
                assert(c_tys.deep_view() =~= ct0 + tc[cr as int]);
                tc.take(cr as int).lemma_flatten_push(tc[cr as int]);
                vc.take(cr as int).lemma_flatten_push(vc[cr as int]);
                tg.take(cr as int).lemma_flatten_push(tg[cr as int]);
                vg.take(cr as int).lemma_flatten_push(vg[cr as int]);
                te.take(cr as int).lemma_flatten_push(te[cr as int]);
                ve.take(cr as int).lemma_flatten_push(ve[cr as int]);
                sp.take(cr as int).lemma_flatten_push(sp[cr as int]);
                assert(vc[cr as int] == vars('c', cr as nat, comps@.len() as nat));
                assert(nested_view(crate_c_tys@) =~= nested_view(cc0).push(tc[cr as int]));
            }
            cr = cr + 1;
        }
        proof {
            assert(tc.take(n as int) =~= tc);
            assert(vc.take(n as int) =~= vc);
            assert(tg.take(n as int) =~= tg);
            assert(vg.take(n as int) =~= vg);
            assert(te.take(n as int) =~= te);
            assert(ve.take(n as int) =~= ve);
            assert(sp.take(n as int) =~= sp);
        }
        let engine_trait_paths = self.get_engine_trait_paths(cr_idx);
        let eg = self.get_engine_globals();
        let mut engine_globals: Vec<String> = Vec::new();
        let mut g: usize = 0;
        while g < 8
            invariant
                g <= 8,
                eg@.len() == 8,
                engine_globals.deep_view() == Seq::new(8, |k: int| var2('g', eg@[k].0 as nat, eg@[k].1 as nat)).take(g as int),
            decreases 8 - g,
        {
            push_err(&mut engine_globals, global_var(eg[g].0, eg[g].1));
            proof {
                let f = Seq::new(8, |k: int| var2('g', eg@[k].0 as nat, eg@[k].1 as nat));
                assert(f.take(g + 1) =~= f.take(g as int).push(f[g as int]));
            }
            g = g + 1;
        }
        proof {
            let f = Seq::new(8, |k: int| var2('g', eg@[k].0 as nat, eg@[k].1 as nat));
            assert(f.take(8) =~= f);
        }
        let trash_cr = eg[EngineGlobals::EntityTrash.index_of()].0;
        proof {
            assert(crate_paths.deep_view()[trash_cr as int] == crate_paths@[trash_cr as int]@);
        }
        let mut entity_trash_path = crate_paths[trash_cr].clone();
        entity_trash_path.append("::EntityTrash");
        EntryCode {
            deps_code,
            crate_paths,
            crate_paths_post: post,
            engine_cr_path,
            crate_c_tys,
            c_tys,
            c_vars,
            g_tys,
            g_vars,
            e_tys,
            e_vars,
            engine_trait_paths,
            engine_globals,
            entity_trash_path,
            init_systems,
            systems,
        }
    }
}


/// The position of the crate in directory `dir` among the dependency lines.
pub open spec fn crate_position(lines: Seq<Seq<Seq<char>>>, dir: Seq<char>) -> Option<int> {
    let ds = deps_of(lines)->0;
    if exists|i: int| 0 <= i < ds.len() && ds[i].0 == dir {
        Some(choose|i: int| 0 <= i < ds.len() && ds[i].0 == dir && forall|j: int| 0 <= j < i ==> ds[j].0 != dir)
    } else {
        None
    }
}

/// The dependencies that the lines give each crate.
pub open spec fn dep_lists(v: Seq<Vec<Dependency>>) -> Seq<Seq<(usize, Seq<char>)>> {
    Seq::new(v.len(), |i: int| dep_views(v[i]@))
}

/// The code of a crate: the entry crate's parts, or a dependency crate's
/// namespace code.
pub enum Codegen {
    Entry(EntryCode),
    Dep(String),
}

impl Decoder {
    /// The index of the crate in directory `dir` (as the dependency lines name
    /// it) and its code: the entry crate's parts for index `0`, else the
    /// namespace code; none when the dependency lines cannot be read or do not
    /// name `dir`.
    pub fn codegen(&self, dir: &str) -> (r: Option<(usize, Codegen)>)
        requires
            self.wf(),
            deps_of(self.lines()) is Some,
            crate_position(self.lines(), dir@) is Some ==> {
                let i = crate_position(self.lines(), dir@)->0;
                &&& forall|deps: Seq<Vec<Dependency>>| #![trigger dep_lists(deps)]
                    dep_lists(deps) == Seq::new((deps_of(self.lines())->0).len(), |k: int| (deps_of(self.lines())->0)[k].1)
                        ==> if i == 0 { entry_ok(self.lines(), 0, deps) } else { dep_code_ok(self.lines(), i) && i < deps.len() }
            },
        ensures
            crate_position(self.lines(), dir@) is None ==> r is None,
            crate_position(self.lines(), dir@) is Some ==> r is Some && (r->0).0 == crate_position(self.lines(), dir@)->0
                && ((r->0).0 == 0 <==> (r->0).1 is Entry),
            r matches Some((i, c)) ==> exists|deps: Seq<Vec<Dependency>>|
                dep_lists(deps) == Seq::new((deps_of(self.lines())->0).len(), |k: int| (deps_of(self.lines())->0)[k].1)
                && match c {
                    Codegen::Entry(e) => entry_code_ok(e, self.lines(), 0, deps),
                    Codegen::Dep(s) => s@ == dep_code_text(self.lines(), i as int, deps[i as int]@),
                },
    {
        let all = match self.try_dependencies() {
            Some(v) => v,
            None => return None,
        };
        let ghost ds = deps_of(self.lines())->0;
        let mut pos: Option<usize> = None;
        let mut i: usize = 0;
        while i < all.len()
            invariant
                i <= all@.len(),
                all@.len() == ds.len(),
                forall|k: int| 0 <= k < all@.len() ==> (#[trigger] all@[k]).0@ == ds[k].0 && dep_views(all@[k].1@) == ds[k].1,
                pos is None ==> forall|j: int| 0 <= j < i ==> ds[j].0 != dir@,
                pos is Some ==> (pos->0) < i && ds[pos->0 as int].0 == dir@ && forall|j: int| 0 <= j < (pos->0) ==> ds[j].0 != dir@,
            decreases all.len() - i,
        {
            if pos.is_none() && crate::text::str_eq(all[i].0.as_str(), dir) {
                pos = Some(i);
            }
            i = i + 1;
        }
        let cr_idx = match pos {
            Some(p) => p,
            None => return None,
        };
        proof {
            let c = choose|k: int| 0 <= k < ds.len() && ds[k].0 == dir@ && forall|j: int| 0 <= j < k ==> ds[j].0 != dir@;
            assert(c == cr_idx) by {
                if c < cr_idx {
                    assert(ds[c].0 != dir@);
                } else if c > cr_idx {
                    assert(ds[cr_idx as int].0 != dir@);
                }
            }
        }
        let mut deps: Vec<Vec<Dependency>> = Vec::new();
        let mut rest = all;
        let ghost a0 = rest@;
        let mut k: usize = 0;
        let n = rest.len();
        while rest.len() > 0
            invariant
                n == a0.len() == ds.len(),
                k + rest@.len() == n,
                rest@ == a0.skip(k as int),
                forall|q: int| 0 <= q < a0.len() ==> dep_views((#[trigger] a0[q]).1@) == ds[q].1,
                deps@.len() == k,
                forall|q: int| 0 <= q < k ==> dep_views((#[trigger] deps@[q])@) == ds[q].1,
            decreases rest.len(),
        {
            let (_, d) = rest.remove(0);
            proof {
                assert(a0[k as int].1 == d);
            }
            deps.push(d);
            proof {
                assert(rest@ =~= a0.skip(k + 1));
            }
            k = k + 1;
        }
        proof {
            assert(dep_lists(deps@) =~= Seq::new(ds.len(), |q: int| ds[q].1));
        }
        let ghost dv = deps@;
        if cr_idx == 0 {
            let e = self.codegen_entry(cr_idx, &deps);
            proof {
                assert(entry_code_ok(e, self.lines(), 0, dv));
            }
            Some((cr_idx, Codegen::Entry(e)))
        } else {
            let code = self.codegen_dep(cr_idx, &deps);
            Some((cr_idx, Codegen::Dep(code)))
        }
    }
}

/// Whether the lines and the dependencies give the code of the crate in
/// directory `dir` all that it reads: the entry crate's parts for position `0`,
/// else the namespace code (see `entry_ok` and `dep_code_ok`).
pub open spec fn codegen_ready(lines: Seq<Seq<Seq<char>>>, dir: Seq<char>) -> bool {
    &&& deps_of(lines) is Some
    &&& crate_position(lines, dir) is Some
    &&& {
        let i = crate_position(lines, dir)->0;
        forall|deps: Seq<Vec<Dependency>>| #![trigger dep_lists(deps)]
            dep_lists(deps) == Seq::new((deps_of(lines)->0).len(), |k: int| (deps_of(lines)->0)[k].1)
                ==> if i == 0 { entry_ok(lines, 0, deps) } else { dep_code_ok(lines, i) && i < deps.len() }
    }
}

/// Dependencies with the same views have the same graph.
proof fn lemma_dep_lists_graph(a: Seq<Vec<Dependency>>, b: Seq<Vec<Dependency>>)
    requires
        dep_lists(a) == dep_lists(b),
    ensures
        a.len() == b.len(),
        dep_graph(a) == dep_graph(b),
{
    assert(dep_lists(a).len() == a.len());
    assert(dep_lists(b).len() == b.len());
    assert forall|i: int| 0 <= i < a.len() implies dep_graph(a)[i] == dep_graph(b)[i] by {
        assert(dep_lists(a)[i] == dep_lists(b)[i]);
        assert(dep_views(a[i]@) == dep_views(b[i]@));
        assert forall|j: int| 0 <= j < a[i]@.len() implies dep_graph(a)[i][j] == dep_graph(b)[i][j] by {
            assert(dep_views(a[i]@)[j] == dep_views(b[i]@)[j]);
        }
        assert(dep_graph(a)[i] =~= dep_graph(b)[i]);
    }
    assert(dep_graph(a) =~= dep_graph(b));
}

impl Decoder {
    /// Whether the lines hold what the namespace code of crate `cr_idx` reads
    /// (see `dep_code_ok`).
    pub fn dep_code_ready(&self, cr_idx: usize) -> (r: bool)
        requires
            self.wf(),
        ensures
            r == dep_code_ok(self.lines(), cr_idx as int),
    {
        proof {
            assert(self.lines()[Data::EngineTraits.pos()] == self.data@[Data::EngineTraits.pos()].deep_view());
            assert(self.lines()[Data::Components.pos()] == self.data@[Data::Components.pos()].deep_view());
            assert(self.lines()[Data::Events.pos()] == self.data@[Data::Events.pos()].deep_view());
        }
        if cr_idx >= self.data[Data::EngineTraits.index()].len() || cr_idx >= self.data[Data::Components.index()].len()
            || cr_idx >= self.data[Data::Events.index()].len() {
            return false;
        }
        let e = self.get_crate_data(Data::EngineTraits, cr_idx);
        let pieces = crate::text::split_char(e.as_str(), ',');
        pieces.len() >= 2
    }

    /// Whether the lines and the dependencies `deps` hold all that the code of
    /// the entry crate `cr_idx` reads (see `entry_ok`).
    pub fn entry_ready(&self, cr_idx: usize, deps: &Vec<Vec<Dependency>>) -> (r: bool)
        requires
            self.wf(),
        ensures
            r == entry_ok(self.lines(), cr_idx as int, deps@),
    {
        let ghost lines = self.lines();
        let ghost paths = lines[Data::CratePaths.pos()];
        proof {
            assert(paths == self.data@[Data::CratePaths.pos()].deep_view());
            assert(lines[Data::Components.pos()] == self.data@[Data::Components.pos()].deep_view());
            assert(lines[Data::Globals.pos()] == self.data@[Data::Globals.pos()].deep_view());
            assert(lines[Data::Events.pos()] == self.data@[Data::Events.pos()].deep_view());
            assert(lines[Data::Systems.pos()] == self.data@[Data::Systems.pos()].deep_view());
        }
        if !self.dep_code_ready(cr_idx) || cr_idx >= deps.len() {
            return false;
        }
        if !is_acyclic_from_entry(deps) {
            return false;
        }
        let n = self.data[Data::CratePaths.index()].len();
        let post = get_deps_post_order(deps);
        let mut i: usize = 0;
        while i < post.len()
            invariant
                i <= post@.len(),
                n == paths.len(),
                lines == self.lines(),
                paths == lines[Data::CratePaths.pos()],
                post@ == post_order(dep_graph(deps@)),
                forall|k: int| 0 <= k < i ==> #[trigger] post_order(dep_graph(deps@))[k] < paths.len(),
            decreases post.len() - i,
        {
            if post[i] >= n {
                proof {
                    assert(post_order(dep_graph(deps@))[i as int] >= paths.len());
                }
                return false;
            }
            i = i + 1;
        }
        match self.try_engine_crate_index() {
            None => {
                return false;
            },
            Some(e) => {
                if e >= n {
                    return false;
                }
            },
        }
        match self.try_engine_globals() {
            None => {
                return false;
            },
            Some(v) => {
                if v[EngineGlobals::EntityTrash.index_of()].0 >= n {
                    return false;
                }
            },
        }
        if n > self.data[Data::Components.index()].len() || n > self.data[Data::Globals.index()].len()
            || n > self.data[Data::Events.index()].len() || n > self.data[Data::Systems.index()].len() {
            return false;
        }
        let crate_paths = self.get_crate_paths();
        let regexes = SystemRegexes::new();
        let mut cr: usize = 0;
        while cr < n
            invariant
                cr <= n,
                n == paths.len(),
                lines == self.lines(),
                self.wf(),
                crate_paths.deep_view() == paths,
                paths == lines[Data::CratePaths.pos()],
                n <= lines[Data::Systems.pos()].len(),
                forall|c: int, k: int| 0 <= c < cr && 0 <= k < system_pieces(lines, c).len() ==>
                    #[trigger] parse_view(paths[c], system_pieces(lines, c)[k]) is Ok,
            decreases n - cr,
        {
            let pieces = self.split_crate_data(Data::Systems, cr, ',');
            let ghost ps = system_pieces(lines, cr as int);
            proof {
                assert(crate_paths.deep_view()[cr as int] == crate_paths@[cr as int]@);
            }
            let mut k: usize = 0;
            while k < pieces.len()
                invariant
                    cr < n,
                    self.wf(),
                    n == paths.len(),
                    crate_paths@.len() == n,
                    lines == self.lines(),
                    paths == lines[Data::CratePaths.pos()],
                    k <= pieces@.len(),
                    pieces.deep_view() == ps,
                    ps == system_pieces(lines, cr as int),
                    crate_paths@[cr as int]@ == paths[cr as int],
                    forall|q: int| 0 <= q < k ==> #[trigger] parse_view(paths[cr as int], ps[q]) is Ok,
                decreases pieces.len() - k,
            {
                proof {
                    assert(pieces.deep_view()[k as int] == pieces@[k as int]@);
                }
                if System::try_parse(crate_paths[cr].as_str(), pieces[k].as_str(), &regexes).is_err() {
                    proof {
                        assert(!(parse_view(paths[cr as int], system_pieces(lines, cr as int)[k as int]) is Ok));
                    }
                    return false;
                }
                k = k + 1;
            }
            cr = cr + 1;
        }
        true
    }

    /// The index of the crate in directory `dir` and its code, when the lines
    /// hold all that the code reads (see `codegen_ready`); none otherwise.
    pub fn try_codegen(&self, dir: &str) -> (r: Option<(usize, Codegen)>)
        requires
            self.wf(),
        ensures
            r is Some <==> codegen_ready(self.lines(), dir@),
            r matches Some((i, c)) ==> i == crate_position(self.lines(), dir@)->0 && (i == 0 <==> c is Entry)
                && exists|deps: Seq<Vec<Dependency>>|
                dep_lists(deps) == Seq::new((deps_of(self.lines())->0).len(), |k: int| (deps_of(self.lines())->0)[k].1)
                && match c {
                    Codegen::Entry(e) => entry_code_ok(e, self.lines(), 0, deps),
                    Codegen::Dep(s) => s@ == dep_code_text(self.lines(), i as int, deps[i as int]@),
                },
    {
        let ghost lines = self.lines();
        let all = match self.try_dependencies() {
            Some(v) => v,
            None => return None,
        };
        let ghost ds = deps_of(lines)->0;
        let mut pos: Option<usize> = None;
        let mut i: usize = 0;
        while i < all.len()
            invariant
                i <= all@.len(),
                all@.len() == ds.len(),
                forall|k: int| 0 <= k < all@.len() ==> (#[trigger] all@[k]).0@ == ds[k].0 && dep_views(all@[k].1@) == ds[k].1,
                pos is None ==> forall|j: int| 0 <= j < i ==> ds[j].0 != dir@,
                pos is Some ==> (pos->0) < i && ds[pos->0 as int].0 == dir@ && forall|j: int| 0 <= j < (pos->0) ==> ds[j].0 != dir@,
            decreases all.len() - i,
        {
            if pos.is_none() && crate::text::str_eq(all[i].0.as_str(), dir) {
                pos = Some(i);
            }
            i = i + 1;
        }
        let cr_idx = match pos {
            Some(p) => p,
            None => return None,
        };
        proof {
            let c = choose|k: int| 0 <= k < ds.len() && ds[k].0 == dir@ && forall|j: int| 0 <= j < k ==> ds[j].0 != dir@;
            assert(c == cr_idx) by {
                if c < cr_idx {
                    assert(ds[c].0 != dir@);
                } else if c > cr_idx {
                    assert(ds[cr_idx as int].0 != dir@);
                }
            }
        }
        let mut deps: Vec<Vec<Dependency>> = Vec::new();
        let mut rest = all;
        let ghost a0 = rest@;
        let mut k: usize = 0;
        let n = rest.len();
        while rest.len() > 0
            invariant
                n == a0.len() == ds.len(),
                k + rest@.len() == n,
                rest@ == a0.skip(k as int),
                forall|q: int| 0 <= q < a0.len() ==> dep_views((#[trigger] a0[q]).1@) == ds[q].1,
                deps@.len() == k,
                forall|q: int| 0 <= q < k ==> dep_views((#[trigger] deps@[q])@) == ds[q].1,
            decreases rest.len(),
        {
            let (_, d) = rest.remove(0);
            proof {
                assert(a0[k as int].1 == d);
            }
            deps.push(d);
            proof {
                assert(rest@ =~= a0.skip(k + 1));
            }
            k = k + 1;
        }
        proof {
            assert(dep_lists(deps@) =~= Seq::new(ds.len(), |q: int| ds[q].1));
        }
        let ok = if cr_idx == 0 {
            self.entry_ready(0, &deps)
        } else {
            self.dep_code_ready(cr_idx) && cr_idx < deps.len()
        };
        if !ok {
            return None;
        }
        proof {
            assert forall|d2: Seq<Vec<Dependency>>| #![trigger dep_lists(d2)]
                dep_lists(d2) == Seq::new(ds.len(), |q: int| ds[q].1)
                    implies if cr_idx == 0 { entry_ok(lines, 0, d2) } else { dep_code_ok(lines, cr_idx as int) && cr_idx < d2.len() } by {
                lemma_dep_lists_graph(d2, deps@);
            }
        }
        self.codegen(dir)
    }
}

} // verus!
