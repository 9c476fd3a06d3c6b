use vstd::prelude::*;
use vstd::string::*;
use crate::ast_crate::Crate;
use crate::ast_items::{Global, GlobalMacroArgs, ItemsCrate};
use crate::ast_mod::{Mod, ModType, Symbol};
use crate::ast_paths::{crate_rooted, EngineGlobals, EngineTraits};
use crate::ast_resolve::{clone_strings, Path};
use crate::constants::NAMESPACE;

verus! {

/// The identifiers that generated code uses.
#[derive(Clone, Copy, Debug, PartialEq, Eq)]
pub enum Idents {
    Namespace,
    SFoo,
    GFoo,
    CFoo,
    EFoo,
    AddComponent,
    AddEvent,
    E,
    ELen,
    GenE,
    GenV,
    GenEid,
    GenEids,
    GenCFoo,
    GenGFoo,
    GenEFoo,
}

impl Idents {
    /// The identifier's text.
    pub open spec fn text(self) -> Seq<char> {
        match self {
            Idents::Namespace => NAMESPACE@,
            Idents::SFoo => "SFoo"@,
            Idents::GFoo => "GFoo"@,
            Idents::CFoo => "CFoo"@,
            Idents::EFoo => "EFoo"@,
            Idents::AddComponent => "AddComponent"@,
            Idents::AddEvent => "AddEvent"@,
            Idents::E => "E"@,
            Idents::ELen => "E_LEN"@,
            Idents::GenE => "e"@,
            Idents::GenV => "v"@,
            Idents::GenEid => "eid"@,
            Idents::GenEids => "eids"@,
            Idents::GenCFoo => "cfoo"@,
            Idents::GenGFoo => "gfoo"@,
            Idents::GenEFoo => "efoo"@,
        }
    }

    /// The identifier's text.
    pub fn as_str(&self) -> (s: &'static str)
        ensures
            s@ == self.text(),
    {
        match self {
            Idents::Namespace => NAMESPACE,
            Idents::SFoo => "SFoo",
            Idents::GFoo => "GFoo",
            Idents::CFoo => "CFoo",
            Idents::EFoo => "EFoo",
            Idents::AddComponent => "AddComponent",
            Idents::AddEvent => "AddEvent",
            Idents::E => "E",
            Idents::ELen => "E_LEN",
            Idents::GenE => "e",
            Idents::GenV => "v",
            Idents::GenEid => "eid",
            Idents::GenEids => "eids",
            Idents::GenCFoo => "cfoo",
            Idents::GenGFoo => "gfoo",
            Idents::GenEFoo => "efoo",
        }
    }
}

/// A public symbol named `ident` for the item at `path`.
pub open spec fn pub_symbol_view(s: Symbol, ident: Seq<char>, path: Seq<Seq<char>>) -> bool {
    s.ident@ == ident && s.path.deep_view() == path && s.public
}

fn symbol(ident: &str, path: Vec<String>) -> (s: Symbol)
    ensures
        s.ident@ == ident@,
        s.path == path,
        s.public,
{
    Symbol { ident: String::from_str(ident), path, public: true }
}

fn rooted(middle: &str, has_middle: bool, ident: &str) -> (v: Vec<String>)
    ensures
        v.deep_view() == crate_rooted(if has_middle { seq![middle@] } else { seq![] }, ident@),
{
    let mut v: Vec<String> = Vec::new();
    v.push(String::from_str("crate"));
    if has_middle {
        v.push(String::from_str(middle));
    }
    v.push(String::from_str(ident));
    proof {
        assert(v.deep_view() =~= crate_rooted(if has_middle { seq![middle@] } else { seq![] }, ident@));
    }
    v
}

/// The generated namespace module of a dependency crate: it declares the
/// engine traits and uses each of the crate's dependencies (`crate::<alias>`).
pub fn dependency_namespace_mod(cr: &Crate, dir: String, mods: Vec<String>) -> (m: Mod)
    ensures
        m.ty == ModType::Internal,
        m.dir == dir,
        m.path.deep_view() == mods.deep_view().push(NAMESPACE@),
        m.mods@.len() == 0,
        m.marked@.len() == 0,
        m.symbols@.len() == 2,
        pub_symbol_view(m.symbols@[0], EngineTraits::AddComponent.ident_view(), crate_rooted(seq![NAMESPACE@], EngineTraits::AddComponent.ident_view())),
        pub_symbol_view(m.symbols@[1], EngineTraits::AddEvent.ident_view(), crate_rooted(seq![NAMESPACE@], EngineTraits::AddEvent.ident_view())),
        m.uses@.len() == cr.deps@.len(),
        forall|i: int| 0 <= i < cr.deps@.len() ==> pub_symbol_view(#[trigger] m.uses@[i], cr.deps@[i].1@, seq!["crate"@, cr.deps@[i].1@]),
{
    let mut path = mods;
    let ghost m0 = path.deep_view();
    let ghost p0 = path@;
    path.push(String::from_str(NAMESPACE));
    proof {
        assert forall|j: int| 0 <= j < path@.len() implies path.deep_view()[j] == m0.push(NAMESPACE@)[j] by {
            if j < p0.len() {
                assert(path@[j] == p0[j]);
            }
        }
        assert(path.deep_view() =~= m0.push(NAMESPACE@));
    }
    let mut symbols: Vec<Symbol> = Vec::new();
    symbols.push(symbol(EngineTraits::AddComponent.as_ident(), rooted(NAMESPACE, true, EngineTraits::AddComponent.as_ident())));
    symbols.push(symbol(EngineTraits::AddEvent.as_ident(), rooted(NAMESPACE, true, EngineTraits::AddEvent.as_ident())));
    let mut uses: Vec<Symbol> = Vec::new();
    let mut i: usize = 0;
    while i < cr.deps.len()
        invariant
            i <= cr.deps@.len(),
            uses@.len() == i,
            forall|j: int| 0 <= j < i ==> pub_symbol_view(#[trigger] uses@[j], cr.deps@[j].1@, seq!["crate"@, cr.deps@[j].1@]),
        decreases cr.deps.len() - i,
    {
        let alias = &cr.deps[i].1;
        let mut p: Vec<String> = Vec::new();
        p.push(String::from_str("crate"));
        p.push(alias.clone());
        proof {
            assert(p.deep_view() =~= seq!["crate"@, alias@]);
        }
        uses.push(Symbol { ident: alias.clone(), path: p, public: true });
        i = i + 1;
    }
    Mod { ty: ModType::Internal, dir, path, mods: Vec::new(), symbols, uses, marked: Vec::new() }
}

/// The generated namespace module of the entry crate: that of a dependency
/// crate, with the component and event managers declared as well.
pub fn entry_namespace_mod(cr: &Crate, dir: String, mods: Vec<String>) -> (m: Mod)
    ensures
        m.ty == ModType::Internal,
        m.dir == dir,
        m.path.deep_view() == mods.deep_view().push(NAMESPACE@),
        m.mods@.len() == 0,
        m.marked@.len() == 0,
        m.symbols@.len() == 4,
        pub_symbol_view(m.symbols@[0], EngineTraits::AddComponent.ident_view(), crate_rooted(seq![NAMESPACE@], EngineTraits::AddComponent.ident_view())),
        pub_symbol_view(m.symbols@[1], EngineTraits::AddEvent.ident_view(), crate_rooted(seq![NAMESPACE@], EngineTraits::AddEvent.ident_view())),
        pub_symbol_view(m.symbols@[2], EngineGlobals::CFoo.ident_view(), crate_rooted(EngineGlobals::CFoo.middle(), EngineGlobals::CFoo.ident_view())),
        pub_symbol_view(m.symbols@[3], EngineGlobals::EFoo.ident_view(), crate_rooted(EngineGlobals::EFoo.middle(), EngineGlobals::EFoo.ident_view())),
        m.uses@.len() == cr.deps@.len(),
        forall|i: int| 0 <= i < cr.deps@.len() ==> pub_symbol_view(#[trigger] m.uses@[i], cr.deps@[i].1@, seq!["crate"@, cr.deps@[i].1@]),
{
    let mut m = dependency_namespace_mod(cr, dir, mods);
    m.symbols.push(symbol(EngineGlobals::CFoo.as_ident(), rooted(NAMESPACE, true, EngineGlobals::CFoo.as_ident())));
    m.symbols.push(symbol(EngineGlobals::EFoo.as_ident(), rooted(NAMESPACE, true, EngineGlobals::EFoo.as_ident())));
    m
}

/// Adds the component and event managers to the globals of the entry crate.
pub fn entry_namespace_items(items: &mut ItemsCrate)
    ensures
        final(items).globals@.len() == old(items).globals@.len() + 2,
        forall|j: int| 0 <= j < old(items).globals@.len() ==> final(items).globals@[j] == old(items).globals@[j],
        final(items).globals@[old(items).globals@.len() as int].path@ == (crate::ast_resolve::PathView {
            cr_idx: old(items).cr_idx,
            path: crate_rooted(EngineGlobals::CFoo.middle(), EngineGlobals::CFoo.ident_view()),
        }),
        final(items).globals@[old(items).globals@.len() as int + 1].path@ == (crate::ast_resolve::PathView {
            cr_idx: old(items).cr_idx,
            path: crate_rooted(EngineGlobals::EFoo.middle(), EngineGlobals::EFoo.ident_view()),
        }),
        final(items).globals@[old(items).globals@.len() as int].args == GlobalMacroArgs::from_spec(seq![]),
        final(items).globals@[old(items).globals@.len() as int + 1].args == GlobalMacroArgs::from_spec(seq![]),
        final(items).cr_idx == old(items).cr_idx,
        final(items).components == old(items).components,
        final(items).events == old(items).events,
        final(items).systems == old(items).systems,
        final(items).dependencies == old(items).dependencies,
        final(items).dir == old(items).dir,
        final(items).cr_name == old(items).cr_name,
{
    let none: Vec<String> = Vec::new();
    let c = Global {
        path: Path { cr_idx: items.cr_idx, path: rooted(NAMESPACE, true, EngineGlobals::CFoo.as_ident()) },
        args: GlobalMacroArgs::from(&none),
    };
    let e = Global {
        path: Path { cr_idx: items.cr_idx, path: rooted(NAMESPACE, true, EngineGlobals::EFoo.as_ident()) },
        args: GlobalMacroArgs::from(&none),
    };
    items.globals.push(c);
    items.globals.push(e);
}

} // verus!
