use vstd::prelude::*;
use vstd::string::*;
use crate::ast_mod::{Mod, ModType, Symbol};
use crate::ast_resolve::clone_strings;
use crate::text::str_eq;
use crate::util::{end, super_kw, take_strings, without_last};

verus! {

/// A `use` tree as the module logic reads it: a path segment before a
/// subtree, a name, a name with a rename, a glob, or a group of trees.
#[derive(Debug)]
pub enum UseSource {
    Path(String, Box<UseSource>),
    Name(String),
    Rename(String, String),
    Glob,
    Group(Vec<UseSource>),
}

/// The body of a module declaration: its items when written inline, the
/// module read from its own file, or a module in its own file not read yet.
#[derive(Debug)]
pub enum ModBody {
    Inline(Vec<ItemSource>),
    File(Mod),
    External,
}

/// An item of a source file as the module logic reads it: a `use` item
/// (whether it is public, and its tree), a module declaration (name, whether
/// it is public, body), another named item that enters the symbol table
/// (name, whether it is public), a struct, enum or function with what its
/// attributes and kind say (name, whether it is public, what may mark it),
/// or an item without a symbol (an `impl`, a macro call, ...).
#[derive(Debug)]
pub enum ItemSource {
    Use(bool, UseSource),
    Mod(String, bool, ModBody),
    Named(String, bool),
    Marked(String, bool, MarkSource),
    Other,
}

/// A type as written: a reference (whether it is mutable) to a type, a path
/// with the generic arguments of its last segment, a trait object with the
/// path of each bound that is a trait, a tuple of types each with its text, or
/// another type.
#[derive(Debug)]
pub enum TypeSource {
    Ref(bool, Box<TypeSource>),
    Path(Vec<String>, Vec<TypeArgSource>),
    TraitObject(Vec<Option<Vec<String>>>),
    Tuple(Vec<(String, TypeSource)>),
    Other,
}

/// A generic argument: a type with its text, or something else.
#[derive(Debug)]
pub enum TypeArgSource {
    Type(String, TypeSource),
    Other,
}

/// A function input: `self`, or a typed input with the text of its type.
#[derive(Debug)]
pub enum InputSource {
    Receiver,
    Typed(String, TypeSource),
}

/// A token of an attribute: a delimited group of tokens, an identifier, or
/// another token.
#[derive(Debug)]
pub enum TokenSource {
    Group(Vec<TokenSource>),
    Ident(String),
    Other,
}

/// An attribute as written: its path, and for a list its text and tokens.
#[derive(Debug)]
pub struct AttrSource {
    pub path: Vec<String>,
    pub list: Option<(String, Vec<TokenSource>)>,
}

/// The kind of an item that attributes may mark: a struct, an enum with its
/// variants, or a function with its inputs.
#[derive(Debug)]
pub enum MarkKind {
    Struct,
    Enum(Vec<String>),
    Fn(Vec<InputSource>),
}

/// What may mark an item: its kind and its attributes.
#[derive(Debug)]
pub struct MarkSource {
    pub kind: MarkKind,
    pub attrs: Vec<AttrSource>,
}

/// A symbol as its name, its path and whether it is public.
pub open spec fn sym_views(v: Seq<Symbol>) -> Seq<(Seq<char>, Seq<Seq<char>>, bool)> {
    v.map_values(|s: Symbol| (s.ident@, s.path.deep_view(), s.public))
}

/// The path that a `use` tree has named so far after one more segment:
/// `super` steps up (from module `mp` itself when nothing is named yet),
/// anything else is appended.
pub open spec fn use_step(path: Seq<Seq<char>>, seg: Seq<char>, mp: Seq<Seq<char>>) -> Seq<Seq<char>> {
    if seg == super_kw() {
        if path.len() == 0 { without_last(mp) } else { path.drop_last() }
    } else {
        path.push(seg)
    }
}

/// The names that use tree `t` brings into module `mp` when `path` has been
/// named before it (each as the name it goes by and the path it stands for),
/// and the path named after it: the segments of a tree stay named for the
/// trees that follow it in a group.
pub open spec fn use_walk(t: UseSource, path: Seq<Seq<char>>, mp: Seq<Seq<char>>) -> (Seq<(Seq<char>, Seq<Seq<char>>)>, Seq<Seq<char>>)
    decreases t, 0int,
{
    match t {
        UseSource::Path(id, sub) => use_walk(*sub, use_step(path, id@, mp), mp),
        UseSource::Name(id) => (seq![(id@, path.push(id@))], path),
        UseSource::Rename(id, re) => (seq![(re@, path.push(id@))], path),
        UseSource::Glob => (seq![("*"@, path)], path),
        UseSource::Group(v) => group_walk(v@, v@.len() as int, path, mp),
    }
}

/// The first `n` trees of a group, one after the other (see `use_walk`).
pub open spec fn group_walk(ts: Seq<UseSource>, n: int, path: Seq<Seq<char>>, mp: Seq<Seq<char>>) -> (Seq<(Seq<char>, Seq<Seq<char>>)>, Seq<Seq<char>>)
    decreases ts, n,
{
    if n <= 0 || n > ts.len() {
        (seq![], path)
    } else {
        let a = group_walk(ts, n - 1, path, mp);
        let b = use_walk(ts[n - 1], a.1, mp);
        (a.0 + b.0, b.1)
    }
}

/// Names and paths as symbols that are public or not.
pub open spec fn with_vis(v: Seq<(Seq<char>, Seq<Seq<char>>)>, public: bool) -> Seq<(Seq<char>, Seq<Seq<char>>, bool)> {
    v.map_values(|x: (Seq<char>, Seq<Seq<char>>)| (x.0, x.1, public))
}

/// The symbols that the items declare in module `mp`: each module and
/// named item, by its name and `mp` followed by it.
pub open spec fn item_symbols(items: Seq<ItemSource>, mp: Seq<Seq<char>>) -> Seq<(Seq<char>, Seq<Seq<char>>, bool)>
    decreases items.len(),
{
    if items.len() == 0 {
        seq![]
    } else {
        let prev = item_symbols(items.drop_last(), mp);
        match items.last() {
            ItemSource::Mod(id, public, _) => prev.push((id@, mp.push(id@), public)),
            ItemSource::Named(id, public) => prev.push((id@, mp.push(id@), public)),
            ItemSource::Marked(id, public, _) => prev.push((id@, mp.push(id@), public)),
            _ => prev,
        }
    }
}

/// The names that the `use` items among `items` bring into module `mp`,
/// public as their item is.
pub open spec fn item_uses(items: Seq<ItemSource>, mp: Seq<Seq<char>>) -> Seq<(Seq<char>, Seq<Seq<char>>, bool)>
    decreases items.len(),
{
    if items.len() == 0 {
        seq![]
    } else {
        let prev = item_uses(items.drop_last(), mp);
        match items.last() {
            ItemSource::Use(public, t) => prev + with_vis(use_walk(t, seq![], mp).0, public),
            _ => prev,
        }
    }
}

/// How many module declarations come before position `p` of `items`.
pub open spec fn mods_before(items: Seq<ItemSource>, p: int) -> int
    decreases p,
{
    if p <= 0 || p > items.len() {
        0
    } else {
        mods_before(items, p - 1) + if items[p - 1] is Mod { 1int } else { 0int }
    }
}

/// Module `c` is what declaration `item` makes inside the module with
/// directory `dir` and path `mp` (see `made_body`).
pub open spec fn made(c: Mod, item: ItemSource, dir: String, mp: Seq<Seq<char>>) -> bool
    decreases item,
{
    match item {
        ItemSource::Mod(id, _, body) => made_body(c, id, body, dir, mp),
        _ => false,
    }
}

/// Module `c` is what the declaration of module `id` with body `body` makes
/// inside the module with directory `dir` and path `mp`: the module of its
/// own file, or a new inline module at `mp` followed by `id`, holding what its
/// items give.
pub open spec fn made_body(c: Mod, id: String, body: ModBody, dir: String, mp: Seq<Seq<char>>) -> bool
    decreases body,
{
    match body {
        ModBody::File(fm) => c == fm,
        ModBody::External => {
            &&& c.ty == ModType::File
            &&& c.dir == dir
            &&& c.path.deep_view() == mp.push(id@)
            &&& c.mods@.len() == 0
            &&& c.symbols@.len() == 0
            &&& c.uses@.len() == 0
            &&& c.marked@.len() == 0
        },
        ModBody::Inline(its) => {
            &&& c.ty == ModType::Internal
            &&& c.dir == dir
            &&& c.path.deep_view() == mp.push(id@)
            &&& c.marked@.len() == 0
            &&& contents(c, its@)
        },
    }
}

/// Module `m` holds exactly what `items` give: their symbols, the names
/// their `use` items bring in, and the modules they declare, in order.
pub open spec fn contents(m: Mod, items: Seq<ItemSource>) -> bool
    decreases items,
{
    &&& sym_views(m.symbols@) == item_symbols(items, m.path.deep_view())
    &&& sym_views(m.uses@) == item_uses(items, m.path.deep_view())
    &&& m.mods@.len() == mods_before(items, items.len() as int)
    &&& forall|p: int| 0 <= p < items.len() && items[p] is Mod ==>
        made(m.mods@[mods_before(items, p)], #[trigger] items[p], m.dir, m.path.deep_view())
}

/// `new` is `old` with what `items` give added after what it held.
pub open spec fn visited_from(old: Mod, new: Mod, items: Seq<ItemSource>) -> bool {
    &&& new.ty == old.ty
    &&& new.dir == old.dir
    &&& new.path == old.path
    &&& new.marked == old.marked
    &&& sym_views(new.symbols@) == sym_views(old.symbols@) + item_symbols(items, old.path.deep_view())
    &&& sym_views(new.uses@) == sym_views(old.uses@) + item_uses(items, old.path.deep_view())
    &&& new.mods@.len() == old.mods@.len() + mods_before(items, items.len() as int)
    &&& new.mods@.take(old.mods@.len() as int) == old.mods@
    &&& forall|p: int| 0 <= p < items.len() && items[p] is Mod ==>
        made(new.mods@[old.mods@.len() + mods_before(items, p)], #[trigger] items[p], old.dir, old.path.deep_view())
}


/// `p` followed by `id`.
pub(crate) fn child_path(p: &Vec<String>, id: &String) -> (r: Vec<String>)
    ensures
        r.deep_view() == p.deep_view().push(id@),
{
    let mut r = clone_strings(p);
    let ghost r0 = r.deep_view();
    r.push(id.clone());
    proof {
        assert(r.deep_view() =~= r0.push(id@));
    }
    r
}

fn push_symbol(items: &mut Vec<Symbol>, s: Symbol)
    ensures
        sym_views(final(items)@) == sym_views(old(items)@).push((s.ident@, s.path.deep_view(), s.public)),
{
    let ghost i0 = items@;
    items.push(s);
    proof {
        assert(sym_views(items@) =~= sym_views(i0).push((s.ident@, s.path.deep_view(), s.public)));
    }
}

impl Mod {
    /// Adds the name `id` at `path` to `items`, not public.
    fn visit_use_name(&self, id: &String, path: &Vec<String>, items: Vec<Symbol>) -> (r: Vec<Symbol>)
        ensures
            sym_views(r@) == sym_views(items@) + seq![(id@, path.deep_view().push(id@), false)],
    {
        let mut items = items;
        let ghost i0 = items@;
        let s = Symbol { ident: id.clone(), path: child_path(path, id), public: false };
        push_symbol(&mut items, s);
        proof {
            assert(sym_views(items@) =~= sym_views(i0) + seq![(id@, path.deep_view().push(id@), false)]);
        }
        items
    }

    /// Adds `id` at `path` under the name `re` to `items`, not public.
    fn visit_use_rename(&self, id: &String, re: &String, path: &Vec<String>, items: Vec<Symbol>) -> (r: Vec<Symbol>)
        ensures
            sym_views(r@) == sym_views(items@) + seq![(re@, path.deep_view().push(id@), false)],
    {
        let mut items = items;
        let ghost i0 = items@;
        let s = Symbol { ident: re.clone(), path: child_path(path, id), public: false };
        push_symbol(&mut items, s);
        proof {
            assert(sym_views(items@) =~= sym_views(i0) + seq![(re@, path.deep_view().push(id@), false)]);
        }
        items
    }

    /// Adds everything at `path` (the name `*`) to `items`, not public.
    fn visit_use_glob(&self, path: &Vec<String>, items: Vec<Symbol>) -> (r: Vec<Symbol>)
        ensures
            sym_views(r@) == sym_views(items@) + seq![("*"@, path.deep_view(), false)],
    {
        let mut items = items;
        let ghost i0 = items@;
        let s = Symbol { ident: String::from_str("*"), path: clone_strings(path), public: false };
        push_symbol(&mut items, s);
        proof {
            assert(sym_views(items@) =~= sym_views(i0) + seq![("*"@, path.deep_view(), false)]);
        }
        items
    }

    /// Adds the names that use tree `i` brings in to `items` (not public),
    /// with `path` the segments named before it; `path` is left as named after
    /// it (see `use_walk`).
    pub fn visit_use_tree(&self, i: &UseSource, path: &mut Vec<String>, items: Vec<Symbol>) -> (r: Vec<Symbol>)
        ensures
            sym_views(r@) == sym_views(items@) + with_vis(use_walk(*i, old(path).deep_view(), self.path.deep_view()).0, false),
            final(path).deep_view() == use_walk(*i, old(path).deep_view(), self.path.deep_view()).1,
        decreases i,
    {
        let ghost mp = self.path.deep_view();
        let ghost w = use_walk(*i, path.deep_view(), mp);
        let mut items = items;
        match i {
            UseSource::Path(id, sub) => {
                self.visit_use_path(id, path);
                proof {
                    assert(decreases_to!(*i => **sub));
                }
                self.visit_use_tree(&**sub, path, items)
            },
            UseSource::Name(id) => {
                let r = self.visit_use_name(id, path, items);
                proof {
                    assert(with_vis(w.0, false) =~= seq![(id@, path.deep_view().push(id@), false)]);
                }
                r
            },
            UseSource::Rename(id, re) => {
                let r = self.visit_use_rename(id, re, path, items);
                proof {
                    assert(with_vis(w.0, false) =~= seq![(re@, path.deep_view().push(id@), false)]);
                }
                r
            },
            UseSource::Glob => {
                let r = self.visit_use_glob(path, items);
                proof {
                    assert(with_vis(w.0, false) =~= seq![("*"@, path.deep_view(), false)]);
                }
                r
            },
            UseSource::Group(v) => {
                let ghost p0 = path.deep_view();
                let ghost i0 = items@;
                let mut k: usize = 0;
                proof {
                    assert(sym_views(i0) + with_vis(group_walk(v@, 0, p0, mp).0, false) =~= sym_views(i0));
                }
                while k < v.len()
                    invariant
                        k <= v@.len(),
                        mp == self.path.deep_view(),
                        forall|j: int| 0 <= j < v@.len() ==> decreases_to!(*i => v@[j]),
                        sym_views(items@) == sym_views(i0) + with_vis(group_walk(v@, k as int, p0, mp).0, false),
                        path.deep_view() == group_walk(v@, k as int, p0, mp).1,
                    decreases v.len() - k,
                {
                    proof {
                        assert(decreases_to!(*i => v@[k as int]));
                    }
                    let ghost pk = path.deep_view();
                    let ghost ik = items@;
                    items = self.visit_use_tree(&v[k], path, items);
                    proof {
                        let a = group_walk(v@, k as int, p0, mp);
                        let b = use_walk(v@[k as int], a.1, mp);
                        assert(group_walk(v@, k + 1, p0, mp) == (a.0 + b.0, b.1));
                        assert(with_vis(a.0 + b.0, false) =~= with_vis(a.0, false) + with_vis(b.0, false));
                        assert(sym_views(items@) =~= sym_views(i0) + with_vis(group_walk(v@, k + 1, p0, mp).0, false));
                    }
                    k = k + 1;
                }
                items
            },
        }
    }

    /// Steps `path` by one use path segment (see `use_step`).
    pub fn visit_use_path(&self, id: &String, path: &mut Vec<String>)
        ensures
            final(path).deep_view() == use_step(old(path).deep_view(), id@, self.path.deep_view()),
    {
        proof {
            reveal_strlit("super");
            assert("super"@ =~= super_kw());
        }
        if str_eq(id.as_str(), "super") {
            if path.len() == 0 {
                let n = end(&self.path, 1);
                *path = take_strings(&self.path, n);
                proof {
                    if self.path@.len() == 0 {
                        assert(self.path.deep_view().take(0) =~= self.path.deep_view());
                    } else {
                        assert(self.path.deep_view().take(n as int) =~= self.path.deep_view().drop_last());
                    }
                }
            } else {
                let ghost p0 = path.deep_view();
                path.pop();
                proof {
                    assert(path.deep_view() =~= p0.drop_last());
                }
            }
        } else {
            let ghost p0 = path.deep_view();
            path.push(id.clone());
            proof {
                assert(path.deep_view() =~= p0.push(id@));
            }
        }
    }

    /// Adds the names that a `use` item brings in, public as the item is.
    #[verifier::loop_isolation(false)]
    pub fn visit_item_use(&mut self, public: bool, tree: &UseSource)
        ensures
            final(self).ty == old(self).ty,
            final(self).dir == old(self).dir,
            final(self).path == old(self).path,
            final(self).marked == old(self).marked,
            final(self).symbols == old(self).symbols,
            final(self).mods == old(self).mods,
            sym_views(final(self).uses@) == sym_views(old(self).uses@)
                + with_vis(use_walk(*tree, seq![], old(self).path.deep_view()).0, public),
    {
        let mut path: Vec<String> = Vec::new();
        proof {
            assert(path.deep_view() =~= Seq::<Seq<char>>::empty());
            assert(sym_views(Seq::<Symbol>::empty()) =~= Seq::<(Seq<char>, Seq<Seq<char>>, bool)>::empty());
        }
        let found = self.visit_use_tree(tree, &mut path, Vec::new());
        let ghost w = use_walk(*tree, seq![], self.path.deep_view()).0;
        let ghost u0 = self.uses@;
        let ghost s0 = *self;
        let mut k: usize = 0;
        while k < found.len()
            invariant
                k <= found@.len(),
                self.ty == s0.ty,
                self.dir == s0.dir,
                self.path == s0.path,
                self.marked == s0.marked,
                self.symbols == s0.symbols,
                self.mods == s0.mods,
                sym_views(found@) =~= with_vis(w, false),
                sym_views(self.uses@) == sym_views(u0) + with_vis(w, public).take(k as int),
            decreases found.len() - k,
        {
            let s = Symbol { ident: found[k].ident.clone(), path: clone_strings(&found[k].path), public };
            let ghost before = self.uses@;
            self.uses.push(s);
            proof {
                assert(sym_views(found@).len() == found@.len());
                assert(with_vis(w, false).len() == w.len());
                assert(with_vis(w, public).len() == w.len());
                assert(sym_views(found@)[k as int] == with_vis(w, false)[k as int]);
                assert(sym_views(self.uses@) =~= sym_views(before).push((s.ident@, s.path.deep_view(), public)));
                assert(with_vis(w, public).take(k + 1) =~= with_vis(w, public).take(k as int).push(with_vis(w, public)[k as int]));
            }
            k = k + 1;
        }
        proof {
            assert(with_vis(w, public).take(found@.len() as int) =~= with_vis(w, public));
        }
    }
}


proof fn lemma_visited_empty(m: Mod)
    ensures
        visited_from(m, m, seq![]),
{
    assert(sym_views(m.symbols@) + item_symbols(seq![], m.path.deep_view()) =~= sym_views(m.symbols@));
    assert(sym_views(m.uses@) + item_uses(seq![], m.path.deep_view()) =~= sym_views(m.uses@));
    assert(m.mods@.take(m.mods@.len() as int) =~= m.mods@);
}

proof fn lemma_mods_before_push(items: Seq<ItemSource>, it: ItemSource, p: int)
    requires
        0 <= p <= items.len(),
    ensures
        mods_before(items.push(it), p) == mods_before(items, p),
    decreases p,
{
    if p > 0 {
        lemma_mods_before_push(items, it, p - 1);
        assert(items.push(it)[p - 1] == items[p - 1]);
    }
}

/// `visited_from` over two stretches of items is `visited_from` over both.
proof fn lemma_visited_push(a: Mod, b: Mod, c: Mod, items: Seq<ItemSource>, it: ItemSource)
    requires
        visited_from(a, b, items),
        visited_from(b, c, seq![it]),
    ensures
        visited_from(a, c, items.push(it)),
{
    let all = items.push(it);
    let mp = a.path.deep_view();
    assert(all.drop_last() =~= items);
    assert(all.last() == it);
    assert(seq![it].drop_last() =~= Seq::<ItemSource>::empty());
    assert(seq![it].last() == it);
    assert(item_symbols(seq![], mp) =~= Seq::<(Seq<char>, Seq<Seq<char>>, bool)>::empty());
    assert(item_uses(seq![], mp) =~= Seq::<(Seq<char>, Seq<Seq<char>>, bool)>::empty());
    assert(sym_views(c.symbols@) =~= sym_views(a.symbols@) + item_symbols(all, mp));
    assert(sym_views(c.uses@) =~= sym_views(a.uses@) + item_uses(all, mp));
    lemma_mods_before_push(items, it, items.len() as int);
    assert(mods_before(seq![it], 0) == 0);
    assert(mods_before(seq![it], 1) == if it is Mod { 1int } else { 0int });
    let na = a.mods@.len() as int;
    let nb = b.mods@.len() as int;
    lemma_mods_before_mono(items, 0, items.len() as int);
    lemma_mods_before_mono(seq![it], 0, 1);
    assert(na <= nb <= c.mods@.len());
    assert(c.mods@.take(na) =~= c.mods@.take(nb).take(na));
    assert forall|p: int| 0 <= p < all.len() && all[p] is Mod implies
        made(c.mods@[na + mods_before(all, p)], #[trigger] all[p], a.dir, mp) by {
        if p < items.len() {
            lemma_mods_before_push(items, it, p);
            assert(all[p] == items[p]);
            assert(made(b.mods@[na + mods_before(items, p)], items[p], a.dir, mp));
            lemma_mods_before_le(items, p);
            lemma_mods_before_mono(items, 0, p);
            assert(c.mods@.take(nb)[na + mods_before(items, p)] == c.mods@[na + mods_before(items, p)]);
        } else {
            assert(p == items.len());
            assert(seq![it][0] == it);
            assert(made(c.mods@[nb + mods_before(seq![it], 0)], seq![it][0], b.dir, b.path.deep_view()));
        }
    }
}

pub(crate) proof fn lemma_mods_before_le(items: Seq<ItemSource>, p: int)
    requires
        0 <= p < items.len(),
        items[p] is Mod,
    ensures
        mods_before(items, p) < mods_before(items, items.len() as int),
    decreases items.len() - p,
{
    lemma_mods_before_mono(items, p + 1, items.len() as int);
}

pub(crate) proof fn lemma_mods_before_mono(items: Seq<ItemSource>, p: int, q: int)
    requires
        0 <= p <= q <= items.len(),
    ensures
        mods_before(items, p) <= mods_before(items, q),
    decreases q - p,
{
    if p < q {
        lemma_mods_before_mono(items, p, q - 1);
    }
}

impl Mod {
    /// Adds the symbols, imports and modules that `items` give (see
    /// `visited_from`).
    #[verifier::loop_isolation(false)]
    pub fn visit_items(&mut self, items: Vec<ItemSource>)
        ensures
            visited_from(*old(self), *final(self), items@),
        decreases items,
    {
        let ghost s0 = *self;
        let ghost all = items@;
        let ghost items_g = items;
        let n = items.len();
        let mut rest = items;
        let mut i: usize = 0;
        proof {
            lemma_visited_empty(s0);
            assert(all.take(0) =~= Seq::<ItemSource>::empty());
        }
        while i < n
            invariant
                n == all.len(),
                all == items_g@,
                i <= n,
                rest@ == all.skip(i as int),
                visited_from(s0, *self, all.take(i as int)),
            decreases n - i,
        {
            proof {
                assert(rest@[0] == all[i as int]);
            }
            let it = rest.remove(0);
            let ghost before = *self;
            proof {
                assert(it == items_g@[i as int]);
                assert(decreases_to!(items_g => items_g@[i as int]));
                assert(decreases_to!(items_g => it));
            }
            self.visit_item(it);
            proof {
                lemma_visited_push(s0, before, *self, all.take(i as int), all[i as int]);
                assert(all.take(i as int).push(all[i as int]) =~= all.take(i + 1));
                assert(rest@ =~= all.skip(i + 1));
            }
            i = i + 1;
        }
        proof {
            assert(all.take(n as int) =~= all);
        }
    }

    /// Adds what one item gives: its symbol where it has one, the names a
    /// `use` item brings in, the module a declaration makes.
    pub fn visit_item(&mut self, it: ItemSource)
        ensures
            visited_from(*old(self), *final(self), seq![it]),
        decreases it,
    {
        let ghost s0 = *self;
        let ghost itg = it;
        let ghost mp = self.path.deep_view();
        proof {
            let one = seq![itg];
            assert(one.drop_last() =~= Seq::<ItemSource>::empty());
            assert(one.last() == itg);
            assert(item_symbols(seq![], mp) =~= Seq::<(Seq<char>, Seq<Seq<char>>, bool)>::empty());
            assert(item_uses(seq![], mp) =~= Seq::<(Seq<char>, Seq<Seq<char>>, bool)>::empty());
            assert(mods_before(one, 0) == 0);
            assert(one[0] == itg);
        }
        match it {
            ItemSource::Use(public, tree) => {
                self.visit_item_use(public, &tree);
                proof {
                    assert(self.mods@.take(s0.mods@.len() as int) =~= s0.mods@);
                    assert(sym_views(self.symbols@) =~= sym_views(s0.symbols@) + item_symbols(seq![itg], mp));
                    assert(sym_views(self.uses@) =~= sym_views(s0.uses@) + item_uses(seq![itg], mp));
                }
            },
            ItemSource::Named(id, public) => {
                let sym = Symbol { ident: id.clone(), path: child_path(&self.path, &id), public };
                push_symbol(&mut self.symbols, sym);
                proof {
                    assert(self.mods@.take(s0.mods@.len() as int) =~= s0.mods@);
                    assert(sym_views(self.symbols@) =~= sym_views(s0.symbols@) + item_symbols(seq![itg], mp));
                    assert(sym_views(self.uses@) =~= sym_views(s0.uses@) + item_uses(seq![itg], mp));
                }
            },
            ItemSource::Marked(id, public, _) => {
                let sym = Symbol { ident: id.clone(), path: child_path(&self.path, &id), public };
                push_symbol(&mut self.symbols, sym);
                proof {
                    assert(self.mods@.take(s0.mods@.len() as int) =~= s0.mods@);
                    assert(sym_views(self.symbols@) =~= sym_views(s0.symbols@) + item_symbols(seq![itg], mp));
                    assert(sym_views(self.uses@) =~= sym_views(s0.uses@) + item_uses(seq![itg], mp));
                }
            },
            ItemSource::Mod(id, public, body) => {
                let sym = Symbol { ident: id.clone(), path: child_path(&self.path, &id), public };
                push_symbol(&mut self.symbols, sym);
                proof {
                    assert(decreases_to!(itg => body));
                }
                self.visit_item_mod(&id, body);
                proof {
                    assert(self.mods@.take(s0.mods@.len() as int) =~= s0.mods@);
                    assert(sym_views(self.symbols@) =~= sym_views(s0.symbols@) + item_symbols(seq![itg], mp));
                    assert(sym_views(self.uses@) =~= sym_views(s0.uses@) + item_uses(seq![itg], mp));
                    assert(made(self.mods@[s0.mods@.len() + mods_before(seq![itg], 0)], seq![itg][0], s0.dir, mp));
                }
            },
            ItemSource::Other => {
                proof {
                    assert(self.mods@.take(s0.mods@.len() as int) =~= s0.mods@);
                    assert(sym_views(self.symbols@) =~= sym_views(s0.symbols@) + item_symbols(seq![itg], mp));
                    assert(sym_views(self.uses@) =~= sym_views(s0.uses@) + item_uses(seq![itg], mp));
                }
            },
        }
    }

    /// Adds the module that the declaration of module `id` with body `body`
    /// makes (see `made_body`).
    pub fn visit_item_mod(&mut self, id: &String, body: ModBody)
        ensures
            final(self).ty == old(self).ty,
            final(self).dir == old(self).dir,
            final(self).path == old(self).path,
            final(self).marked == old(self).marked,
            final(self).symbols == old(self).symbols,
            final(self).uses == old(self).uses,
            final(self).mods@.len() == old(self).mods@.len() + 1,
            final(self).mods@.take(old(self).mods@.len() as int) == old(self).mods@,
            made_body(final(self).mods@.last(), *id, body, old(self).dir, old(self).path.deep_view()),
        decreases body,
    {
        let ghost bg = body;
        let ghost m0 = self.mods@;
        match body {
            ModBody::Inline(its) => {
                let mut new_mod = Mod::new(self.dir.clone(), child_path(&self.path, id), ModType::Internal);
                let ghost empty = new_mod;
                proof {
                    assert(decreases_to!(bg => its));
                }
                let ghost itsv = its@;
                new_mod.visit_items(its);
                proof {
                    assert(sym_views(empty.symbols@) =~= Seq::<(Seq<char>, Seq<Seq<char>>, bool)>::empty());
                    assert(sym_views(empty.uses@) =~= Seq::<(Seq<char>, Seq<Seq<char>>, bool)>::empty());
                    assert(sym_views(new_mod.symbols@) =~= item_symbols(itsv, new_mod.path.deep_view()));
                    assert(sym_views(new_mod.uses@) =~= item_uses(itsv, new_mod.path.deep_view()));
                    assert(contents(new_mod, itsv));
                }
                self.mods.push(new_mod);
            },
            ModBody::File(fm) => {
                self.mods.push(fm);
            },
            ModBody::External => {
                self.mods.push(Mod::new(self.dir.clone(), child_path(&self.path, id), ModType::File));
            },
        }
        proof {
            assert(self.mods@.take(m0.len() as int) =~= m0);
        }
    }

    /// Adds what the items of a source file give (see `visited_from`).
    pub fn visit_file(&mut self, items: Vec<ItemSource>)
        ensures
            visited_from(*old(self), *final(self), items@),
    {
        self.visit_items(items)
    }
}

} // verus!
