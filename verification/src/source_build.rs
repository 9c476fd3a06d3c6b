use vstd::prelude::*;
use crate::ast_attrs::{cfg_value, cfgs_read, ecs_views, get_attributes_if_active, is_cfg, raw_active, raw_args, raw_ecs, CfgExpr, RawAttr};
use crate::ast_fn_arg::{FnArg, FnArgType};
use crate::ast_resolve::{clone_strings, Path, PathView};
use crate::ast_mod::{MarkType, MarkedItem, Mod, Symbol};
use crate::mod_visit::{
    child_path, contents, lemma_mods_before_le, made, mods_before, sym_views, visited_from, AttrSource, InputSource, ItemSource, MarkKind,
    MarkSource, ModBody, TokenSource, TypeArgSource, TypeSource,
};
use crate::source_read::{cfg_of, parse_cfg_text, parse_source, source_items};
use crate::ast_file::ModSource;
use crate::text::join;
use crate::util::{parse_vec_path, vec_path};

verus! {

/// The path of the first bound among `bs` that is a trait.
pub open spec fn first_trait(bs: Seq<Option<Vec<String>>>) -> Option<Seq<Seq<char>>>
    decreases bs.len(),
{
    if bs.len() == 0 {
        None
    } else {
        match bs[0] {
            Some(v) => Some(v.deep_view()),
            None => first_trait(bs.skip(1)),
        }
    }
}

/// `a` is the system argument that the type `t`, with text `text`, written in
/// the module at `mp` of crate `cr`, reads as (see `refs_built`).
pub open spec fn arg_built(t: TypeSource, text: Seq<char>, mp: Seq<Seq<char>>, cr: usize, a: FnArg) -> bool
    decreases t, 1int,
{
    &&& a.text@ == text
    &&& refs_built(t, 0, false, mp, cr, a.ty, a.ref_cnt, a.mutable)
}

/// `ty`, `rc` and `mu` are the type, the reference count and whether the
/// innermost reference is mutable that `t` reads as after `n` references, the last of them mutable
/// where `m`: each reference adds one to the count (up to `usize::MAX`) and
/// sets whether it is mutable; under them a trait object names its first
/// trait, a path names its target, with the first generic argument of its
/// last segment giving the arguments of a container (a tuple) or of a
/// one-type container, and any other type names the empty path.
pub open spec fn refs_built(t: TypeSource, n: usize, m: bool, mp: Seq<Seq<char>>, cr: usize, ty: FnArgType, rc: usize, mu: bool) -> bool
    decreases t, 0int,
{
    match t {
        TypeSource::Ref(mm, b) => refs_built(*b, if n < usize::MAX { (n + 1) as usize } else { n }, mm, mp, cr, ty, rc, mu),
        TypeSource::TraitObject(bs) => {
            &&& rc == n
            &&& mu == m
            &&& match first_trait(bs@) {
                Some(segs) => ty matches FnArgType::Trait(p) && p@ == (PathView { cr_idx: cr, path: vec_path(mp, segs) }),
                None => ty matches FnArgType::Path(p) && p@ == (PathView { cr_idx: cr, path: seq![] }),
            }
        },
        TypeSource::Path(segs, args) => {
            let target = PathView { cr_idx: cr, path: vec_path(mp, segs.deep_view()) };
            &&& rc == n
            &&& mu == m
            &&& if args@.len() > 0 {
                match args@[0] {
                    TypeArgSource::Type(txt, inner) => match inner {
                        TypeSource::Tuple(elems) => ty matches FnArgType::Container(p, v) && p@ == target
                            && v@.len() == elems@.len()
                            && forall|i: int| 0 <= i < elems@.len() ==> arg_built(#[trigger] elems@[i].1, elems@[i].0@, mp, cr, v@[i]),
                        _ => ty matches FnArgType::SContainer(p, bx) && p@ == target && arg_built(inner, txt@, mp, cr, *bx),
                    },
                    TypeArgSource::Other => ty matches FnArgType::Path(p) && p@ == target,
                }
            } else {
                ty matches FnArgType::Path(p) && p@ == target
            }
        },
        _ => {
            &&& rc == n
            &&& mu == m
            &&& ty matches FnArgType::Path(p) && p@ == (PathView { cr_idx: cr, path: seq![] })
        },
    }
}

fn first_trait_exec(bs: &Vec<Option<Vec<String>>>) -> (r: Option<Vec<String>>)
    ensures
        match r {
            Some(v) => first_trait(bs@) == Some(v.deep_view()),
            None => first_trait(bs@) is None,
        },
{
    let mut i: usize = 0;
    proof {
        assert(bs@.skip(0) =~= bs@);
    }
    while i < bs.len()
        invariant
            i <= bs@.len(),
            first_trait(bs@) == first_trait(bs@.skip(i as int)),
        decreases bs.len() - i,
    {
        proof {
            assert(bs@.skip(i as int)[0] == bs@[i as int]);
            assert(bs@.skip(i as int).skip(1) =~= bs@.skip(i + 1));
        }
        match &bs[i] {
            Some(v) => {
                return Some(clone_strings(v));
            },
            None => {},
        }
        i = i + 1;
    }
    proof {
        assert(bs@.skip(i as int).len() == 0);
    }
    None
}

fn empty_path(cr: usize) -> (p: Path)
    ensures
        p@ == (PathView { cr_idx: cr, path: seq![] }),
{
    let p = Path { cr_idx: cr, path: Vec::new() };
    proof {
        assert(p@.path =~= Seq::<Seq<char>>::empty());
    }
    p
}

/// The system argument that the type `t`, with text `text`, written in the
/// module at `mp` of crate `cr`, reads as (see `arg_built`).
pub fn arg_of(t: &TypeSource, text: &String, mp: &Vec<String>, cr: usize) -> (a: FnArg)
    ensures
        arg_built(*t, text@, mp.deep_view(), cr, a),
    decreases t, 1int,
{
    let (ty, ref_cnt, mutable) = refs_of(t, 0, false, mp, cr);
    FnArg { ty, ref_cnt, mutable, text: text.clone() }
}

/// What `t` reads as after `n` references, the last of them mutable where
/// `m`: its type, its reference count and whether the innermost reference is
/// mutable (see `refs_built`).
fn refs_of(t: &TypeSource, n: usize, m: bool, mp: &Vec<String>, cr: usize) -> (r: (FnArgType, usize, bool))
    ensures
        refs_built(*t, n, m, mp.deep_view(), cr, r.0, r.1, r.2),
    decreases t, 0int,
{
    let ghost tv = *t;
    match t {
        TypeSource::Ref(mm, b) => {
            proof {
                assert(decreases_to!(tv => **b));
            }
            refs_of(b, n.saturating_add(1), *mm, mp, cr)
        },
        TypeSource::TraitObject(bs) => {
            let ty = match first_trait_exec(bs) {
                Some(segs) => FnArgType::Trait(Path { cr_idx: cr, path: parse_vec_path(mp, &segs) }),
                None => FnArgType::Path(empty_path(cr)),
            };
            (ty, n, m)
        },
        TypeSource::Path(segs, args) => {
            let target = Path { cr_idx: cr, path: parse_vec_path(mp, segs) };
            let ty = if args.len() > 0 {
                match &args[0] {
                    TypeArgSource::Type(txt, inner) => {
                        proof {
                            assert(decreases_to!(tv => *args));
                            assert(decreases_to!(*args => args@));
                            assert(decreases_to!(args@ => args@[0]));
                            assert(decreases_to!(args@[0] => *inner));
                        }
                        match inner {
                            TypeSource::Tuple(elems) => {
                                proof {
                                    assert(decreases_to!(*inner => *elems));
                                    assert(decreases_to!(tv => *elems));
                                }
                                let mut v: Vec<FnArg> = Vec::new();
                                let mut i: usize = 0;
                                while i < elems.len()
                                    invariant
                                        i <= elems@.len(),
                                        tv == *t,
                                        decreases_to!(tv => *elems),
                                        v@.len() == i,
                                        forall|j: int| 0 <= j < i ==> arg_built(#[trigger] elems@[j].1, elems@[j].0@, mp.deep_view(), cr, v@[j]),
                                    decreases elems.len() - i,
                                {
                                    proof {
                                        assert(decreases_to!(*elems => elems@));
                                        assert(decreases_to!(elems@ => elems@[i as int]));
                                        assert(decreases_to!(elems@[i as int] => elems@[i as int].1));
                                    }
                                    let e = arg_of(&elems[i].1, &elems[i].0, mp, cr);
                                    v.push(e);
                                    i = i + 1;
                                }
                                FnArgType::Container(target, v)
                            },
                            _ => FnArgType::SContainer(target, Box::new(arg_of(inner, txt, mp, cr))),
                        }
                    },
                    TypeArgSource::Other => FnArgType::Path(target),
                }
            } else {
                FnArgType::Path(target)
            };
            (ty, n, m)
        },
        _ => (FnArgType::Path(empty_path(cr)), n, m),
    }
}

/// The identifiers among `toks`, in order.
pub open spec fn idents_of(toks: Seq<TokenSource>) -> Seq<Seq<char>>
    decreases toks.len(),
{
    if toks.len() == 0 {
        seq![]
    } else {
        let prev = idents_of(toks.drop_last());
        match toks.last() {
            TokenSource::Ident(i) => prev.push(i@),
            _ => prev,
        }
    }
}

/// For each group among `toks`, in order, the identifiers directly in it.
pub open spec fn groups_of(toks: Seq<TokenSource>) -> Seq<Seq<Seq<char>>>
    decreases toks.len(),
{
    if toks.len() == 0 {
        seq![]
    } else {
        let prev = groups_of(toks.drop_last());
        match toks.last() {
            TokenSource::Group(inner) => prev.push(idents_of(inner@)),
            _ => prev,
        }
    }
}

/// The groups of an attribute's list; none without a list.
pub open spec fn attr_groups(a: AttrSource) -> Seq<Seq<Seq<char>>> {
    match a.list {
        Some(l) => groups_of(l.1@),
        None => seq![],
    }
}

/// The `cfg` predicate that an attribute's list reads as; none without a list.
pub open spec fn attr_cfg(a: AttrSource) -> Option<CfgExpr> {
    match a.list {
        Some(l) => cfg_of(l.0@),
        None => None,
    }
}

/// `r` is the attribute `a` as the attribute logic reads it: its path,
/// whether it has a list, the identifiers of each group of the list, and the
/// `cfg` predicate its list reads as.
pub open spec fn attr_built(a: AttrSource, r: RawAttr) -> bool {
    &&& r.path.deep_view() == a.path.deep_view()
    &&& r.is_list == (a.list is Some)
    &&& r.groups.deep_view() == attr_groups(a)
    &&& r.cfg == attr_cfg(a)
}

fn idents_exec(toks: &Vec<TokenSource>) -> (r: Vec<String>)
    ensures
        r.deep_view() == idents_of(toks@),
{
    let mut r: Vec<String> = Vec::new();
    let mut i: usize = 0;
    while i < toks.len()
        invariant
            i <= toks@.len(),
            r.deep_view() == idents_of(toks@.take(i as int)),
        decreases toks.len() - i,
    {
        proof {
            assert(toks@.take(i + 1).drop_last() =~= toks@.take(i as int));
            assert(toks@.take(i + 1).last() == toks@[i as int]);
        }
        match &toks[i] {
            TokenSource::Ident(id) => {
                let ghost r0 = r.deep_view();
                r.push(id.clone());
                proof {
                    assert(r.deep_view() =~= r0.push(id@));
                }
            },
            _ => {},
        }
        i = i + 1;
    }
    proof {
        assert(toks@.take(toks@.len() as int) =~= toks@);
    }
    r
}

fn groups_exec(toks: &Vec<TokenSource>) -> (r: Vec<Vec<String>>)
    ensures
        r.deep_view() == groups_of(toks@),
{
    let mut r: Vec<Vec<String>> = Vec::new();
    let mut i: usize = 0;
    while i < toks.len()
        invariant
            i <= toks@.len(),
            r.deep_view() == groups_of(toks@.take(i as int)),
        decreases toks.len() - i,
    {
        proof {
            assert(toks@.take(i + 1).drop_last() =~= toks@.take(i as int));
            assert(toks@.take(i + 1).last() == toks@[i as int]);
        }
        match &toks[i] {
            TokenSource::Group(inner) => {
                let ghost r0 = r.deep_view();
                let g = idents_exec(inner);
                r.push(g);
                proof {
                    assert(r.deep_view() =~= r0.push(idents_of(inner@)));
                }
            },
            _ => {},
        }
        i = i + 1;
    }
    proof {
        assert(toks@.take(toks@.len() as int) =~= toks@);
    }
    r
}

/// The attribute `a` as the attribute logic reads it (see `attr_built`); the
/// text of a list is read as a `cfg` predicate with `parse_cfg`.
pub fn raw_attr(a: &AttrSource) -> (r: RawAttr)
    ensures
        attr_built(*a, r),
{
    match &a.list {
        Some((text, toks)) => RawAttr {
            path: clone_strings(&a.path),
            is_list: true,
            groups: groups_exec(toks),
            cfg: parse_cfg_text(text.as_str()),
        },
        None => {
            let r = RawAttr { path: clone_strings(&a.path), is_list: false, groups: Vec::new(), cfg: None };
            proof {
                assert(r.groups.deep_view() =~= Seq::<Seq<Seq<char>>>::empty());
            }
            r
        },
    }
}

/// Whether attribute `a`, written in the module at `mp`, is `cfg`.
pub open spec fn src_is_cfg(a: AttrSource, mp: Seq<Seq<char>>) -> bool {
    join(vec_path(mp, a.path.deep_view()), "::"@) == "cfg"@
}

/// Every `cfg` attribute with a list among `attrs` reads as a predicate.
pub open spec fn src_cfgs_read(attrs: Seq<AttrSource>, mp: Seq<Seq<char>>) -> bool {
    forall|i: int| 0 <= i < attrs.len() && src_is_cfg(#[trigger] attrs[i], mp) && attrs[i].list is Some ==> attr_cfg(attrs[i]) is Some
}

/// Whether `attrs` leave their item active for `features`: the last `cfg`
/// decides, and leaves the item out only when it is known to fail.
pub open spec fn src_active(attrs: Seq<AttrSource>, mp: Seq<Seq<char>>, features: Seq<Seq<char>>) -> bool
    decreases attrs.len(),
{
    if attrs.len() == 0 {
        true
    } else if src_is_cfg(attrs.last(), mp) {
        attrs.last().list is Some ==> cfg_value(attr_cfg(attrs.last())->0, features) != Some(false)
    } else {
        src_active(attrs.drop_last(), mp, features)
    }
}

/// The arguments of an engine attribute: the identifiers of the last group
/// of its list.
pub open spec fn src_args(a: AttrSource) -> Seq<Seq<char>> {
    if a.list is Some && attr_groups(a).len() > 0 { attr_groups(a).last() } else { seq![] }
}

/// The engine attributes among `attrs`: their full paths and arguments.
pub open spec fn src_ecs(attrs: Seq<AttrSource>, mp: Seq<Seq<char>>) -> Seq<(Seq<Seq<char>>, Seq<Seq<char>>)>
    decreases attrs.len(),
{
    if attrs.len() == 0 {
        seq![]
    } else if src_is_cfg(attrs.last(), mp) {
        src_ecs(attrs.drop_last(), mp)
    } else {
        src_ecs(attrs.drop_last(), mp).push((vec_path(mp, attrs.last().path.deep_view()), src_args(attrs.last())))
    }
}

proof fn lemma_raws_read(attrs: Seq<AttrSource>, raws: Seq<RawAttr>, mp: Seq<Seq<char>>, features: Seq<Seq<char>>)
    requires
        raws.len() == attrs.len(),
        forall|i: int| 0 <= i < attrs.len() ==> attr_built(#[trigger] attrs[i], raws[i]),
    ensures
        cfgs_read(raws, mp) == src_cfgs_read(attrs, mp),
        raw_active(raws, mp, features) == src_active(attrs, mp, features),
        raw_ecs(raws, mp) == src_ecs(attrs, mp),
    decreases attrs.len(),
{
    assert forall|i: int| 0 <= i < attrs.len() implies is_cfg(#[trigger] raws[i], mp) == src_is_cfg(attrs[i], mp)
        && raws[i].is_list == (attrs[i].list is Some) && raws[i].cfg == attr_cfg(attrs[i]) by {
        assert(attr_built(attrs[i], raws[i]));
    }
    if attrs.len() > 0 {
        let n = attrs.len() - 1;
        lemma_raws_read(attrs.drop_last(), raws.drop_last(), mp, features);
        assert(attr_built(attrs[n], raws[n]));
        assert(raws.last() == raws[n]);
        assert(raw_args(raws[n]) == src_args(attrs[n])) by {
            if raws[n].is_list && raws[n].groups@.len() > 0 {
                assert(raws[n].groups.deep_view().len() == raws[n].groups@.len());
                assert(raws[n].groups.deep_view()[raws[n].groups@.len() - 1] == raws[n].groups@.last().deep_view());
            }
        }
        assert(cfgs_read(raws, mp) == src_cfgs_read(attrs, mp)) by {
            if cfgs_read(raws, mp) {
                assert forall|i: int| 0 <= i < attrs.len() && src_is_cfg(#[trigger] attrs[i], mp) && attrs[i].list is Some implies attr_cfg(attrs[i]) is Some by {
                    assert(is_cfg(raws[i], mp));
                }
            }
            if src_cfgs_read(attrs, mp) {
                assert forall|i: int| 0 <= i < raws.len() && is_cfg(#[trigger] raws[i], mp) && raws[i].is_list implies raws[i].cfg is Some by {
                    assert(src_is_cfg(attrs[i], mp));
                }
            }
        }
    }
}

/// The typed inputs among `ins`, each as the text and the form of its type.
pub open spec fn typed_inputs(ins: Seq<InputSource>) -> Seq<(Seq<char>, TypeSource)>
    decreases ins.len(),
{
    if ins.len() == 0 {
        seq![]
    } else {
        let prev = typed_inputs(ins.drop_last());
        match ins.last() {
            InputSource::Typed(txt, t) => prev.push((txt@, t)),
            InputSource::Receiver => prev,
        }
    }
}

/// `ty` is the kind `k` in the module at `mp` of crate `cr`: a struct, an
/// enum with the same variants, or a function whose arguments are what its
/// typed inputs read as.
pub open spec fn kind_built(k: MarkKind, mp: Seq<Seq<char>>, cr: usize, ty: MarkType) -> bool {
    match k {
        MarkKind::Struct => ty is Struct,
        MarkKind::Enum(vs) => ty matches MarkType::Enum { variants } && variants.deep_view() == vs.deep_view(),
        MarkKind::Fn(ins) => ty matches MarkType::Fn { args } && args@.len() == typed_inputs(ins@).len()
            && forall|i: int| 0 <= i < args@.len() ==> arg_built(typed_inputs(ins@)[i].1, typed_inputs(ins@)[i].0, mp, cr, #[trigger] args@[i]),
    }
}

/// Whether attributes mark item `it` in the module at `mp`: it is a struct,
/// enum or function with attributes that leave it active.
pub open spec fn item_marks(it: ItemSource, mp: Seq<Seq<char>>, features: Seq<Seq<char>>) -> bool {
    it matches ItemSource::Marked(_, _, ms) && ms.attrs@.len() > 0 && src_active(ms.attrs@, mp, features)
}

/// How many of the first `p` items attributes mark.
pub open spec fn marks_before(items: Seq<ItemSource>, mp: Seq<Seq<char>>, features: Seq<Seq<char>>, p: int) -> int
    decreases p,
{
    if p <= 0 || p > items.len() {
        0
    } else {
        marks_before(items, mp, features, p - 1) + if item_marks(items[p - 1], mp, features) { 1int } else { 0int }
    }
}

/// `mi` is what the attributes of item `id` (public or not) with `ms` make in
/// the module at `mp` of crate `cr`: its symbol, its engine attributes and its
/// kind.
pub open spec fn mark_of(mi: MarkedItem, id: String, public: bool, ms: MarkSource, mp: Seq<Seq<char>>, cr: usize) -> bool {
    &&& mi.sym.ident@ == id@
    &&& mi.sym.path.deep_view() == mp.push(id@)
    &&& mi.sym.public == public
    &&& ecs_views(mi.attrs@) == src_ecs(ms.attrs@, mp)
    &&& kind_built(ms.kind, mp, cr, mi.ty)
}

/// Whether every `cfg` attribute with a list on the structs, enums and
/// functions of `items` in the module at `mp`, and of its inline modules,
/// reads as a predicate.
pub open spec fn marks_ok(items: Seq<ItemSource>, mp: Seq<Seq<char>>) -> bool
    decreases items,
{
    forall|p: int| 0 <= p < items.len() ==> match #[trigger] items[p] {
        ItemSource::Marked(_, _, ms) => src_cfgs_read(ms.attrs@, mp),
        ItemSource::Mod(id, _, ModBody::Inline(its)) => marks_ok(its@, mp.push(id@)),
        _ => true,
    }
}

/// `new` is the module `old`, made from `items`, with the items that
/// attributes mark added to its marked items, in order, and likewise for its
/// inline modules; the rest is unchanged.
pub open spec fn marked_tree(old: Mod, new: Mod, items: Seq<ItemSource>, features: Seq<Seq<char>>, cr: usize) -> bool
    decreases items,
{
    let mp = old.path.deep_view();
    &&& new.ty == old.ty
    &&& new.dir == old.dir
    &&& new.path == old.path
    &&& new.symbols == old.symbols
    &&& new.uses == old.uses
    &&& new.marked@.len() == old.marked@.len() + marks_before(items, mp, features, items.len() as int)
    &&& new.marked@.take(old.marked@.len() as int) == old.marked@
    &&& forall|p: int| 0 <= p < items.len() && item_marks(#[trigger] items[p], mp, features) ==> (match items[p] {
        ItemSource::Marked(id, public, ms) => mark_of(new.marked@[old.marked@.len() + marks_before(items, mp, features, p)], id, public, ms, mp, cr),
        _ => true,
    })
    &&& new.mods@.len() == old.mods@.len()
    &&& forall|p: int| 0 <= p < items.len() && (#[trigger] items[p]) is Mod ==> (match items[p] {
        ItemSource::Mod(_, _, ModBody::Inline(its)) =>
            marked_tree(old.mods@[mods_before(items, p)], new.mods@[mods_before(items, p)], its@, features, cr),
        _ => new.mods@[mods_before(items, p)] == old.mods@[mods_before(items, p)],
    })
}

fn kind_of(k: &MarkKind, mp: &Vec<String>, cr: usize) -> (ty: MarkType)
    ensures
        kind_built(*k, mp.deep_view(), cr, ty),
{
    match k {
        MarkKind::Struct => MarkType::Struct,
        MarkKind::Enum(vs) => MarkType::Enum { variants: clone_strings(vs) },
        MarkKind::Fn(ins) => {
            let mut args: Vec<FnArg> = Vec::new();
            let mut i: usize = 0;
            while i < ins.len()
                invariant
                    i <= ins@.len(),
                    args@.len() == typed_inputs(ins@.take(i as int)).len(),
                    forall|j: int| 0 <= j < args@.len() ==> arg_built(typed_inputs(ins@.take(i as int))[j].1,
                        typed_inputs(ins@.take(i as int))[j].0, mp.deep_view(), cr, #[trigger] args@[j]),
                decreases ins.len() - i,
            {
                proof {
                    assert(ins@.take(i + 1).drop_last() =~= ins@.take(i as int));
                    assert(ins@.take(i + 1).last() == ins@[i as int]);
                }
                match &ins[i] {
                    InputSource::Typed(txt, t) => {
                        let a = arg_of(t, txt, mp, cr);
                        args.push(a);
                    },
                    InputSource::Receiver => {},
                }
                i = i + 1;
            }
            proof {
                assert(ins@.take(ins@.len() as int) =~= ins@);
            }
            MarkType::Fn { args }
        },
    }
}

/// Whether the attribute `r`, written in the module at `mp`, is a `cfg` with
/// a list that reads as no predicate.
fn cfg_unread(r: &RawAttr, mp: &Vec<String>) -> (b: bool)
    ensures
        b == (is_cfg(*r, mp.deep_view()) && r.is_list && r.cfg is None),
{
    let full = parse_vec_path(mp, &r.path);
    let j = crate::text::join_strings(&full, "::");
    r.is_list && r.cfg.is_none() && crate::text::str_eq(j.as_str(), "cfg")
}

/// The marked item that the attributes of item `id` with `ms` make in the
/// module at `mp` of crate `cr`, where they leave it active; none where they
/// leave it out; an error where a `cfg` attribute cannot be read.
fn mark_item(id: &String, public: bool, ms: &MarkSource, mp: &Vec<String>, features: &Vec<String>, cr: usize)
    -> (r: Result<Option<MarkedItem>, ()>)
    ensures
        r is Ok <==> src_cfgs_read(ms.attrs@, mp.deep_view()),
        r matches Ok(o) ==> (o is Some <==> src_active(ms.attrs@, mp.deep_view(), features.deep_view()))
            && (o matches Some(mi) ==> mark_of(mi, *id, public, *ms, mp.deep_view(), cr)),
{
    let mut raws: Vec<RawAttr> = Vec::new();
    let mut i: usize = 0;
    while i < ms.attrs.len()
        invariant
            i <= ms.attrs@.len(),
            raws@.len() == i,
            forall|j: int| 0 <= j < i ==> attr_built(#[trigger] ms.attrs@[j], raws@[j]),
        decreases ms.attrs.len() - i,
    {
        raws.push(raw_attr(&ms.attrs[i]));
        i = i + 1;
    }
    proof {
        lemma_raws_read(ms.attrs@, raws@, mp.deep_view(), features.deep_view());
    }
    let mut k: usize = 0;
    while k < raws.len()
        invariant
            k <= raws@.len(),
            cfgs_read(raws@, mp.deep_view()) == src_cfgs_read(ms.attrs@, mp.deep_view()),
            forall|j: int| 0 <= j < k && is_cfg(#[trigger] raws@[j], mp.deep_view()) && raws@[j].is_list ==> raws@[j].cfg is Some,
        decreases raws.len() - k,
    {
        if cfg_unread(&raws[k], mp) {
            proof {
                assert(is_cfg(raws@[k as int], mp.deep_view()));
            }
            return Err(());
        }
        k = k + 1;
    }
    let ghost rv = raws@;
    match get_attributes_if_active(raws, mp, features) {
        Some(found) => {
            let ty = kind_of(&ms.kind, mp, cr);
            let sym = Symbol { ident: id.clone(), path: child_path(mp, id), public };
            Ok(Some(MarkedItem { ty, sym, attrs: found }))
        },
        None => Ok(None),
    }
}

/// Adds to module `m`, made from `items`, the items that attributes mark
/// (see `get_attributes_if_active`, with `features` enabled), and likewise to
/// its inline modules (see `marked_tree`); none where a `cfg` attribute cannot
/// be read (see `marks_ok`).
pub fn mark_mod(m: Mod, items: &Vec<ItemSource>, features: &Vec<String>, cr: usize) -> (r: Option<Mod>)
    requires
        contents(m, items@),
    ensures
        r is Some <==> marks_ok(items@, m.path.deep_view()),
        r matches Some(n) ==> marked_tree(m, n, items@, features.deep_view(), cr),
    decreases items@,
{
    let ghost m0 = m;
    let ghost mp = m.path.deep_view();
    let ghost fv = features.deep_view();
    let Mod { ty, dir, path, mods, symbols, uses, marked } = m;
    let mut rest = mods;
    let mut new_mods: Vec<Mod> = Vec::new();
    let mut new_marked = marked;
    let mut i: usize = 0;
    proof {
        assert(m0.mods@.skip(0) =~= m0.mods@);
        assert(new_marked@.take(m0.marked@.len() as int) =~= m0.marked@);
    }
    while i < items.len()
        invariant
            i <= items@.len(),
            m0 == m,
            contents(m0, items@),
            path == m0.path,
            dir == m0.dir,
            mp == m0.path.deep_view(),
            fv == features.deep_view(),
            rest@ == m0.mods@.skip(mods_before(items@, i as int)),
            new_mods@.len() == mods_before(items@, i as int),
            forall|p: int| 0 <= p < i && (#[trigger] items@[p]) is Mod ==> (match items@[p] {
                ItemSource::Mod(_, _, ModBody::Inline(its)) =>
                    marked_tree(m0.mods@[mods_before(items@, p)], new_mods@[mods_before(items@, p)], its@, fv, cr),
                _ => new_mods@[mods_before(items@, p)] == m0.mods@[mods_before(items@, p)],
            }),
            new_marked@.len() == m0.marked@.len() + marks_before(items@, mp, fv, i as int),
            new_marked@.take(m0.marked@.len() as int) == m0.marked@,
            forall|p: int| 0 <= p < i && item_marks(#[trigger] items@[p], mp, fv) ==> (match items@[p] {
                ItemSource::Marked(id, public, ms) => mark_of(new_marked@[m0.marked@.len() + marks_before(items@, mp, fv, p)], id, public, ms, mp, cr),
                _ => true,
            }),
            forall|p: int| 0 <= p < i ==> match #[trigger] items@[p] {
                ItemSource::Marked(_, _, ms) => src_cfgs_read(ms.attrs@, mp),
                ItemSource::Mod(id, _, ModBody::Inline(its)) => marks_ok(its@, mp.push(id@)),
                _ => true,
            },
        decreases items.len() - i,
    {
        let ghost itg = items@[i as int];
        let ghost mb = mods_before(items@, i as int);
        let ghost kb = marks_before(items@, mp, fv, i as int);
        let ghost nm0 = new_marked@;
        let ghost nd0 = new_mods@;
        proof {
            crate::mod_visit::lemma_mods_before_mono(items@, 0, i as int);
            lemma_marks_before_mono(items@, mp, fv, 0, i as int);
        }
        match &items[i] {
            ItemSource::Mod(id, _, body) => {
                proof {
                    lemma_mods_before_le(items@, i as int);
                    crate::mod_visit::lemma_mods_before_mono(items@, i as int, items@.len() as int);
                    assert(rest@[0] == m0.mods@[mb]);
                    assert(made(m0.mods@[mb], items@[i as int], m0.dir, mp));
                }
                let child = rest.remove(0);
                let c2 = match body {
                    ModBody::Inline(its) => {
                        proof {
                            assert(decreases_to!(items@ => itg));
                            assert(decreases_to!(itg => *body));
                            assert(decreases_to!(*body => *its));
                            assert(decreases_to!(*its => its@));
                        }
                        match mark_mod(child, its, features, cr) {
                            Some(c) => c,
                            None => {
                                proof {
                                    assert(!marks_ok(items@, mp));
                                }
                                return None;
                            },
                        }
                    },
                    _ => child,
                };
                let ghost c2g = c2;
                new_mods.push(c2);
                proof {
                    assert(new_mods@ == nd0.push(c2g));
                    assert(rest@ =~= m0.mods@.skip(mb + 1));
                    assert(mods_before(items@, i + 1) == mb + 1);
                    assert(marks_before(items@, mp, fv, i + 1) == kb);
                    assert forall|p: int| 0 <= p < i + 1 && (#[trigger] items@[p]) is Mod implies (match items@[p] {
                        ItemSource::Mod(_, _, ModBody::Inline(its)) =>
                            marked_tree(m0.mods@[mods_before(items@, p)], new_mods@[mods_before(items@, p)], its@, fv, cr),
                        _ => new_mods@[mods_before(items@, p)] == m0.mods@[mods_before(items@, p)],
                    }) by {
                        if p < i {
                            crate::mod_visit::lemma_mods_before_mono(items@, p + 1, i as int);
                            lemma_mods_before_le(items@, p);
                            assert(mods_before(items@, p + 1) == mods_before(items@, p) + 1);
                            assert(mods_before(items@, p) < nd0.len());
                            crate::mod_visit::lemma_mods_before_mono(items@, 0, p);
                            assert(new_mods@[mods_before(items@, p)] == nd0[mods_before(items@, p)]);
                        }
                    }
                }
            },
            ItemSource::Marked(id, public, ms) => {
                if ms.attrs.len() > 0 {
                    match mark_item(id, *public, ms, &path, features, cr) {
                        Err(_) => {
                            proof {
                                assert(!marks_ok(items@, mp));
                            }
                            return None;
                        },
                        Ok(Some(mi)) => {
                            new_marked.push(mi);
                            proof {
                                assert(new_marked@.take(m0.marked@.len() as int) =~= nm0.take(m0.marked@.len() as int));
                            }
                        },
                        Ok(None) => {},
                    }
                }
                proof {
                    assert(mods_before(items@, i + 1) == mb);
                    assert(new_marked@.take(m0.marked@.len() as int) =~= m0.marked@);
                    assert forall|p: int| 0 <= p < i + 1 && item_marks(#[trigger] items@[p], mp, fv) implies (match items@[p] {
                        ItemSource::Marked(id, public, ms) => mark_of(new_marked@[m0.marked@.len() + marks_before(items@, mp, fv, p)], id, public, ms, mp, cr),
                        _ => true,
                    }) by {
                        if p < i {
                            lemma_marks_before_mono(items@, mp, fv, p + 1, i as int);
                            lemma_marks_before_mono(items@, mp, fv, 0, p);
                            assert(new_marked@[m0.marked@.len() + marks_before(items@, mp, fv, p)] == nm0[m0.marked@.len() + marks_before(items@, mp, fv, p)]);
                        }
                    }
                }
            },
            _ => {
                proof {
                    assert(mods_before(items@, i + 1) == mb);
                    assert(marks_before(items@, mp, fv, i + 1) == kb);
                }
            },
        }
        i = i + 1;
    }
    let r = Mod { ty, dir, path, mods: new_mods, symbols, uses, marked: new_marked };
    proof {
        assert(marks_ok(items@, mp));
        assert(new_mods@.len() == m0.mods@.len());
    }
    Some(r)
}

proof fn lemma_marks_before_mono(items: Seq<ItemSource>, mp: Seq<Seq<char>>, features: Seq<Seq<char>>, p: int, q: int)
    requires
        0 <= p <= q <= items.len(),
    ensures
        marks_before(items, mp, features, p) <= marks_before(items, mp, features, q),
    decreases q - p,
{
    if p < q {
        lemma_marks_before_mono(items, mp, features, p, q - 1);
    }
}

/// How many modules in their own files item `it` declares, its inline
/// modules included.
pub open spec fn item_ext(it: ItemSource) -> int
    decreases it, 0int,
{
    match it {
        ItemSource::Mod(_, _, ModBody::External) => 1,
        ItemSource::Mod(_, _, ModBody::Inline(its)) => ext_before(its@, its@.len() as int),
        _ => 0,
    }
}

/// How many modules in their own files the first `p` items declare, their
/// inline modules included.
pub open spec fn ext_before(items: Seq<ItemSource>, p: int) -> int
    decreases items, p,
{
    if p <= 0 || p > items.len() {
        0
    } else {
        ext_before(items, p - 1) + item_ext(items[p - 1])
    }
}

/// How many modules in their own files `items` declare, their inline modules
/// included.
pub open spec fn ext_count(items: Seq<ItemSource>) -> int {
    ext_before(items, items.len() as int)
}

/// The modules in their own files that item `it` of the module at `mp`
/// declares, its inline modules included, each as its name and its path.
pub open spec fn item_exts(it: ItemSource, mp: Seq<Seq<char>>) -> Seq<(Seq<char>, Seq<Seq<char>>)>
    decreases it, 0int,
{
    match it {
        ItemSource::Mod(id, _, ModBody::External) => seq![(id@, mp.push(id@))],
        ItemSource::Mod(id, _, ModBody::Inline(its)) => exts_before(its@, its@.len() as int, mp.push(id@)),
        _ => seq![],
    }
}

/// The modules in their own files that the first `p` items of the module at
/// `mp` declare, their inline modules included, in order: each as its name
/// and its path.
pub open spec fn exts_before(items: Seq<ItemSource>, p: int, mp: Seq<Seq<char>>) -> Seq<(Seq<char>, Seq<Seq<char>>)>
    decreases items, p,
{
    if p <= 0 || p > items.len() {
        seq![]
    } else {
        exts_before(items, p - 1, mp) + item_exts(items[p - 1], mp)
    }
}

/// Names and paths as characters.
pub open spec fn ext_views(v: Seq<(String, Vec<String>)>) -> Seq<(Seq<char>, Seq<Seq<char>>)> {
    v.map_values(|x: (String, Vec<String>)| (x.0@, x.1.deep_view()))
}

/// Module `m` has one module for each declaration among `items`, and each
/// inline one has the path of its declaration and the shape of its items.
pub open spec fn shaped(m: Mod, items: Seq<ItemSource>) -> bool
    decreases items,
{
    &&& m.mods@.len() == mods_before(items, items.len() as int)
    &&& forall|p: int| 0 <= p < items.len() && (#[trigger] items[p]) is Mod ==> (match items[p] {
        ItemSource::Mod(id, _, ModBody::Inline(its)) => {
            &&& m.mods@[mods_before(items, p)].path.deep_view() == m.path.deep_view().push(id@)
            &&& shaped(m.mods@[mods_before(items, p)], its@)
        },
        _ => true,
    })
}

/// `new` is `old`, shaped by `items`, with the module of each declaration of
/// a module in its own file replaced by the next of `fs`, in order, in its
/// inline modules too.
pub open spec fn filled(old: Mod, new: Mod, items: Seq<ItemSource>, fs: Seq<Mod>) -> bool
    decreases items,
{
    &&& new.ty == old.ty
    &&& new.dir == old.dir
    &&& new.path == old.path
    &&& new.symbols == old.symbols
    &&& new.uses == old.uses
    &&& new.marked == old.marked
    &&& new.mods@.len() == old.mods@.len()
    &&& fs.len() == ext_count(items)
    &&& forall|p: int| 0 <= p < items.len() && (#[trigger] items[p]) is Mod ==> (match items[p] {
        ItemSource::Mod(_, _, ModBody::External) => new.mods@[mods_before(items, p)] == fs[ext_before(items, p)],
        ItemSource::Mod(_, _, ModBody::Inline(its)) => filled(old.mods@[mods_before(items, p)], new.mods@[mods_before(items, p)], its@,
            fs.subrange(ext_before(items, p), ext_before(items, p + 1))),
        _ => new.mods@[mods_before(items, p)] == old.mods@[mods_before(items, p)],
    })
}

proof fn lemma_ext_before_mono(items: Seq<ItemSource>, p: int, q: int)
    requires
        0 <= p <= q <= items.len(),
        forall|k: int| 0 <= k < items.len() ==> item_ext(#[trigger] items[k]) >= 0,
    ensures
        0 <= ext_before(items, p) <= ext_before(items, q),
    decreases q,
{
    if q > 0 {
        if p < q {
            lemma_ext_before_mono(items, p, q - 1);
        } else {
            lemma_ext_before_mono(items, p - 1, q - 1);
        }
    }
}

proof fn lemma_item_ext_nonneg(it: ItemSource)
    ensures
        item_ext(it) >= 0,
    decreases it, 0int,
{
    match it {
        ItemSource::Mod(_, _, ModBody::Inline(its)) => {
            lemma_ext_nonneg(its@);
            lemma_ext_before_mono(its@, 0, its@.len() as int);
        },
        _ => {},
    }
}

proof fn lemma_ext_nonneg(items: Seq<ItemSource>)
    ensures
        forall|k: int| 0 <= k < items.len() ==> item_ext(#[trigger] items[k]) >= 0,
    decreases items, 0int,
{
    assert forall|k: int| 0 <= k < items.len() implies item_ext(#[trigger] items[k]) >= 0 by {
        lemma_item_ext_nonneg(items[k]);
    }
}

/// A module marked as `items` say keeps the shape that visiting gave it.
proof fn lemma_marked_shaped(v: Mod, w: Mod, items: Seq<ItemSource>, features: Seq<Seq<char>>, cr: usize)
    requires
        contents(v, items),
        marked_tree(v, w, items, features, cr),
    ensures
        shaped(w, items),
    decreases items,
{
    assert forall|p: int| 0 <= p < items.len() && (#[trigger] items[p]) is Mod implies (match items[p] {
        ItemSource::Mod(id, _, ModBody::Inline(its)) => {
            &&& w.mods@[mods_before(items, p)].path.deep_view() == w.path.deep_view().push(id@)
            &&& shaped(w.mods@[mods_before(items, p)], its@)
        },
        _ => true,
    }) by {
        lemma_mods_before_le(items, p);
        assert(made(v.mods@[mods_before(items, p)], items[p], v.dir, v.path.deep_view()));
        match items[p] {
            ItemSource::Mod(id, _, ModBody::Inline(its)) => {
                lemma_marked_shaped(v.mods@[mods_before(items, p)], w.mods@[mods_before(items, p)], its@, features, cr);
            },
            _ => {},
        }
    }
}

/// Replaces, in module `w` shaped by `items`, the module of each declaration
/// of a module in its own file with the next module of `files`, in order, in
/// its inline modules too (see `filled`); none where `files` runs out.
fn fill_mod(w: Mod, items: &Vec<ItemSource>, files: &mut Vec<Mod>) -> (r: Option<Mod>)
    requires
        shaped(w, items@),
    ensures
        r is Some <==> ext_count(items@) <= old(files)@.len(),
        r matches Some(m) ==> filled(w, m, items@, old(files)@.take(ext_count(items@)))
            && final(files)@ == old(files)@.skip(ext_count(items@)),
    decreases items@,
{
    let ghost w0 = w;
    let ghost f0 = files@;
    let ghost all = items@;
    proof {
        lemma_ext_nonneg(all);
        crate::mod_visit::lemma_mods_before_mono(all, 0, 0);
    }
    let Mod { ty, dir, path, mods, symbols, uses, marked } = w;
    let mut rest = mods;
    let mut new_mods: Vec<Mod> = Vec::new();
    let mut i: usize = 0;
    proof {
        assert(w0.mods@.skip(0) =~= w0.mods@);
        assert(f0.skip(0) =~= f0);
    }
    while i < items.len()
        invariant
            i <= all.len(),
            all == items@,
            w0 == w,
            f0 == old(files)@,
            shaped(w0, all),
            forall|k: int| 0 <= k < all.len() ==> item_ext(#[trigger] all[k]) >= 0,
            path == w0.path,
            rest@ == w0.mods@.skip(mods_before(all, i as int)),
            new_mods@.len() == mods_before(all, i as int),
            0 <= ext_before(all, i as int) <= f0.len(),
            files@ == f0.skip(ext_before(all, i as int)),
            forall|p: int| 0 <= p < i && (#[trigger] all[p]) is Mod ==> (match all[p] {
                ItemSource::Mod(_, _, ModBody::External) => new_mods@[mods_before(all, p)] == f0[ext_before(all, p)],
                ItemSource::Mod(_, _, ModBody::Inline(its)) => filled(w0.mods@[mods_before(all, p)], new_mods@[mods_before(all, p)], its@,
                    f0.subrange(ext_before(all, p), ext_before(all, p + 1))),
                _ => new_mods@[mods_before(all, p)] == w0.mods@[mods_before(all, p)],
            }),
        decreases all.len() - i,
    {
        let ghost itg = all[i as int];
        let ghost mb = mods_before(all, i as int);
        let ghost eb = ext_before(all, i as int);
        let ghost nd0 = new_mods@;
        let ghost fl0 = files@;
        proof {
            crate::mod_visit::lemma_mods_before_mono(all, 0, i as int);
            lemma_ext_before_mono(all, i as int, all.len() as int);
            lemma_ext_before_mono(all, i as int + 1, all.len() as int);
        }
        match &items[i] {
            ItemSource::Mod(_, _, body) => {
                proof {
                    lemma_mods_before_le(all, i as int);
                    crate::mod_visit::lemma_mods_before_mono(all, i as int, all.len() as int);
                    assert(rest@[0] == w0.mods@[mb]);
                }
                let child = rest.remove(0);
                let c2 = match body {
                    ModBody::External => {
                        if files.len() == 0 {
                            proof {
                                assert(ext_before(all, i + 1) == eb + 1);
                            }
                            return None;
                        }
                        proof {
                            assert(files@[0] == f0[eb]);
                        }
                        files.remove(0)
                    },
                    ModBody::Inline(its) => {
                        proof {
                            assert(decreases_to!(all => itg));
                            assert(decreases_to!(itg => *body));
                            assert(decreases_to!(*body => *its));
                            assert(decreases_to!(*its => its@));
                            assert(shaped(w0.mods@[mb], its@));
                        }
                        match fill_mod(child, its, files) {
                            Some(c) => {
                                proof {
                                    assert(fl0.take(ext_count(its@)) =~= f0.subrange(eb, ext_before(all, i + 1)));
                                }
                                c
                            },
                            None => {
                                proof {
                                    assert(ext_before(all, i + 1) == eb + ext_count(its@));
                                }
                                return None;
                            },
                        }
                    },
                    _ => child,
                };
                let ghost c2g = c2;
                new_mods.push(c2);
                proof {
                    assert(new_mods@ == nd0.push(c2g));
                    assert(rest@ =~= w0.mods@.skip(mb + 1));
                    assert(mods_before(all, i + 1) == mb + 1);
                    assert(files@ =~= f0.skip(ext_before(all, i + 1)));
                    assert forall|p: int| 0 <= p < i + 1 && (#[trigger] all[p]) is Mod implies (match all[p] {
                        ItemSource::Mod(_, _, ModBody::External) => new_mods@[mods_before(all, p)] == f0[ext_before(all, p)],
                        ItemSource::Mod(_, _, ModBody::Inline(its)) => filled(w0.mods@[mods_before(all, p)], new_mods@[mods_before(all, p)], its@,
                            f0.subrange(ext_before(all, p), ext_before(all, p + 1))),
                        _ => new_mods@[mods_before(all, p)] == w0.mods@[mods_before(all, p)],
                    }) by {
                        if p < i {
                            crate::mod_visit::lemma_mods_before_mono(all, p + 1, i as int);
                            crate::mod_visit::lemma_mods_before_mono(all, 0, p);
                            assert(mods_before(all, p + 1) == mods_before(all, p) + 1);
                            assert(mods_before(all, p) < nd0.len());
                            assert(new_mods@[mods_before(all, p)] == nd0[mods_before(all, p)]);
                        }
                    }
                }
            },
            _ => {
                proof {
                    assert(mods_before(all, i + 1) == mb);
                    assert(ext_before(all, i + 1) == eb);
                }
            },
        }
        i = i + 1;
    }
    proof {
        assert(f0.take(ext_count(all)).len() == ext_count(all));
        assert forall|p: int| 0 <= p < all.len() && (#[trigger] all[p]) is Mod implies (match all[p] {
            ItemSource::Mod(_, _, ModBody::External) => new_mods@[mods_before(all, p)] == f0.take(ext_count(all))[ext_before(all, p)],
            ItemSource::Mod(_, _, ModBody::Inline(its)) => filled(w0.mods@[mods_before(all, p)], new_mods@[mods_before(all, p)], its@,
                f0.take(ext_count(all)).subrange(ext_before(all, p), ext_before(all, p + 1))),
            _ => new_mods@[mods_before(all, p)] == w0.mods@[mods_before(all, p)],
        }) by {
            lemma_ext_before_mono(all, p + 1, all.len() as int);
            lemma_ext_before_mono(all, p, p + 1);
            assert(f0.take(ext_count(all)).subrange(ext_before(all, p), ext_before(all, p + 1))
                =~= f0.subrange(ext_before(all, p), ext_before(all, p + 1)));
        }
    }
    Some(Mod { ty, dir, path, mods: new_mods, symbols, uses, marked })
}

/// Visiting items from an empty module gives a module that holds exactly
/// what they give.
proof fn lemma_visited_contents(e: Mod, v: Mod, items: Seq<ItemSource>)
    requires
        e.mods@.len() == 0,
        e.symbols@.len() == 0,
        e.uses@.len() == 0,
        visited_from(e, v, items),
    ensures
        contents(v, items),
{
    assert(sym_views(e.symbols@) =~= Seq::<(Seq<char>, Seq<Seq<char>>, bool)>::empty());
    assert(sym_views(e.uses@) =~= Seq::<(Seq<char>, Seq<Seq<char>>, bool)>::empty());
    assert(sym_views(v.symbols@) =~= crate::mod_visit::item_symbols(items, v.path.deep_view()));
    assert(sym_views(v.uses@) =~= crate::mod_visit::item_uses(items, v.path.deep_view()));
}

fn externals(items: &Vec<ItemSource>, mp: &Vec<String>) -> (r: Vec<(String, Vec<String>)>)
    ensures
        ext_views(r@) == exts_before(items@, items@.len() as int, mp.deep_view()),
    decreases items@,
{
    let ghost all = items@;
    let mut r: Vec<(String, Vec<String>)> = Vec::new();
    let mut i: usize = 0;
    proof {
        assert(ext_views(r@) =~= Seq::<(Seq<char>, Seq<Seq<char>>)>::empty());
    }
    while i < items.len()
        invariant
            i <= all.len(),
            all == items@,
            ext_views(r@) == exts_before(all, i as int, mp.deep_view()),
        decreases all.len() - i,
    {
        let ghost itg = all[i as int];
        let ghost r0 = r@;
        match &items[i] {
            ItemSource::Mod(id, _, body) => match body {
                ModBody::External => {
                    let e = (id.clone(), child_path(mp, id));
                    r.push(e);
                    proof {
                        assert(ext_views(r@) =~= ext_views(r0) + item_exts(itg, mp.deep_view()));
                    }
                },
                ModBody::Inline(its) => {
                    proof {
                        assert(decreases_to!(all => itg));
                        assert(decreases_to!(itg => *body));
                        assert(decreases_to!(*body => *its));
                        assert(decreases_to!(*its => its@));
                    }
                    let sub_path = child_path(mp, id);
                    let mut sub = externals(its, &sub_path);
                    let ghost s0 = sub@;
                    r.append(&mut sub);
                    proof {
                        assert(r@ == r0 + s0);
                        assert(ext_views(r@) =~= ext_views(r0) + ext_views(s0));
                    }
                },
                ModBody::File(_) => {
                    proof {
                        assert(ext_views(r@) =~= ext_views(r0) + item_exts(itg, mp.deep_view()));
                    }
                },
            },
            _ => {
                proof {
                    assert(ext_views(r@) =~= ext_views(r0) + item_exts(itg, mp.deep_view()));
                }
            },
        }
        i = i + 1;
    }
    r
}

/// The modules in their own files that the Rust source `text` of the
/// module at `mods` declares, their inline modules included, each as its
/// name and its path, in order (see `exts_before`); none where the text is no
/// Rust file.
pub fn file_modules(text: &str, mods: &Vec<String>) -> (r: Option<Vec<(String, Vec<String>)>>)
    ensures
        r is Some <==> source_items(text@) is Some,
        r matches Some(v) ==> ext_views(v@) == exts_before(source_items(text@)->0,
            (source_items(text@)->0).len() as int, mods.deep_view()),
{
    match parse_source(text) {
        Some(items) => Some(externals(&items, mods)),
        None => None,
    }
}

/// The module of the source `src`, read from the text `text`, in crate `cr`:
/// what its items give (see `contents`), with the items that attributes mark
/// for `features` (see `marked_tree`), and with the modules in their own files
/// taken from `files` in the order of `file_modules` (see `filled`); none
/// where the text is no Rust file, a `cfg` attribute cannot be read, or
/// `files` holds another number of modules.
pub fn read_module(src: &ModSource, text: &str, files: Vec<Mod>, features: &Vec<String>, cr: usize) -> (r: Option<Mod>)
    ensures
        r is Some <==> source_items(text@) is Some && marks_ok(source_items(text@)->0, src.mods.deep_view())
            && files@.len() == ext_count(source_items(text@)->0),
        r matches Some(m) ==> exists|v: Mod, w: Mod|
            #![trigger contents(v, source_items(text@)->0), filled(w, m, source_items(text@)->0, files@)]
            v.ty == src.ty && v.dir == src.dir && v.path.deep_view() == src.mods.deep_view() && v.marked@.len() == 0
            && contents(v, source_items(text@)->0)
            && marked_tree(v, w, source_items(text@)->0, features.deep_view(), cr)
            && filled(w, m, source_items(text@)->0, files@),
{
    let items = match parse_source(text) {
        Some(v) => v,
        None => return None,
    };
    let again = match parse_source(text) {
        Some(v) => v,
        None => return None,
    };
    let ghost iv = items@;
    let mut v = Mod::new(src.dir.clone(), clone_strings(&src.mods), src.ty);
    let ghost e = v;
    v.visit_file(again);
    proof {
        lemma_visited_contents(e, v, iv);
    }
    let ghost vg = v;
    let w = match mark_mod(v, &items, features, cr) {
        Some(w) => w,
        None => return None,
    };
    proof {
        lemma_marked_shaped(vg, w, iv, features.deep_view(), cr);
    }
    let ghost wg = w;
    let ghost f0 = files@;
    let mut fs = files;
    let m = match fill_mod(w, &items, &mut fs) {
        Some(m) => m,
        None => return None,
    };
    if fs.len() != 0 {
        return None;
    }
    proof {
        assert(f0.take(ext_count(iv)) =~= f0);
        assert(contents(vg, iv) && marked_tree(vg, wg, iv, features.deep_view(), cr) && filled(wg, m, iv, f0));
    }
    Some(m)
}

} // verus!
