use vstd::prelude::*;
use quote::ToTokens;
use crate::ast_attrs::CfgExpr;
use crate::mod_visit::{
    AttrSource, InputSource, ItemSource, MarkKind, MarkSource, ModBody, TokenSource, TypeArgSource, TypeSource,
    UseSource,
};

verus! {

#[verifier::external_type_specification]
#[verifier::external_body]
pub struct ExSynItem(syn::Item);

#[verifier::external_type_specification]
#[verifier::external_body]
pub struct ExSynItemMod(syn::ItemMod);

#[verifier::external_type_specification]
#[verifier::external_body]
pub struct ExSynItemEnum(syn::ItemEnum);

#[verifier::external_type_specification]
#[verifier::external_body]
pub struct ExSynSignature(syn::Signature);

#[verifier::external_type_specification]
#[verifier::external_body]
pub struct ExSynIdent(syn::Ident);

#[verifier::external_type_specification]
#[verifier::external_body]
pub struct ExSynVisibility(syn::Visibility);

#[verifier::external_type_specification]
#[verifier::external_body]
pub struct ExSynUseTree(syn::UseTree);

#[verifier::external_type_specification]
#[verifier::external_body]
pub struct ExSynType(syn::Type);

#[verifier::external_type_specification]
#[verifier::external_body]
pub struct ExSynTypePath(syn::TypePath);

#[verifier::external_type_specification]
#[verifier::external_body]
pub struct ExSynGenericArgument(syn::GenericArgument);

#[verifier::external_type_specification]
#[verifier::external_body]
pub struct ExSynTypeParamBound(syn::TypeParamBound);

#[verifier::external_type_specification]
#[verifier::external_body]
pub struct ExSynMeta(syn::Meta);

#[verifier::external_type_specification]
#[verifier::external_body]
pub struct ExTokenStream(proc_macro2::TokenStream);

#[verifier::external_type_specification]
#[verifier::external_body]
#[verifier::reject_recursive_types(S)]
pub struct ExCfg<S>(parse_cfg::Cfg<S>);

/// The items of the Rust source file `contents`, each as `item_source`
/// converts it; none where the text is no Rust file.
pub uninterp spec fn source_items(contents: Seq<char>) -> Option<Seq<ItemSource>>;

/// The `cfg` predicate that the text `text` reads as; none where it reads as
/// none.
pub uninterp spec fn cfg_of(text: Seq<char>) -> Option<CfgExpr>;

/// Parses `contents` with `syn::parse_file` and gives its items, each
/// converted by `item_source`; none where the text does not parse.
#[verifier::external_body]
pub fn parse_source(contents: &str) -> (r: Option<Vec<ItemSource>>)
    ensures
        r is Some <==> source_items(contents@) is Some,
        r is Some ==> (r->0)@ == source_items(contents@)->0,
{
    syn::parse_file(contents).ok().map(|f| f.items.iter().map(item_source).collect())
}

/// Parses `text` with `parse_cfg` (`Cfg` from a string) and converts the
/// predicate; none where it does not parse.
#[verifier::external_body]
pub fn parse_cfg_text(text: &str) -> (r: Option<CfgExpr>)
    ensures
        r == cfg_of(text@),
{
    text.parse::<parse_cfg::Cfg<String>>().ok().map(|c| cfg_expr(&c))
}

/// A `cfg` predicate of `parse_cfg`, converted variant by variant.
#[verifier::external_body]
fn cfg_expr(c: &parse_cfg::Cfg<String>) -> (e: CfgExpr) {
    match c {
        parse_cfg::Cfg::Any(v) => CfgExpr::Any(v.iter().map(cfg_expr).collect()),
        parse_cfg::Cfg::All(v) => CfgExpr::All(v.iter().map(cfg_expr).collect()),
        parse_cfg::Cfg::Not(b) => CfgExpr::Not(Box::new(cfg_expr(b))),
        parse_cfg::Cfg::Equal(k, v) => CfgExpr::Equal(k.to_string(), v.to_string()),
        parse_cfg::Cfg::Is(s) => CfgExpr::Is(s.to_string()),
    }
}

/// Whether a visibility is `pub`.
#[verifier::external_body]
fn is_pub(v: &syn::Visibility) -> (r: bool) {
    matches!(v, syn::Visibility::Public(_))
}

/// A `syn` item, converted variant by variant.
#[verifier::external_body]
fn item_source(i: &syn::Item) -> (r: ItemSource) {
    match i {
        syn::Item::Use(u) => ItemSource::Use(is_pub(&u.vis), use_source(&u.tree)),
        syn::Item::Mod(m) => mod_source(m),
        syn::Item::Fn(f) => marked(&f.sig.ident, &f.vis, fn_kind(&f.sig), i),
        syn::Item::Enum(e) => marked(&e.ident, &e.vis, enum_kind(e), i),
        syn::Item::Struct(s) => marked(&s.ident, &s.vis, MarkKind::Struct, i),
        _ => plain_item(i),
    }
}

/// A `syn` item that takes no attributes into account, converted.
#[verifier::external_body]
fn plain_item(i: &syn::Item) -> (r: ItemSource) {
    match i {
        syn::Item::Const(c) => named(&c.ident, &c.vis),
        syn::Item::ExternCrate(c) => named(&c.ident, &c.vis),
        syn::Item::Static(s) => named(&s.ident, &s.vis),
        syn::Item::Trait(t) => named(&t.ident, &t.vis),
        syn::Item::TraitAlias(t) => named(&t.ident, &t.vis),
        syn::Item::Type(t) => named(&t.ident, &t.vis),
        syn::Item::Union(u) => named(&u.ident, &u.vis),
        _ => ItemSource::Other,
    }
}

/// A named item, converted.
#[verifier::external_body]
fn named(ident: &syn::Ident, vis: &syn::Visibility) -> (r: ItemSource) {
    ItemSource::Named(ident.to_string(), is_pub(vis))
}

/// A struct, enum or function with its kind and the attributes of `i`,
/// converted.
#[verifier::external_body]
fn marked(ident: &syn::Ident, vis: &syn::Visibility, kind: MarkKind, i: &syn::Item) -> (r: ItemSource) {
    ItemSource::Marked(ident.to_string(), is_pub(vis), MarkSource { kind, attrs: item_attrs(i) })
}

/// The attributes of a struct, enum or function, each converted: its path,
/// and for a list its text and tokens.
#[verifier::external_body]
fn item_attrs(i: &syn::Item) -> (r: Vec<AttrSource>) {
    let attrs = match i {
        syn::Item::Fn(f) => &f.attrs,
        syn::Item::Enum(e) => &e.attrs,
        syn::Item::Struct(s) => &s.attrs,
        _ => return Vec::new(),
    };
    attrs.iter().map(|a| AttrSource {
        path: a.path().segments.iter().map(|s| s.ident.to_string()).collect(),
        list: meta_list(&a.meta),
    }).collect()
}

/// The text and tokens of an attribute's list; none for another attribute.
#[verifier::external_body]
fn meta_list(m: &syn::Meta) -> (r: Option<(String, Vec<TokenSource>)>) {
    match m {
        syn::Meta::List(l) => Some((l.to_token_stream().to_string(), token_sources(l.to_token_stream()))),
        _ => None,
    }
}

/// A module declaration, converted; a module in its own file is not read.
#[verifier::external_body]
fn mod_source(m: &syn::ItemMod) -> (r: ItemSource) {
    let body = match &m.content {
        Some((_, items)) => ModBody::Inline(items.iter().map(item_source).collect()),
        None => ModBody::External,
    };
    ItemSource::Mod(m.ident.to_string(), is_pub(&m.vis), body)
}

/// The inputs of a function signature, converted.
#[verifier::external_body]
fn fn_kind(sig: &syn::Signature) -> (r: MarkKind) {
    MarkKind::Fn(sig.inputs.iter().map(|a| match a {
        syn::FnArg::Typed(t) => InputSource::Typed(t.ty.to_token_stream().to_string(), type_source(&t.ty)),
        syn::FnArg::Receiver(_) => InputSource::Receiver,
    }).collect())
}

/// The variants of an enum, converted.
#[verifier::external_body]
fn enum_kind(e: &syn::ItemEnum) -> (r: MarkKind) {
    MarkKind::Enum(e.variants.iter().map(|v| v.ident.to_string()).collect())
}

/// A `use` tree, converted variant by variant.
#[verifier::external_body]
fn use_source(t: &syn::UseTree) -> (r: UseSource) {
    match t {
        syn::UseTree::Path(p) => UseSource::Path(p.ident.to_string(), Box::new(use_source(&p.tree))),
        syn::UseTree::Name(n) => UseSource::Name(n.ident.to_string()),
        syn::UseTree::Rename(r) => UseSource::Rename(r.ident.to_string(), r.rename.to_string()),
        syn::UseTree::Glob(_) => UseSource::Glob,
        syn::UseTree::Group(g) => UseSource::Group(g.items.iter().map(use_source).collect()),
    }
}

/// A path type: its segments and the generic arguments of its last segment
/// (none where they are not in angle brackets), converted.
#[verifier::external_body]
fn type_path_source(p: &syn::TypePath) -> (r: TypeSource) {
    let segs = p.path.segments.iter().map(|s| s.ident.to_string()).collect();
    let args = match p.path.segments.last().map(|s| &s.arguments) {
        Some(syn::PathArguments::AngleBracketed(a)) => a.args.iter().map(type_arg_source).collect(),
        _ => Vec::new(),
    };
    TypeSource::Path(segs, args)
}

/// A generic argument, converted.
#[verifier::external_body]
fn type_arg_source(g: &syn::GenericArgument) -> (r: TypeArgSource) {
    match g {
        syn::GenericArgument::Type(t) => TypeArgSource::Type(t.to_token_stream().to_string(), type_source(t)),
        _ => TypeArgSource::Other,
    }
}

/// The segments of a bound's path where the bound is a trait.
#[verifier::external_body]
fn bound_segments(b: &syn::TypeParamBound) -> (r: Option<Vec<String>>) {
    match b {
        syn::TypeParamBound::Trait(tb) => Some(tb.path.segments.iter().map(|s| s.ident.to_string()).collect()),
        _ => None,
    }
}

/// A type, converted variant by variant.
#[verifier::external_body]
fn type_source(t: &syn::Type) -> (r: TypeSource) {
    match t {
        syn::Type::Reference(r) => TypeSource::Ref(r.mutability.is_some(), Box::new(type_source(&r.elem))),
        syn::Type::Path(p) => type_path_source(p),
        syn::Type::TraitObject(o) => TypeSource::TraitObject(o.bounds.iter().map(bound_segments).collect()),
        syn::Type::Tuple(tt) => TypeSource::Tuple(tt.elems.iter().map(|e| (e.to_token_stream().to_string(), type_source(e))).collect()),
        _ => TypeSource::Other,
    }
}

/// The tokens of a token stream, converted.
#[verifier::external_body]
fn token_sources(ts: proc_macro2::TokenStream) -> (r: Vec<TokenSource>) {
    ts.into_iter().map(|t| match t {
        proc_macro2::TokenTree::Group(g) => TokenSource::Group(token_sources(g.stream())),
        proc_macro2::TokenTree::Ident(i) => TokenSource::Ident(i.to_string()),
        _ => TokenSource::Other,
    }).collect()
}

} // verus!
