use vstd::prelude::*;
use crate::ast_fn_arg::FnArg;

verus! {

/// A named item of a module, or a name that a `use` brings in: the name it is
/// known by, the full path it stands for, and whether it is public.
#[derive(Clone, Debug)]
pub struct Symbol {
    pub ident: String,
    pub path: Vec<String>,
    pub public: bool,
}

/// Where a module's items come from.
#[derive(Clone, Copy, Debug, PartialEq, Eq)]
pub enum ModType {
    Main,
    Lib,
    Mod,
    File,
    Internal,
}

/// The kind of an item that carries engine attributes.
#[derive(Debug)]
pub enum MarkType {
    Struct,
    Fn { args: Vec<FnArg> },
    Enum { variants: Vec<String> },
}

/// An item with attributes: its kind, its symbol, and each attribute's path and
/// arguments.
#[derive(Debug)]
pub struct MarkedItem {
    pub ty: MarkType,
    pub sym: Symbol,
    pub attrs: Vec<(Vec<String>, Vec<String>)>,
}

/// A module: its kind, its directory, its path from the crate root, its
/// submodules, the items it declares, the names its `use` items bring in, and the
/// items that carry attributes.
#[derive(Debug)]
pub struct Mod {
    pub ty: ModType,
    pub dir: String,
    pub path: Vec<String>,
    pub mods: Vec<Mod>,
    pub symbols: Vec<Symbol>,
    pub uses: Vec<Symbol>,
    pub marked: Vec<MarkedItem>,
}

impl Mod {
    /// An empty module.
    pub fn new(dir: String, path: Vec<String>, ty: ModType) -> (m: Self)
        ensures
            m.ty == ty,
            m.dir == dir,
            m.path == path,
            m.mods@.len() == 0,
            m.symbols@.len() == 0,
            m.uses@.len() == 0,
            m.marked@.len() == 0,
    {
        Mod { ty, dir, path, mods: Vec::new(), symbols: Vec::new(), uses: Vec::new(), marked: Vec::new() }
    }
}

} // verus!
