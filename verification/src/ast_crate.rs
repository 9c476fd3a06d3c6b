use vstd::prelude::*;
use crate::ast_mod::Mod;

verus! {

/// A crate: its index among all crates, its name, its directory, its root module
/// and its dependencies (the index of each crate it depends on and the name it
/// uses for it).
#[derive(Debug)]
pub struct Crate {
    pub idx: usize,
    pub name: String,
    pub dir: String,
    pub main: Mod,
    pub deps: Vec<(usize, String)>,
}

} // verus!
