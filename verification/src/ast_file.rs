use vstd::prelude::*;
use vstd::string::*;
use crate::ast_mod::{Mod, ModType};

verus! {

/// The kinds of directory a module can be read from.
#[derive(Clone, Copy, Debug, PartialEq, Eq)]
pub enum DirType {
    Main,
    Lib,
    Mod,
}

impl DirType {
    /// The name of the file that holds the directory's module.
    pub open spec fn file_view(self) -> Seq<char> {
        match self {
            DirType::Main => "main.rs"@,
            DirType::Lib => "lib.rs"@,
            DirType::Mod => "mod.rs"@,
        }
    }

    /// The name of the file that holds the directory's module.
    pub fn to_file(&self) -> (s: &'static str)
        ensures
            s@ == self.file_view(),
    {
        match self {
            DirType::Main => "main.rs",
            DirType::Lib => "lib.rs",
            DirType::Mod => "mod.rs",
        }
    }
}

/// The kind of module that a directory of kind `value` holds.
pub open spec fn mod_type_of(value: DirType) -> ModType {
    match value {
        DirType::Main => ModType::Main,
        DirType::Lib => ModType::Lib,
        DirType::Mod => ModType::Mod,
    }
}

impl ModType {
    /// The kind of module that a directory of kind `value` holds.
    pub fn from(value: DirType) -> (t: ModType)
        ensures
            t == mod_type_of(value),
    {
        match value {
            DirType::Main => ModType::Main,
            DirType::Lib => ModType::Lib,
            DirType::Mod => ModType::Mod,
        }
    }
}

/// Where a module's source is read from: its directory, the file, the module
/// path and the kind of module.
pub struct ModSource {
    pub dir: String,
    pub file: String,
    pub mods: Vec<String>,
    pub ty: ModType,
}

/// `dir` and `name` joined with a path separator (as `Path::join` with a
/// relative name).
pub open spec fn join_path(dir: Seq<char>, name: Seq<char>) -> Seq<char> {
    if dir.len() == 0 || dir.last() == '/' { dir + name } else { dir + "/"@ + name }
}

fn join_path_exec(dir: &str, name: &str) -> (s: String)
    ensures
        s@ == join_path(dir@, name@),
{
    let mut s = String::from_str(dir);
    let n = dir.unicode_len();
    if n == 0 {
        s.append(name);
        return s;
    }
    let last = dir.get_char(n - 1);
    if last != '/' {
        s.append("/");
    }
    s.append(name);
    s
}

impl Mod {
    /// The source of the module at `path`: the directory's `mod.rs` when `path`
    /// is a directory, else the file `rs_file` (`path` with the `rs` extension)
    /// when it exists, else none.
    pub fn parse_mod(path: String, rs_file: String, mods: &Vec<String>, path_is_dir: bool, rs_is_file: bool) -> (r: Option<ModSource>)
        ensures
            path_is_dir ==> r is Some && (r->0).dir@ == path@ && (r->0).file@ == join_path(path@, "mod.rs"@)
                && (r->0).ty == ModType::Mod && (r->0).mods.deep_view() == mods.deep_view(),
            !path_is_dir && rs_is_file ==> r is Some && (r->0).dir@ == path@ && (r->0).file@ == rs_file@
                && (r->0).ty == ModType::File && (r->0).mods.deep_view() == mods.deep_view(),
            !path_is_dir && !rs_is_file ==> r is None,
    {
        if path_is_dir {
            Some(Self::parse_dir(path, mods, DirType::Mod))
        } else if rs_is_file {
            Some(Self::parse_file(path, rs_file, mods, ModType::File))
        } else {
            None
        }
    }

    /// The source of a module of kind `ty` read from `path`.
    pub fn parse_file(dir: String, path: String, mods: &Vec<String>, ty: ModType) -> (r: ModSource)
        ensures
            r.dir == dir,
            r.file == path,
            r.ty == ty,
            r.mods.deep_view() == mods.deep_view(),
    {
        ModSource { dir, file: path, mods: crate::ast_resolve::clone_strings(mods), ty }
    }

    /// The source of the module held by directory `path` of kind `ty`.
    pub fn parse_dir(path: String, mods: &Vec<String>, ty: DirType) -> (r: ModSource)
        ensures
            r.dir == path,
            r.file@ == join_path(path@, ty.file_view()),
            r.ty == mod_type_of(ty),
            r.mods.deep_view() == mods.deep_view(),
    {
        let file = join_path_exec(path.as_str(), ty.to_file());
        Self::parse_file(path, file, mods, ModType::from(ty))
    }
}

} // verus!
