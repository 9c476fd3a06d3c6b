use hyperfold::ast_file::DirType;
use hyperfold::ast_items::{Dependency as ItemDep, ItemsCrate};
use hyperfold::ast_mod::{Mod, ModType};
use hyperfold::ast_resolve::Path;
use hyperfold::code_format::format_code;
use hyperfold::codegen_mods::Idents;
use hyperfold::dependency::{get_deps_post_order, is_acyclic_from_entry, Dependency};
use hyperfold::engine_paths::EnginePaths;
use hyperfold::util::{brackets, end, parse_vec_path};

fn strs(v: &[&str]) -> Vec<String> {
    v.iter().map(|s| s.to_string()).collect()
}

#[test]
fn super_segments_step_up() {
    let parent = strs(&["crate", "a", "b"]);
    assert_eq!(parse_vec_path(&parent, &strs(&["super", "x"])), strs(&["crate", "a", "x"]));
    assert_eq!(parse_vec_path(&parent, &strs(&["y", "super", "z"])), strs(&["z"]));
    assert_eq!(parse_vec_path(&parent, &strs(&["x", "y"])), strs(&["x", "y"]));
    assert_eq!(parse_vec_path(&Vec::new(), &strs(&["super", "x"])), strs(&["x"]));
    assert_eq!(end(&vec![1, 2, 3], 1), 2);
    assert_eq!(end(&vec![1], 4), 0);
}

#[test]
fn code_layout() {
    assert_eq!(brackets("no braces".to_string()), "no braces");
    assert_eq!(brackets("a{b}c".to_string()), "a{\n\tb\n}c");
    assert_eq!(brackets("{}".to_string()), "{}");
    assert_eq!(brackets("x{a{b}}y".to_string()), "x{\n\ta{\n\t\tb\n\t}\n}y");
    assert_eq!(brackets("a{b}{c}".to_string()), "a{\n\tb\n}\n{\n\tc\n}");
}

#[test]
fn dependency_post_order() {
    let d = |cr_idx: usize| Dependency { cr_idx, alias: format!("c{}", cr_idx) };
    assert_eq!(get_deps_post_order(&vec![vec![d(1), d(2)], vec![d(2)], vec![]]), vec![2, 1, 0]);
    assert_eq!(get_deps_post_order(&vec![vec![d(1), d(1)], vec![]]), vec![1, 0]);
    assert_eq!(get_deps_post_order(&vec![vec![]]), vec![0]);
}

fn items(cr_idx: usize, deps: &[(usize, &str)]) -> ItemsCrate {
    let mut ic = ItemsCrate::new();
    ic.cr_idx = cr_idx;
    ic.dependencies = deps.iter().map(|(i, a)| ItemDep { cr_idx: *i, cr_alias: a.to_string() }).collect();
    ic
}

#[test]
fn paths_seen_from_other_crates() {
    let p = Path { cr_idx: 1, path: strs(&["crate", "Foo"]) };
    let direct = vec![items(0, &[(1, "engine")]), items(1, &[])];
    assert_eq!(p.path_from(1, &direct), strs(&["crate", "Foo"]));
    assert_eq!(p.path_from(0, &direct), strs(&["engine", "Foo"]));
    let chained = vec![items(0, &[(2, "lib")]), items(1, &[]), items(2, &[(1, "engine")])];
    assert_eq!(p.path_from(0, &chained), strs(&["lib", "_engine", "engine", "Foo"]));
    // the shorter names win
    let two_ways = vec![items(0, &[(2, "a_long_name"), (3, "b")]), items(1, &[]), items(2, &[(1, "e")]), items(3, &[(1, "e")])];
    assert_eq!(p.path_from(0, &two_ways), strs(&["b", "_engine", "e", "Foo"]));
    assert_eq!(p.try_path_from(0, &vec![items(0, &[]), items(1, &[])]), None);
}

#[test]
fn identifiers_and_engine_paths() {
    assert_eq!(Idents::Namespace.as_str(), "_engine");
    assert_eq!(Idents::ELen.as_str(), "E_LEN");
    assert_eq!(Idents::GenEids.as_str(), "eids");
    assert_eq!(EnginePaths::get_variants(), [EnginePaths::AddComponent, EnginePaths::AddEvent, EnginePaths::Entity]);
    assert_eq!(EnginePaths::Entity.get_type(), "Entity");
    assert_eq!(EnginePaths::AddEvent.get_path(), strs(&["crate", "AddEvent"]));
}

#[test]
fn module_files() {
    assert_eq!(DirType::Main.to_file(), "main.rs");
    assert_eq!(DirType::Lib.to_file(), "lib.rs");
    assert_eq!(DirType::Mod.to_file(), "mod.rs");
    assert_eq!(ModType::from(DirType::Lib), ModType::Lib);
    let mods = strs(&["crate", "m"]);
    let dir = Mod::parse_mod("src/m".to_string(), "src/m.rs".to_string(), &mods, true, false).unwrap();
    assert_eq!((dir.dir.as_str(), dir.file.as_str(), dir.ty), ("src/m", "src/m/mod.rs", ModType::Mod));
    let file = Mod::parse_mod("src/m".to_string(), "src/m.rs".to_string(), &mods, false, true).unwrap();
    assert_eq!((file.file.as_str(), file.ty), ("src/m.rs", ModType::File));
    assert_eq!(file.mods, mods);
    assert!(Mod::parse_mod("src/m".to_string(), "src/m.rs".to_string(), &mods, false, false).is_none());
}

#[test]
fn generated_code_layout() {
    assert_eq!(format_code("fn a ( ) { b ; c }".to_string()), "fn a( ) {\n\tb;\n\tc\n}");
    // a space after `>` stays: only a word, `)` or the start may stand before a dropped space
    assert_eq!(format_code("x :: y < T > ;".to_string()), "x::y<T> ;");
    assert_eq!(format_code(String::new()), "");
}

#[test]
fn cycles_reached_from_the_entry_crate() {
    let d = |cr_idx: usize| Dependency { cr_idx, alias: format!("c{}", cr_idx) };
    assert!(is_acyclic_from_entry(&vec![vec![d(1), d(2)], vec![d(2)], vec![]]));
    assert!(is_acyclic_from_entry(&vec![vec![]]));
    // a cycle the entry crate does not reach is no obstacle
    assert!(is_acyclic_from_entry(&vec![vec![], vec![d(2)], vec![d(1)]]));
    assert!(!is_acyclic_from_entry(&vec![vec![d(1)], vec![d(0)]]));
    assert!(!is_acyclic_from_entry(&vec![vec![d(1)], vec![d(1)]]));
    assert!(!is_acyclic_from_entry(&vec![vec![d(1)], vec![d(2), d(3)], vec![], vec![d(1)]]));
    // a dependency on an unknown crate
    assert!(!is_acyclic_from_entry(&vec![vec![d(1)], vec![d(4)]]));
    // no crates at all
    assert!(!is_acyclic_from_entry(&Vec::new()));
}

#[test]
fn cheaper_chain_beats_direct_dependency() {
    let p = Path { cr_idx: 1, path: strs(&["crate", "Foo"]) };
    let crates = vec![items(0, &[(1, "a_very_long_engine_name"), (2, "b")]), items(1, &[]), items(2, &[(1, "e")])];
    assert_eq!(p.path_from(0, &crates), strs(&["b", "_engine", "e", "Foo"]));
    let direct_is_cheaper = vec![items(0, &[(1, "x"), (2, "b")]), items(1, &[]), items(2, &[(1, "e")])];
    assert_eq!(p.path_from(0, &direct_is_cheaper), strs(&["x", "Foo"]));
}

#[test]
fn layout_changes_only_white_space() {
    let visible = |s: &str| s.chars().filter(|c| !c.is_whitespace()).collect::<String>();
    for s in ["fn f() { let x = { 1 }; x }", "a{ }b{c{d}e}", "}{ x", "struct S {\n a: u8,\n}"] {
        assert_eq!(visible(&brackets(s.to_string())), visible(s));
    }
}

#[test]
fn a_chain_through_several_crates_is_found() {
    let p = Path { cr_idx: 3, path: strs(&["crate", "Foo"]) };
    let crates = vec![items(0, &[(1, "a")]), items(1, &[(2, "b")]), items(2, &[(3, "c")]), items(3, &[])];
    assert_eq!(p.try_path_from(0, &crates), Some(strs(&["a", "_engine", "b", "_engine", "c", "Foo"])));
    // the entry crate `0` is never passed through
    let through_entry = vec![items(0, &[(2, "x")]), items(1, &[(0, "e")]), items(2, &[])];
    let q = Path { cr_idx: 2, path: strs(&["crate", "Foo"]) };
    assert_eq!(q.try_path_from(1, &through_entry), None);
}
