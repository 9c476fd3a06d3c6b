use hyperfold::ast_crate::Crate;
use hyperfold::ast_mod::{Mod, ModType, Symbol};
use hyperfold::ast_use::{resolve, resolve_local_path, resolve_mod};
use hyperfold::engine_paths::Paths;

fn strs(v: &[&str]) -> Vec<String> {
    v.iter().map(|s| s.to_string()).collect()
}

fn sym(ident: &str, path: &[&str], public: bool) -> Symbol {
    Symbol { ident: ident.to_string(), path: strs(path), public }
}

fn engine_crates() -> Vec<Crate> {
    let mut main = Mod::new("/e".to_string(), strs(&["crate"]), ModType::Lib);
    main.symbols.push(sym("Foo", &["engine", "Foo"], true));
    main.symbols.push(sym("Hidden", &["engine", "Hidden"], false));
    main.uses.push(sym("Baz", &["engine", "Foo"], true));
    main.uses.push(sym("*", &["engine", "a"], true));
    let mut a = Mod::new("/e".to_string(), strs(&["crate", "a"]), ModType::Internal);
    a.symbols.push(sym("Bar", &["engine", "a", "Bar"], true));
    main.mods.push(a);
    vec![Crate { idx: 0, name: "engine".to_string(), dir: "/e".to_string(), main, deps: Vec::new() }]
}

#[test]
fn crate_named_paths_resolve() {
    let crates = engine_crates();
    let mut p = strs(&["engine", "Foo"]);
    assert_eq!(resolve(&mut p, &crates), Some(strs(&["engine", "Foo"])));
    assert_eq!(p, strs(&["engine", "Foo"]));
    assert_eq!(resolve(&mut strs(&["engine", "a", "Bar"]), &crates), Some(strs(&["engine", "a", "Bar"])));
    assert_eq!(resolve(&mut strs(&["other", "Foo"]), &crates), None);
    assert_eq!(resolve(&mut strs(&[]), &crates), None);
}

#[test]
fn imports_and_globs_resolve() {
    let crates = engine_crates();
    // a public import named `Baz` stands for `engine::Foo`
    assert_eq!(resolve(&mut strs(&["engine", "Baz"]), &crates), Some(strs(&["engine", "Foo"])));
    // a private item is not seen from outside; the glob of `a` does not have it either
    assert_eq!(resolve(&mut strs(&["engine", "Hidden"]), &crates), None);
    // the glob import of `engine::a` makes `Bar` reachable from the root
    assert_eq!(resolve(&mut strs(&["engine", "Bar"]), &crates), Some(strs(&["engine", "a", "Bar"])));
    assert_eq!(resolve_mod(&mut strs(&["engine", "a", "Bar"]), 1, &crates[0].main, &crates), Some(strs(&["engine", "a", "Bar"])));
    assert_eq!(resolve_mod(&mut strs(&["engine", "Foo"]), 2, &crates[0].main, &crates), Some(strs(&["engine", "Foo"])));
}

#[test]
fn local_paths_resolve() {
    let crates = engine_crates();
    let main = &crates[0].main;
    assert_eq!(resolve_local_path(&mut strs(&["Foo"]), main, &crates), Some(strs(&["engine", "Foo"])));
    // the glob offers `engine::a::Bar`
    assert_eq!(resolve_local_path(&mut strs(&["Bar"]), main, &crates), Some(strs(&["engine", "a", "Bar"])));
    assert_eq!(resolve_local_path(&mut strs(&["Nothing"]), main, &crates), None);
}

#[test]
fn engine_item_paths() {
    let p = Paths::new(3);
    assert_eq!(p.component.cr_idx, 3);
    assert_eq!(p.component.path, strs(&["crate", "component"]));
    assert_eq!(p.system.path, strs(&["crate", "system"]));
    assert_eq!(p.eid.path, strs(&["crate", "Entity"]));
    assert_eq!(p.nand_labels.path, strs(&["crate", "NandLabels"]));
    assert_eq!(p.engine_paths[0].path, strs(&["crate", "AddComponent"]));
    assert_eq!(p.engine_paths[2].path, strs(&["crate", "Entity"]));
    assert_eq!(p.engine_paths[1].cr_idx, 3);
}
