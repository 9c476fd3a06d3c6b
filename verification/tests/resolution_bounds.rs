use hyperfold::ast_crate::Crate;
use hyperfold::ast_mod::{MarkType, MarkedItem, Mod, ModType, Symbol};
use hyperfold::ast_paths::Paths;
use hyperfold::resolve_check::{ends_within, tree_ends_within};

fn strs(v: &[&str]) -> Vec<String> {
    v.iter().map(|s| s.to_string()).collect()
}

fn sym(ident: &str, path: &[&str], public: bool) -> Symbol {
    Symbol { ident: ident.to_string(), path: strs(path), public }
}

fn cyclic_crate(attr: &[&str]) -> Crate {
    let mut main = Mod::new("/c".to_string(), strs(&["crate"]), ModType::Main);
    main.symbols.push(sym("X", &["crate", "X"], true));
    main.uses.push(sym("A", &["crate", "B"], true));
    main.uses.push(sym("B", &["crate", "A"], true));
    main.marked.push(MarkedItem { ty: MarkType::Struct, sym: sym("S", &["crate", "S"], true), attrs: vec![(strs(attr), Vec::new())] });
    Crate { idx: 0, name: "c".to_string(), dir: "/c".to_string(), main, deps: Vec::new() }
}

#[test]
fn bounded_resolution_ends_or_not() {
    let crates = vec![cyclic_crate(&["crate", "X"])];
    let cr = &crates[0];
    assert!(ends_within(&strs(&["crate", "X"]), cr, &cr.main, &crates, 100));
    // `A` and `B` import each other
    assert!(!ends_within(&strs(&["crate", "A"]), cr, &cr.main, &crates, 100));
    assert!(!ends_within(&strs(&["crate", "X"]), cr, &cr.main, &crates, 0));
}

#[test]
fn module_attributes_resolve_within_a_depth() {
    let paths = Paths::new(1, 2);
    let good = vec![cyclic_crate(&["crate", "X"])];
    assert!(tree_ends_within(&good[0].main, &good[0], &paths, &good, 1000));
    let bad = vec![cyclic_crate(&["crate", "A"])];
    assert!(!tree_ends_within(&bad[0].main, &bad[0], &paths, &bad, 1000));
}
