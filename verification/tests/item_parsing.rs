use hyperfold::ast_crate::Crate;
use hyperfold::ast_fn_arg::{FnArg, FnArgType};
use hyperfold::ast_items::ItemsCrate;
use hyperfold::ast_mod::{MarkType, MarkedItem, Mod, ModType, Symbol};
use hyperfold::ast_paths::Paths;
use hyperfold::ast_resolve::{resolve_path, Path};
use hyperfold::mod_visit::{ItemSource, ModBody, UseSource};

fn strs(v: &[&str]) -> Vec<String> {
    v.iter().map(|s| s.to_string()).collect()
}

fn sym(ident: &str, path: &[&str], public: bool) -> Symbol {
    Symbol { ident: ident.to_string(), path: strs(path), public }
}

fn marked(ty: MarkType, ident: &str, path: &[&str], attrs: Vec<(Vec<String>, Vec<String>)>) -> MarkedItem {
    MarkedItem { ty, sym: sym(ident, path, true), attrs }
}

fn attr(path: &[&str], args: &[&str]) -> (Vec<String>, Vec<String>) {
    (strs(path), strs(args))
}

fn macros_crate() -> Crate {
    let mut main = Mod::new("/m".to_string(), strs(&["crate"]), ModType::Lib);
    for name in ["component", "global", "event", "system"] {
        main.symbols.push(sym(name, &["crate", name], true));
    }
    Crate { idx: 1, name: "macros".to_string(), dir: "/m".to_string(), main, deps: Vec::new() }
}

fn pos_arg() -> FnArg {
    FnArg {
        ty: FnArgType::Path(Path { cr_idx: 0, path: strs(&["Pos"]) }),
        ref_cnt: 1,
        mutable: false,
        text: "&Pos".to_string(),
    }
}

fn game_crate() -> Crate {
    let mut main = Mod::new("/g".to_string(), strs(&["crate"]), ModType::Main);
    main.symbols.push(sym("Pos", &["crate", "Pos"], true));
    main.uses.push(sym("component", &["macros", "component"], false));
    main.marked.push(marked(MarkType::Struct, "Pos", &["crate", "Pos"], vec![attr(&["component"], &["Dummy"])]));
    main.marked.push(marked(
        MarkType::Struct,
        "E1",
        &["crate", "E1"],
        vec![attr(&["macros", "event"], &[]), attr(&["macros", "global"], &["Const"])],
    ));
    main.marked.push(marked(
        MarkType::Fn { args: vec![pos_arg()] },
        "run",
        &["crate", "run"],
        vec![attr(&["derive"], &[]), attr(&["macros", "system"], &["Init"])],
    ));
    let mut sub = Mod::new("/g".to_string(), strs(&["crate", "sub"]), ModType::Internal);
    sub.uses.push(sym("*", &["macros"], false));
    sub.marked.push(marked(MarkType::Struct, "G", &["crate", "sub", "G"], vec![attr(&["global"], &[])]));
    main.mods.push(sub);
    Crate { idx: 0, name: "game".to_string(), dir: "/g".to_string(), main, deps: vec![(1, "macros".to_string())] }
}

#[test]
fn paths_resolve_through_imports_and_dependencies() {
    let crates = vec![game_crate(), macros_crate()];
    let game = &crates[0];
    let via_use = resolve_path(strs(&["component"]), game, &game.main, &crates);
    match via_use {
        Ok(p) => {
            assert_eq!(p.cr_idx, 1);
            assert_eq!(p.path, strs(&["crate", "component"]));
        }
        Err(_) => panic!("expected the import to resolve"),
    }
    let via_dep = resolve_path(strs(&["macros", "system"]), game, &game.main, &crates);
    assert!(matches!(via_dep, Ok(ref p) if p.cr_idx == 1 && p.path == strs(&["crate", "system"])));
    let via_glob = resolve_path(strs(&["global"]), game, &game.main.mods[0], &crates);
    assert!(matches!(via_glob, Ok(ref p) if p.cr_idx == 1 && p.path == strs(&["crate", "global"])));
    let unknown = resolve_path(strs(&["nothing", "here"]), game, &game.main, &crates);
    assert!(matches!(unknown, Err(ref p) if p.cr_idx == 0 && p.path == strs(&["nothing", "here"])));
}

#[test]
fn argument_paths_get_resolved() {
    let crates = vec![game_crate(), macros_crate()];
    let game = &crates[0];
    let mut a = FnArg {
        ty: FnArgType::SContainer(Path { cr_idx: 0, path: strs(&["macros", "event"]) }, Box::new(pos_arg())),
        ref_cnt: 0,
        mutable: true,
        text: "x".to_string(),
    };
    a.resolve_paths(game, &game.main, &crates);
    match &a.ty {
        FnArgType::SContainer(p, inner) => {
            assert_eq!((p.cr_idx, p.path.clone()), (1, strs(&["crate", "event"])));
            match &inner.ty {
                FnArgType::Path(q) => assert_eq!((q.cr_idx, q.path.clone()), (0, strs(&["crate", "Pos"]))),
                _ => panic!("inner argument changed kind"),
            }
            assert_eq!(inner.text, "&Pos");
        }
        _ => panic!("argument changed kind"),
    }
    assert_eq!((a.ref_cnt, a.mutable, a.text.as_str()), (0, true, "x"));
}

#[test]
fn engine_items_of_a_crate() {
    let crates = vec![game_crate(), macros_crate()];
    let paths = Paths::new(2, 1);
    let mut items = ItemsCrate::new();
    items.parse_crate(&crates[0], &paths, &crates);
    assert_eq!(items.cr_idx, 0);
    assert_eq!(items.cr_name, "game");
    assert_eq!(items.dir, "/g");
    assert_eq!(items.dependencies.len(), 1);
    assert_eq!((items.dependencies[0].cr_idx, items.dependencies[0].cr_alias.as_str()), (1, "macros"));

    assert_eq!(items.components.len(), 1);
    assert_eq!(items.components[0].path.path, strs(&["crate", "Pos"]));
    assert!(items.components[0].args.is_dummy);

    assert_eq!(items.events.len(), 1);
    assert_eq!(items.events[0].path.path, strs(&["crate", "E1"]));

    // the event struct's second attribute makes it a global too; the entry
    // crate gets the two managers last
    assert_eq!(items.globals.len(), 4);
    assert_eq!(items.globals[0].path.path, strs(&["crate", "E1"]));
    assert!(items.globals[0].args.is_const);
    assert_eq!(items.globals[1].path.path, strs(&["crate", "sub", "G"]));
    assert!(!items.globals[1].args.is_const);
    assert_eq!(items.globals[2].path.path, strs(&["crate", "_engine", "CFoo"]));
    assert_eq!(items.globals[3].path.path, strs(&["crate", "_engine", "EFoo"]));

    assert_eq!(items.systems.len(), 1);
    let s = &items.systems[0];
    assert_eq!((s.path.cr_idx, s.path.path.clone()), (0, strs(&["crate", "run"])));
    assert!(s.attr_args.is_init);
    assert_eq!(s.args.len(), 1);
    match &s.args[0].ty {
        FnArgType::Path(p) => assert_eq!((p.cr_idx, p.path.clone()), (0, strs(&["crate", "Pos"]))),
        _ => panic!("system argument changed kind"),
    }
}

#[test]
fn other_crates_get_no_managers() {
    let mut game = game_crate();
    game.idx = 3;
    let crates = vec![game, macros_crate()];
    let paths = Paths::new(2, 1);
    let mut items = ItemsCrate::new();
    items.parse_mod(&crates[0], &crates[0].main, &paths, &crates);
    assert_eq!(items.globals.len(), 2);
    assert_eq!(items.globals[0].path.cr_idx, 3);
    let mut whole = ItemsCrate::new();
    whole.parse_crate(&crates[0], &paths, &crates);
    assert_eq!(whole.globals.len(), 2);
}

#[test]
fn module_items_and_imports() {
    let file_mod = Mod::new("/g/f".to_string(), strs(&["crate", "file_mod"]), ModType::File);
    let items = vec![
        ItemSource::Use(
            false,
            UseSource::Path(
                "macros".to_string(),
                Box::new(UseSource::Group(vec![
                    UseSource::Name("component".to_string()),
                    UseSource::Path("a".to_string(), Box::new(UseSource::Name("b".to_string()))),
                    UseSource::Rename("c".to_string(), "d".to_string()),
                    UseSource::Glob,
                ])),
            ),
        ),
        ItemSource::Named("Pos".to_string(), true),
        ItemSource::Mod(
            "sub".to_string(),
            false,
            ModBody::Inline(vec![
                ItemSource::Named("X".to_string(), true),
                ItemSource::Use(true, UseSource::Path("super".to_string(), Box::new(UseSource::Name("Pos".to_string())))),
            ]),
        ),
        ItemSource::Other,
        ItemSource::Mod("file_mod".to_string(), true, ModBody::File(file_mod)),
    ];
    let mut m = Mod::new("/g".to_string(), strs(&["crate"]), ModType::Main);
    m.visit_file(items);

    let syms: Vec<(String, Vec<String>, bool)> = m.symbols.iter().map(|s| (s.ident.clone(), s.path.clone(), s.public)).collect();
    assert_eq!(
        syms,
        vec![
            ("Pos".to_string(), strs(&["crate", "Pos"]), true),
            ("sub".to_string(), strs(&["crate", "sub"]), false),
            ("file_mod".to_string(), strs(&["crate", "file_mod"]), true),
        ]
    );
    // segments named inside a group stay named for the trees after them
    let uses: Vec<(String, Vec<String>, bool)> = m.uses.iter().map(|s| (s.ident.clone(), s.path.clone(), s.public)).collect();
    assert_eq!(
        uses,
        vec![
            ("component".to_string(), strs(&["macros", "component"]), false),
            ("b".to_string(), strs(&["macros", "a", "b"]), false),
            ("d".to_string(), strs(&["macros", "a", "c"]), false),
            ("*".to_string(), strs(&["macros", "a"]), false),
        ]
    );
    assert_eq!(m.mods.len(), 2);
    let sub = &m.mods[0];
    assert_eq!(sub.ty, ModType::Internal);
    assert_eq!(sub.path, strs(&["crate", "sub"]));
    assert_eq!(sub.dir, "/g");
    assert_eq!(sub.symbols.len(), 1);
    assert_eq!(sub.symbols[0].path, strs(&["crate", "sub", "X"]));
    assert_eq!(sub.uses.len(), 1);
    assert_eq!((sub.uses[0].ident.as_str(), sub.uses[0].path.clone(), sub.uses[0].public), ("Pos", strs(&["crate", "Pos"]), true));
    assert_eq!(m.mods[1].ty, ModType::File);
    assert_eq!(m.mods[1].dir, "/g/f");
}
