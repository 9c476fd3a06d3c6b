use hyperfold::crate_scan::{get_crate_dependencies, get_macros_dir, select_path_deps, CrateScan, DepTarget, FoundDep, TomlDep};

fn dep(name: &str, dir: &str, path: &str) -> FoundDep {
    FoundDep { name: name.to_string(), dir: dir.to_string(), path: path.to_string() }
}

fn strs(v: &[&str]) -> Vec<String> {
    v.iter().map(|s| s.to_string()).collect()
}

#[test]
fn dependency_targets() {
    let found = vec![dep("engine", "/e", "../e"), dep("macros", "/e/macros", "../e/macros"), dep("game", "/g", "."), dep("lib", "/l", "l"), dep("lib2", "/l", "l")];
    let (targets, news) = get_crate_dependencies(&found, &"/e/macros".to_string(), &strs(&["/g"]));
    assert_eq!(
        targets,
        vec![
            (DepTarget::Crate(1), "engine".to_string()),
            (DepTarget::MacrosCrate, "macros".to_string()),
            (DepTarget::Crate(0), "game".to_string()),
            (DepTarget::Crate(2), "lib".to_string()),
            (DepTarget::Crate(3), "lib2".to_string()),
        ]
    );
    // a crate that is new twice is added twice
    assert_eq!(news, strs(&["../e", "l", "l"]));
}

#[test]
fn manifest_dependencies_by_path() {
    let entries = vec![
        TomlDep { name: "a".to_string(), is_table: true, path: Some("../a".to_string()), has_dependency: true },
        TomlDep { name: "b".to_string(), is_table: true, path: Some("../b".to_string()), has_dependency: false },
        TomlDep { name: "c".to_string(), is_table: false, path: None, has_dependency: false },
        TomlDep { name: "d".to_string(), is_table: true, path: None, has_dependency: true },
    ];
    assert_eq!(select_path_deps(&entries), vec![("a".to_string(), "../a".to_string())]);
}

#[test]
fn scanning_crates() {
    let mut scan = CrateScan::new("/g".to_string());
    assert_eq!(scan.next_crate(), Some(0));
    let news = scan.add_dependencies(&vec![dep("engine", "/e", "../e"), dep("m", "/e/m", "../e/m")], &"/e/m".to_string());
    assert_eq!(news, strs(&["../e"]));
    scan.add_crate("/e".to_string());
    assert_eq!(scan.next_crate(), Some(1));
    let news = scan.add_dependencies(&vec![dep("game", "/g", "../g")], &"/e/m".to_string());
    assert!(news.is_empty());
    assert_eq!(scan.next_crate(), None);
    let (engine, links) = scan.finish(&"/e".to_string()).unwrap();
    assert_eq!(engine, 1);
    assert_eq!(
        links,
        vec![
            vec![(1, "engine".to_string()), (2, "m".to_string())],
            vec![(0, "game".to_string())],
            vec![],
        ]
    );
    assert!(scan.finish(&"/nowhere".to_string()).is_none());
}

#[test]
fn macros_directory_inside_the_engine() {
    assert_eq!(get_macros_dir("/work/engine"), "/work/engine/macros");
    assert_eq!(get_macros_dir("/work/engine/"), "/work/engine/macros");
    assert_eq!(get_macros_dir(""), "macros");
}
