use hyperfold::codegen::Codegen;
use hyperfold::entry_code::{entry_text, FrameLoop};
use hyperfold::decoder::Decoder;
use hyperfold::dependency::Dependency;

fn strs(v: &[&str]) -> Vec<String> {
    v.iter().map(|s| s.to_string()).collect()
}

fn sample() -> Decoder {
    let text = strs(&[
        "comps::A,comps::B;",
        "_engine::CFoo,_engine::EFoo;G",
        ";",
        "sys(c0_0);",
        "/p/entry(dep:1);/p/dep()",
        "_engine::AddComponent,_engine::AddEvent;dep::_engine::AddComponent,dep::_engine::AddEvent",
        "0_0,0_1,1_0,1_1,1_2,1_3,1_4,1_5",
        "crate;dep",
        "1",
    ])
    .join("\n");
    Decoder::new(&text)
}

#[test]
fn namespace_code_of_a_crate() {
    let d = sample();
    let deps = vec![vec![Dependency { cr_idx: 1, alias: "dep".to_string() }], vec![]];
    assert_eq!(
        d.codegen_dep(0, &deps),
        "pub use dep;pub trait AddComponent: _engine::AddComponent<crate::comps::A> + _engine::AddComponent<crate::comps::B> + dep::_engine::AddComponent {}pub trait AddEvent: dep::_engine::AddEvent {}"
    );
    assert_eq!(d.codegen_dep(1, &deps), "pub trait AddComponent {}pub trait AddEvent {}");
}

#[test]
fn code_by_crate_directory() {
    let d = sample();
    match d.codegen("/p/dep") {
        Some((1, Codegen::Dep(code))) => assert_eq!(code, "pub trait AddComponent {}pub trait AddEvent {}"),
        _ => panic!("expected the dependency crate's namespace code"),
    }
    assert!(d.codegen("/p/elsewhere").is_none());
    let e = match d.codegen("/p/entry") {
        Some((0, Codegen::Entry(e))) => e,
        _ => panic!("expected the entry crate's code"),
    };
    assert!(e.deps_code.starts_with("pub use dep;"));
    assert_eq!(e.crate_paths, strs(&["crate", "dep"]));
    assert_eq!(e.crate_paths_post, strs(&["dep", "crate"]));
    assert_eq!(e.engine_cr_path, "dep");
    assert_eq!(e.crate_c_tys, vec![strs(&["crate::comps::A", "crate::comps::B"]), vec![]]);
    assert_eq!(e.c_tys, strs(&["crate::comps::A", "crate::comps::B"]));
    assert_eq!(e.c_vars, strs(&["c0_0", "c0_1"]));
    assert_eq!(e.g_tys, strs(&["crate::_engine::CFoo", "crate::_engine::EFoo", "dep::G"]));
    assert_eq!(e.g_vars, strs(&["g0_0", "g0_1", "g1_0"]));
    assert!(e.e_tys.is_empty() && e.e_vars.is_empty());
    assert_eq!(e.engine_trait_paths, strs(&["_engine::AddComponent", "_engine::AddEvent"]));
    assert_eq!(e.engine_globals, strs(&["g0_0", "g0_1", "g1_0", "g1_1", "g1_2", "g1_3", "g1_4", "g1_5"]));
    assert_eq!(e.entity_trash_path, "dep::EntityTrash");
    assert!(e.init_systems.is_empty());
    assert_eq!(e.systems.len(), 1);
    assert_eq!(e.systems[0].name, "crate::sys");
    assert_eq!(e.systems[0].c_args, strs(&["c0_0"]));
}

#[test]
fn systems_and_paths_of_crates() {
    let d = sample();
    let s = d.get_systems(0, "crate");
    assert_eq!(s.len(), 1);
    assert_eq!(s[0].args, strs(&["c0_0"]));
    assert!(d.get_systems(1, "dep").is_empty());
    assert_eq!(d.get_dependencies().len(), 2);
    assert_eq!(d.get_dependencies()[0].0, "/p/entry");
}

fn with_lines(lines: &[&str]) -> Decoder {
    Decoder::new(&strs(lines).join("\n"))
}

#[test]
fn checked_code_by_crate_directory() {
    let d = sample();
    match d.try_codegen("/p/dep") {
        Some((1, Codegen::Dep(code))) => assert_eq!(code, "pub trait AddComponent {}pub trait AddEvent {}"),
        _ => panic!("expected the dependency crate's namespace code"),
    }
    match d.try_codegen("/p/entry") {
        Some((0, Codegen::Entry(e))) => {
            assert_eq!(e.crate_paths_post, strs(&["dep", "crate"]));
            assert_eq!(e.entity_trash_path, "dep::EntityTrash");
        },
        _ => panic!("expected the entry crate's code"),
    }
    assert!(d.try_codegen("/p/elsewhere").is_none());
}

#[test]
fn checked_code_refuses_a_dependency_cycle() {
    let d = with_lines(&[
        "comps::A,comps::B;",
        "_engine::CFoo,_engine::EFoo;G",
        ";",
        "sys(c0_0);",
        "/p/entry(dep:1);/p/dep(entry:0)",
        "_engine::AddComponent,_engine::AddEvent;dep::_engine::AddComponent,dep::_engine::AddEvent",
        "0_0,0_1,1_0,1_1,1_2,1_3,1_4,1_5",
        "crate;dep",
        "1",
    ]);
    assert!(d.try_codegen("/p/entry").is_none());
    // the namespace code of the dependency does not walk the graph
    assert!(matches!(d.try_codegen("/p/dep"), Some((1, Codegen::Dep(_)))));
}

#[test]
fn checked_code_refuses_unreadable_data() {
    // a system piece that describes no system
    let bad_system = with_lines(&[
        "comps::A,comps::B;",
        "_engine::CFoo,_engine::EFoo;G",
        ";",
        "sys(;",
        "/p/entry(dep:1);/p/dep()",
        "_engine::AddComponent,_engine::AddEvent;dep::_engine::AddComponent,dep::_engine::AddEvent",
        "0_0,0_1,1_0,1_1,1_2,1_3,1_4,1_5",
        "crate;dep",
        "1",
    ]);
    assert!(bad_system.try_codegen("/p/entry").is_none());
    // the entity trash lies in a crate that has no path
    let far_global = with_lines(&[
        "comps::A,comps::B;",
        "_engine::CFoo,_engine::EFoo;G",
        ";",
        "sys(c0_0);",
        "/p/entry(dep:1);/p/dep()",
        "_engine::AddComponent,_engine::AddEvent;dep::_engine::AddComponent,dep::_engine::AddEvent",
        "0_0,0_1,1_0,7_1,1_2,1_3,1_4,1_5",
        "crate;dep",
        "1",
    ]);
    assert!(far_global.try_codegen("/p/entry").is_none());
    // a dependency line that cannot be read
    let bad_deps = with_lines(&[
        "comps::A,comps::B;",
        "_engine::CFoo,_engine::EFoo;G",
        ";",
        "sys(c0_0);",
        "/p/entry(dep);/p/dep()",
        "_engine::AddComponent,_engine::AddEvent;dep::_engine::AddComponent,dep::_engine::AddEvent",
        "0_0,0_1,1_0,1_1,1_2,1_3,1_4,1_5",
        "crate;dep",
        "1",
    ]);
    assert!(bad_deps.try_codegen("/p/entry").is_none());
}

#[test]
fn readiness_of_the_entry_and_a_dependency() {
    let d = sample();
    let deps = vec![vec![Dependency { cr_idx: 1, alias: "dep".to_string() }], vec![]];
    assert!(d.entry_ready(0, &deps));
    assert!(d.dep_code_ready(1));
    assert!(!d.dep_code_ready(2));
    // a dependency on a crate that the lines do not know
    let far = vec![vec![Dependency { cr_idx: 5, alias: "far".to_string() }], vec![]];
    assert!(!d.entry_ready(0, &far));
}

fn frame() -> FrameLoop {
    FrameLoop { setup: "SETUP;".to_string(), step: "STEP;".to_string(), report: "REPORT;".to_string() }
}

#[test]
fn entry_crate_code_text() {
    let d = sample();
    let e = match d.try_codegen("/p/entry") {
        Some((0, Codegen::Entry(e))) => e,
        _ => panic!("expected the entry crate's code"),
    };
    let t = entry_text(&e, &frame());
    assert!(t.starts_with("pub use dep;"));
    assert!(t.contains("pub struct GFoo { g0_0: crate::_engine::CFoo, g0_1: crate::_engine::EFoo, g1_0: dep::G }"));
    assert!(t.contains("g1_0: dep::G::new(),"));
    assert!(t.contains("pub struct CFoo { eids: std::collections::HashSet<dep::Entity>, c0_0: std::collections::HashMap<dep::Entity, crate::comps::A>, c0_1: std::collections::HashMap<dep::Entity, crate::comps::B>, }"));
    assert!(t.contains("impl _engine::AddComponent<crate::comps::B> for CFoo { fn add_component(&mut self, e: dep::Entity, t: crate::comps::B) { self.c0_1.insert(e, t); } }"));
    assert!(t.contains("impl dep::_engine::AddComponent for CFoo {} impl crate::_engine::AddComponent for CFoo {}"));
    assert!(t.contains("enum E {  } pub const E_LEN: usize = 0usize;"));
    assert!(t.contains("self.cfoo.remove(&mut self.gfoo.g1_1); self.cfoo.append(&mut self.gfoo.g0_0);"));
    assert!(t.contains("pub fn run(&mut self) { SETUP; while !self.gfoo.g1_2.quit { STEP; } REPORT; }"));
    assert!(t.contains("_engine::AddEvent::new_event(&mut efoo, dep::CoreRender);"));
    // the one system is served in `add_systems`
    assert!(t.contains("fn add_systems(&mut self) { let f = "));
    assert_eq!(d.try_code_text("/p/entry", &frame()), Some(t));
    assert_eq!(d.try_code_text("/p/dep", &frame()), Some("pub trait AddComponent {}pub trait AddEvent {}".to_string()));
    assert_eq!(d.try_code_text("/p/elsewhere", &frame()), None);
}
