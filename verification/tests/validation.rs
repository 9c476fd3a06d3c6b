use hyperfold::ast_fn_arg::{FnArg, FnArgType};
use hyperfold::ast_item_list::ItemList;
use hyperfold::ast_items::{
    Component, ComponentMacroArgs, Dependency, Event, Global, GlobalMacroArgs, ItemsCrate, System, SystemMacroArgs,
};
use hyperfold::ast_paths::{EngineContainers, EngineGlobals, Paths};
use hyperfold::codegen_system::{System as CodegenSystem, SystemRegexes};
use hyperfold::ast_resolve::Path;
use hyperfold::ast_system::SystemValidate;
use hyperfold::ast_validate::{sort_crates, ItemData};
use hyperfold::decoder::Decoder;

fn p(cr_idx: usize, segs: &[&str]) -> Path {
    Path { cr_idx, path: segs.iter().map(|s| s.to_string()).collect() }
}

fn arg(ty: FnArgType, ref_cnt: usize, mutable: bool, text: &str) -> FnArg {
    FnArg { ty, ref_cnt, mutable, text: text.to_string() }
}

fn plain(path: Path, ref_cnt: usize, mutable: bool, text: &str) -> FnArg {
    arg(FnArgType::Path(path), ref_cnt, mutable, text)
}

fn gargs(is_const: bool) -> GlobalMacroArgs {
    GlobalMacroArgs { is_dummy: false, is_const, is_trait: false }
}

fn crate_items(cr_idx: usize) -> ItemsCrate {
    let mut c = ItemsCrate::new();
    c.cr_idx = cr_idx;
    c
}

/// The engine is crate 1, the macros crate 2; crate 0 has components `Pos`
/// and `Vel`, globals `Time` (constant) and `Score`, and event `Hit`.
fn world() -> (Paths, Vec<ItemsCrate>, Vec<Global>) {
    let paths = Paths::new(1, 2);
    let mut c0 = crate_items(0);
    c0.components.push(Component { path: p(0, &["crate", "Pos"]), args: ComponentMacroArgs { is_dummy: false } });
    c0.components.push(Component { path: p(0, &["crate", "Vel"]), args: ComponentMacroArgs { is_dummy: false } });
    c0.globals.push(Global { path: p(0, &["crate", "Time"]), args: gargs(true) });
    c0.globals.push(Global { path: p(0, &["crate", "Score"]), args: gargs(false) });
    c0.events.push(Event { path: p(0, &["crate", "Hit"]) });
    c0.dependencies.push(Dependency { cr_idx: 1, cr_alias: "engine".to_string() });
    let c1 = crate_items(1);
    let c2 = crate_items(2);
    let traits = vec![
        Global { path: paths.get_global(EngineGlobals::CFoo).clone(), args: GlobalMacroArgs { is_dummy: false, is_const: false, is_trait: true } },
        Global { path: paths.get_global(EngineGlobals::EFoo).clone(), args: GlobalMacroArgs { is_dummy: false, is_const: false, is_trait: true } },
    ];
    (paths, vec![c0, c1, c2], traits)
}

#[test]
fn arguments_to_data() {
    let (paths, crates, traits) = world();
    let items = ItemList::from(&crates, &traits);
    let mut v = SystemValidate::new();
    let eid = plain(p(1, &["crate", "Entity"]), 1, false, "&Entity");
    assert_eq!(eid.validate_to_data(&paths, &items, &mut v), "id");
    let pos = plain(p(0, &["crate", "Pos"]), 1, true, "&mut Pos");
    assert_eq!(pos.validate_to_data(&paths, &items, &mut v), "c0_0");
    // traits come before the globals of the entry crate
    let score = plain(p(0, &["crate", "Score"]), 1, true, "&mut Score");
    assert_eq!(score.validate_to_data(&paths, &items, &mut v), "g0_3");
    let hit = plain(p(0, &["crate", "Hit"]), 1, false, "&Hit");
    assert_eq!(hit.validate_to_data(&paths, &items, &mut v), "e0_0");
    // a trait argument is matched by its path segments alone
    let tr = arg(FnArgType::Trait(p(7, &["crate", "_engine", "EFoo"])), 1, true, "&mut dyn AddEvent");
    assert_eq!(tr.validate_to_data(&paths, &items, &mut v), "g0_1");
    assert!(v.errs.is_empty());
    assert!(v.has_eid && v.has_event);
    assert_eq!(v.components, vec![(0, 0)]);
    assert_eq!(v.globals, vec![(0, 3), (0, 1)]);
}

#[test]
fn argument_errors() {
    let (paths, crates, traits) = world();
    let items = ItemList::from(&crates, &traits);
    let mut v = SystemValidate::new();
    // a constant global taken mutably, by value
    let time = plain(p(0, &["crate", "Time"]), 0, true, "Time");
    assert_eq!(time.validate_to_data(&paths, &items, &mut v), "g0_2");
    assert_eq!(
        v.errs,
        vec![
            "Type should be taken by single reference: \"Time\"".to_string(),
            "Type should be taken immutably: \"Time\"".to_string(),
        ]
    );
    let again = plain(p(0, &["crate", "Time"]), 1, false, "&Time");
    again.validate_to_data(&paths, &items, &mut v);
    assert_eq!(v.errs[2], "Duplicate global: &Time");
    let unknown = plain(p(0, &["crate", "Nope"]), 1, false, "&Nope");
    assert_eq!(unknown.validate_to_data(&paths, &items, &mut v), "");
    assert_eq!(v.errs[3], "Argument: \"&Nope\" is not a known type");
}

#[test]
fn labels_and_containers_to_data() {
    let (paths, crates, traits) = world();
    let items = ItemList::from(&crates, &traits);
    let mut v = SystemValidate::new();
    let pos = plain(p(0, &["crate", "Pos"]), 0, false, "Pos");
    let vel = plain(p(0, &["crate", "Vel"]), 0, false, "Vel");
    let ors = arg(FnArgType::Container(p(1, &["crate", "OrLabels"]), vec![pos, vel]), 0, false, "OrLabels<(Pos, Vel)>");
    assert_eq!(ors.validate_to_data(&paths, &items, &mut v), "l|c0_0-c0_1");
    let hit = plain(p(0, &["crate", "Hit"]), 0, false, "Hit");
    let one = arg(FnArgType::SContainer(p(1, &["crate", "Label"]), Box::new(hit)), 0, false, "Label<Hit>");
    assert_eq!(one.validate_to_data(&paths, &items, &mut v), "l&");
    assert_eq!(v.errs, vec!["Label expects Component type, found: Hit".to_string()]);
    let eid = plain(p(1, &["crate", "Entity"]), 1, false, "&Entity");
    let vel = plain(p(0, &["crate", "Vel"]), 1, true, "&mut Vel");
    let c = arg(FnArgType::Container(p(1, &["crate", "Container"]), vec![eid, vel]), 0, false, "Container<..>");
    assert_eq!(c.validate_to_data(&paths, &items, &mut v), "vid-mc0_1");
    assert!(v.has_vec);
    assert_eq!(v.errs.len(), 1);
}

#[test]
fn system_checks() {
    let (paths, crates, traits) = world();
    let items = ItemList::from(&crates, &traits);
    let sys = System {
        path: p(0, &["crate", "systems", "run"]),
        args: vec![plain(p(1, &["crate", "Entity"]), 1, false, "&Entity")],
        attr_args: SystemMacroArgs { is_init: false },
    };
    let errs = sys.validation_errors(&paths, &items);
    assert_eq!(
        errs,
        vec![
            "Cannot take entity ID without any entity components".to_string(),
            "Non-init systems must specify and event".to_string(),
        ]
    );
    assert_eq!(
        sys.error_report(&errs),
        "\n\nIn system: \"crate::systems::run()\"\nCannot take entity ID without any entity components\nNon-init systems must specify and event\n\n"
    );
    let ok = System {
        path: p(0, &["crate", "systems", "run"]),
        args: vec![
            plain(p(0, &["crate", "Pos"]), 1, false, "&Pos"),
            plain(p(0, &["crate", "Hit"]), 1, false, "&Hit"),
        ],
        attr_args: SystemMacroArgs { is_init: false },
    };
    assert!(ok.validation_errors(&paths, &items).is_empty());
    assert_eq!(ok.validate_to_data(&paths, &crates, &items), "systems::run(c0_0:e0_0)");
    let init = System {
        path: p(0, &["crate", "setup"]),
        args: vec![plain(p(0, &["crate", "Score"]), 1, true, "&mut Score")],
        attr_args: SystemMacroArgs { is_init: true },
    };
    assert_eq!(init.validate_to_data(&paths, &crates, &items), "setup(g0_3)i");
    let bad_init = System {
        path: p(0, &["crate", "setup"]),
        args: vec![plain(p(0, &["crate", "Hit"]), 1, false, "&Hit")],
        attr_args: SystemMacroArgs { is_init: true },
    };
    assert_eq!(bad_init.validation_errors(&paths, &items), vec!["Init systems may only take Globals".to_string()]);
}

#[test]
fn crates_are_sorted_by_index() {
    let mut cs = vec![crate_items(2), crate_items(0), crate_items(1), crate_items(0)];
    cs[1].cr_name = "first".to_string();
    cs[3].cr_name = "second".to_string();
    sort_crates(&mut cs);
    let idx: Vec<usize> = cs.iter().map(|c| c.cr_idx).collect();
    assert_eq!(idx, vec![0, 0, 1, 2]);
    assert_eq!(cs[0].cr_name, "first");
    assert_eq!(cs[1].cr_name, "second");
}

#[test]
fn item_data_lines() {
    let (paths, mut crates, _) = world();
    // the engine crate declares the engine globals
    for name in ["Entity", "EntityTrash", "Event", "RenderSystem", "Camera", "Screen"] {
        crates[1].globals.push(Global { path: p(1, &["crate", name]), args: gargs(false) });
    }
    crates[1].cr_name = "engine".to_string();
    crates[2].cr_name = "macros".to_string();
    crates[0].dir = "/game".to_string();
    crates[1].dir = "/engine".to_string();
    crates[2].dir = "/macros".to_string();
    crates[0].dependencies.push(Dependency { cr_idx: 2, cr_alias: "macros".to_string() });
    crates[2].dependencies.push(Dependency { cr_idx: 1, cr_alias: "engine".to_string() });
    crates[0].systems.push(System {
        path: p(0, &["crate", "tick"]),
        args: vec![
            plain(p(0, &["crate", "Vel"]), 1, true, "&mut Vel"),
            plain(p(0, &["crate", "Hit"]), 1, false, "&Hit"),
        ],
        attr_args: SystemMacroArgs { is_init: false },
    });
    crates.reverse();
    let data = ItemData::validate(&paths, &mut crates);
    assert_eq!(crates[0].cr_idx, 0);
    assert_eq!(data.data.len(), 9);
    assert_eq!(data.data[0], "Pos,Vel;;");
    assert_eq!(data.data[1], "_engine::CFoo,_engine::EFoo,Time,Score;Entity,EntityTrash,Event,RenderSystem,Camera,Screen;");
    assert_eq!(data.data[2], "Hit;;");
    assert_eq!(data.data[3], "tick(c0_1:e0_0);;");
    assert_eq!(data.data[4], "/game(engine:1,macros:2);/engine();/macros(engine:1)");
    // each crate names the engine traits through its dependencies
    assert_eq!(
        data.data[5],
        "engine::_engine::AddComponent,engine::_engine::AddEvent;crate::_engine::AddComponent,crate::_engine::AddEvent;engine::_engine::AddComponent,engine::_engine::AddEvent"
    );
    assert_eq!(data.data[6], "0_0,0_1,1_0,1_1,1_2,1_3,1_4,1_5");
    assert_eq!(data.data[7], "crate;engine;macros");
    assert_eq!(data.data[8], "1");
    // what is written is what the decoder reads
    let d = Decoder::new(&data.file_text());
    assert_eq!(d.data[4], vec!["/game(engine:1,macros:2)".to_string(), "/engine()".to_string(), "/macros(engine:1)".to_string()]);
    assert_eq!(d.get_engine_globals()[3], (1, 1));
}

#[test]
fn written_system_data_reads_back() {
    let (paths, crates, traits) = world();
    let items = ItemList::from(&crates, &traits);
    let label = arg(
        FnArgType::Container(paths.get_container(EngineContainers::OrLabels).clone(), vec![plain(p(0, &["crate", "Vel"]), 0, false, "Vel")]),
        0,
        false,
        "OrLabels<(Vel,)>",
    );
    let sys = System {
        path: p(0, &["crate", "run"]),
        args: vec![plain(p(0, &["crate", "Pos"]), 1, false, "&Pos"), label, plain(p(0, &["crate", "Hit"]), 1, false, "&Hit")],
        attr_args: SystemMacroArgs { is_init: false },
    };
    assert!(sys.validation_errors(&paths, &items).is_empty());
    let data = sys.validate_to_data(&paths, &crates, &items);
    assert_eq!(data, "run(c0_0:l|c0_1:e0_0)");
    let r = SystemRegexes::new();
    assert_eq!(r.parse_data(&data), Some(("run".to_string(), "c0_0:l|c0_1:e0_0".to_string(), false)));
    let read = CodegenSystem::parse("crate", &data, &r);
    assert_eq!(read.args, vec!["c0_0".to_string(), "std::marker::PhantomData".to_string(), "e".to_string()]);
    assert_eq!(read.or_labels, vec![vec!["c0_1".to_string()]]);
    // a system in a submodule is written with `::` in its name, which the reader refuses
    let nested = System { path: p(0, &["crate", "systems", "run"]), args: sys.args, attr_args: sys.attr_args };
    let nested_data = nested.validate_to_data(&paths, &crates, &items);
    assert_eq!(r.parse_data(&nested_data), None);
}

/// The crates of `item_data_lines` before validation: the engine crate
/// declares the engine globals and every crate reaches the others.
fn engine_world() -> (Paths, Vec<ItemsCrate>) {
    let (paths, mut crates, _) = world();
    for name in ["Entity", "EntityTrash", "Event", "RenderSystem", "Camera", "Screen"] {
        crates[1].globals.push(Global { path: p(1, &["crate", name]), args: gargs(false) });
    }
    crates[1].cr_name = "engine".to_string();
    crates[2].cr_name = "macros".to_string();
    crates[0].dir = "/game".to_string();
    crates[1].dir = "/engine".to_string();
    crates[2].dir = "/macros".to_string();
    crates[0].dependencies.push(Dependency { cr_idx: 2, cr_alias: "macros".to_string() });
    crates[2].dependencies.push(Dependency { cr_idx: 1, cr_alias: "engine".to_string() });
    crates[0].systems.push(System {
        path: p(0, &["crate", "tick"]),
        args: vec![
            plain(p(0, &["crate", "Vel"]), 1, true, "&mut Vel"),
            plain(p(0, &["crate", "Hit"]), 1, false, "&Hit"),
        ],
        attr_args: SystemMacroArgs { is_init: false },
    });
    crates.reverse();
    (paths, crates)
}

#[test]
fn checked_validation_writes_the_same_lines() {
    let (paths, mut a) = engine_world();
    let (_, mut b) = engine_world();
    let checked = ItemData::try_validate(&paths, &mut a).expect("the crates pass the checks");
    let plain_data = ItemData::validate(&paths, &mut b);
    assert_eq!(checked.data, plain_data.data);
    assert_eq!(a[0].cr_idx, 0);
    assert_eq!(checked.data[3], "tick(c0_1:e0_0);;");
}

#[test]
fn checked_validation_refuses_a_failing_system() {
    let (paths, mut crates) = engine_world();
    // after the reversal the entry crate is last
    crates[2].systems.push(System {
        path: p(0, &["crate", "draw"]),
        args: vec![plain(p(0, &["crate", "Pos"]), 2, false, "&&Pos")],
        attr_args: SystemMacroArgs { is_init: false },
    });
    assert!(ItemData::try_validate(&paths, &mut crates).is_none());
    // the crates are sorted all the same
    assert_eq!(crates[0].cr_idx, 0);
}

#[test]
fn checked_validation_refuses_the_separator() {
    let (paths, mut crates) = engine_world();
    crates[0].dir = "/mac;ros".to_string();
    assert!(ItemData::try_validate(&paths, &mut crates).is_none());
}

#[test]
fn checked_validation_refuses_an_unreachable_crate() {
    let (paths, mut crates) = engine_world();
    // the macros crate no longer depends on the engine crate
    crates[0].dependencies.clear();
    assert!(ItemData::try_validate(&paths, &mut crates).is_none());
}

#[test]
fn checked_validation_refuses_a_missing_engine_global() {
    let (paths, mut crates) = engine_world();
    crates[1].globals.pop();
    assert!(ItemData::try_validate(&paths, &mut crates).is_none());
}
