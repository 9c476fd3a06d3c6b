use hyperfold::constants::{component_var, event_var, event_variant, global_var, SEP};
use hyperfold::decoder::{parse_dep_line, Data, Decoder, DATA_LEN};
use hyperfold::text::{join_strings, parse_usize, split_char};

fn strs(v: &[&str]) -> Vec<String> {
    v.iter().map(|s| s.to_string()).collect()
}

#[test]
fn split_char_keeps_empty_pieces() {
    assert_eq!(split_char("a;b;;c", ';'), strs(&["a", "b", "", "c"]));
    assert_eq!(split_char("", ';'), strs(&[""]));
    assert_eq!(split_char(";", ';'), strs(&["", ""]));
}

#[test]
fn join_then_split_gives_pieces_back() {
    let parts = strs(&["x", "", "y::z"]);
    let joined = join_strings(&parts, ";");
    assert_eq!(joined, "x;;y::z");
    assert_eq!(split_char(&joined, ';'), parts);
}

#[test]
fn parse_usize_follows_from_str() {
    assert_eq!(parse_usize("42"), Some(42));
    assert_eq!(parse_usize("+7"), Some(7));
    assert_eq!(parse_usize("007"), Some(7));
    assert_eq!(parse_usize(""), None);
    assert_eq!(parse_usize("+"), None);
    assert_eq!(parse_usize("4a"), None);
    assert_eq!(parse_usize("-1"), None);
    assert_eq!(parse_usize("99999999999999999999999999"), None);
    assert_eq!(parse_usize(&usize::MAX.to_string()), Some(usize::MAX));
}

#[test]
fn item_variables() {
    assert_eq!(component_var(1, 2), "c1_2");
    assert_eq!(global_var(0, 10), "g0_10");
    assert_eq!(event_variant(3, 4), "e3_4");
    assert_eq!(event_var(1, 2, 3), "e1_2_3");
    assert_eq!(SEP, ";");
}

fn sample_lines() -> Vec<String> {
    strs(&[
        "comps::A,comps::B;",
        "_engine::CFoo,_engine::EFoo;G",
        ";",
        "sys(c0_0);",
        "/p/entry(dep:1);/p/dep()",
        "_engine::AddComponent,_engine::AddEvent;dep::_engine::AddComponent,dep::_engine::AddEvent",
        "0_0,0_1,1_0,1_1,1_2,1_3,1_4,1_5",
        "crate;dep",
        "1",
    ])
}

#[test]
fn decoder_reads_lines_and_entries() {
    let text = sample_lines().join("\n");
    let d = Decoder::new(&text);
    assert_eq!(d.data.len(), DATA_LEN);
    assert_eq!(d.data[0], strs(&["comps::A,comps::B", ""]));
    assert_eq!(d.data[4], strs(&["/p/entry(dep:1)", "/p/dep()"]));
    assert_eq!(d.get_crate_data(Data::Globals, 1), "G");
    assert_eq!(d.split_crate_data(Data::Components, 0, ','), strs(&["comps::A", "comps::B"]));
    assert_eq!(d.split_crate_data(Data::Components, 1, ','), Vec::<String>::new());
    assert_eq!(
        d.get_engine_globals(),
        vec![(0, 0), (0, 1), (1, 0), (1, 1), (1, 2), (1, 3), (1, 4), (1, 5)]
    );
    assert_eq!(d.get_engine_crate_index(), 1);
    assert_eq!(d.get_crate_paths(), strs(&["crate", "dep"]));
    assert_eq!(d.get_engine_trait_paths(1), strs(&["dep::_engine::AddComponent", "dep::_engine::AddEvent"]));
}

#[test]
fn decoder_needs_every_line() {
    let text = sample_lines()[..DATA_LEN - 1].join("\n");
    assert!(Decoder::from_contents(&text).is_none());
    assert!(Decoder::from_contents(&sample_lines().join("\n")).is_some());
}

#[test]
fn engine_globals_must_all_be_listed() {
    let mut lines = sample_lines();
    lines[6] = "0_0,0_1".to_string();
    let d = Decoder::new(&lines.join("\n"));
    assert!(d.try_engine_globals().is_none());
    lines[6] = "0_0,0_1,1_0,1_1,1_2,1_3,1_4,1x5".to_string();
    let d = Decoder::new(&lines.join("\n"));
    assert!(d.try_engine_globals().is_none());
    lines[8] = "x".to_string();
    let d = Decoder::new(&lines.join("\n"));
    assert_eq!(d.try_engine_crate_index(), None);
}

#[test]
fn dependency_lines() {
    let (dir, deps) = parse_dep_line("/a/b(foo:1,bar:2)").unwrap();
    assert_eq!(dir, "/a/b");
    assert_eq!(deps.len(), 2);
    assert_eq!((deps[0].cr_idx, deps[0].alias.as_str()), (1, "foo"));
    assert_eq!((deps[1].cr_idx, deps[1].alias.as_str()), (2, "bar"));
    let (dir, deps) = parse_dep_line("/x()").unwrap();
    assert_eq!(dir, "/x");
    assert!(deps.is_empty());
    assert!(parse_dep_line("/x(foo)").is_none());
    assert!(parse_dep_line("/x(foo:1").is_none());
    assert!(parse_dep_line("/x(:1)").is_none());
    assert!(parse_dep_line("/x(f:99999999999999999999999999)").is_none());
    assert!(parse_dep_line("no parens").is_none());
}

#[test]
fn decoder_dependencies() {
    let d = Decoder::new(&sample_lines().join("\n"));
    let deps = d.try_dependencies().unwrap();
    assert_eq!(deps.len(), 2);
    assert_eq!(deps[0].0, "/p/entry");
    assert_eq!(deps[0].1[0].alias, "dep");
    assert_eq!(deps[0].1[0].cr_idx, 1);
    assert_eq!(deps[1].0, "/p/dep");
    assert!(deps[1].1.is_empty());
}
