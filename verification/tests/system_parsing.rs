use hyperfold::codegen_system::{ContainerArg, FnArg, LabelType, System, SystemRegexes};
use hyperfold::ident::ident_error_of;

fn strs(v: &[&str]) -> Vec<String> {
    v.iter().map(|s| s.to_string()).collect()
}

#[test]
fn system_data_parts() {
    let r = SystemRegexes::new();
    assert_eq!(
        r.parse_data("foo(c0_1:g1_2)i"),
        Some(("foo".to_string(), "c0_1:g1_2".to_string(), true))
    );
    assert_eq!(r.parse_data("foo()"), Some(("foo".to_string(), String::new(), false)));
    assert_eq!(r.parse_data("sys_2(id)"), Some(("sys_2".to_string(), "id".to_string(), false)));
    // names are word characters only
    assert_eq!(r.parse_data("a::b()"), None);
    assert_eq!(r.parse_data("a-b()"), None);
    assert_eq!(r.parse_data("()"), None);
    // arguments must be tokens
    assert_eq!(r.parse_data("foo(x)"), None);
    assert_eq!(r.parse_data("foo(c0_1:)"), None);
    assert_eq!(r.parse_data("foo(c0_1"), None);
    assert_eq!(r.parse_data("foo(c0_1)x"), None);
}

#[test]
fn unicode_word_and_digit_classes() {
    let r = SystemRegexes::new();
    // `\w` and `\d` of the regex crate are Unicode classes
    assert_eq!(r.parse_data("créer()"), Some(("créer".to_string(), String::new(), false)));
    assert!(r.parse_arg("c\u{0663}_1").is_some());
    assert!(r.parse_arg("cx_1").is_none());
}

#[test]
fn argument_kinds() {
    let r = SystemRegexes::new();
    assert!(matches!(r.parse_arg("id"), Some(FnArg::EntityId)));
    assert!(matches!(r.parse_arg("c0_1"), Some(FnArg::Component(c)) if c == "c0_1"));
    assert!(matches!(r.parse_arg("g2_3"), Some(FnArg::Global(g)) if g == "g2_3"));
    assert!(matches!(r.parse_arg("e1_0"), Some(FnArg::Event(e)) if e == "e1_0"));
    match r.parse_arg("l&c0_1-c0_2") {
        Some(FnArg::Label(LabelType::And, ls)) => assert_eq!(ls, strs(&["c0_1", "c0_2"])),
        other => panic!("unexpected {:?}", other),
    }
    match r.parse_arg("l!|c1_1") {
        Some(FnArg::Label(LabelType::Nor, ls)) => assert_eq!(ls, strs(&["c1_1"])),
        other => panic!("unexpected {:?}", other),
    }
    match r.parse_arg("l!&c1_1") {
        Some(FnArg::Label(LabelType::Nand, _)) => {}
        other => panic!("unexpected {:?}", other),
    }
    // the NAND token that the validator writes does not fit the label grammar
    assert!(r.parse_arg("l|&c0_1").is_none());
    match r.parse_arg("vmc0_1-id-c0_2") {
        Some(FnArg::Container(items)) => {
            assert_eq!(items.len(), 3);
            assert!(matches!(&items[0], ContainerArg::Component(c, true) if c == "c0_1"));
            assert!(matches!(&items[1], ContainerArg::EntityId));
            assert!(matches!(&items[2], ContainerArg::Component(c, false) if c == "c0_2"));
        }
        other => panic!("unexpected {:?}", other),
    }
    assert!(r.parse_arg("x").is_none());
    assert!(r.parse_arg("c0").is_none());
    assert!(r.parse_arg("v").is_none());
}

#[test]
fn label_kind_from_data() {
    assert_eq!(LabelType::from("l&c0_1"), LabelType::And);
    assert_eq!(LabelType::from("l|c0_1"), LabelType::Or);
    assert_eq!(LabelType::from("l!&c0_1"), LabelType::Nand);
    assert_eq!(LabelType::from("l!|c0_1"), LabelType::Nor);
    assert_eq!(LabelType::from("lll&"), LabelType::And);
}

#[test]
fn system_from_data() {
    let r = SystemRegexes::new();
    let s = System::try_parse("crate::m", "foo(id:c0_1:g0_2:e0_0:l|c0_2-c0_3)", &r).unwrap();
    assert_eq!(s.name, "crate::m::foo");
    assert_eq!(s.args, strs(&["id", "c0_1", "&mut gfoo.g0_2", "e", "std::marker::PhantomData"]));
    assert_eq!(s.c_args, strs(&["c0_1"]));
    assert_eq!(s.g_args, strs(&["g0_2"]));
    assert_eq!(s.event, "e");
    assert_eq!(s.or_labels.len(), 1);
    let mut o = s.or_labels[0].clone();
    o.sort();
    assert_eq!(o, strs(&["c0_2", "c0_3"]));
    assert!(s.and_labels.is_empty());
    assert!(!s.is_init);
    assert!(!s.is_vec);
}

#[test]
fn init_system_from_data() {
    let r = SystemRegexes::new();
    let s = System::parse("crate", "setup(g0_0)i", &r);
    assert!(s.is_init);
    assert_eq!(s.args, strs(&["&mut gfoo.g0_0"]));
}

#[test]
fn container_system_from_data() {
    let r = SystemRegexes::new();
    let s = System::try_parse("crate", "f(c0_9:vid-mc0_1:e0_0)", &r).unwrap();
    assert!(s.is_vec);
    // the container's items replace the components iterated over
    assert_eq!(s.c_args, strs(&["eids", "c0_1"]));
    assert_eq!(s.v_types.len(), 2);
    assert_eq!(s.args, strs(&["c0_9", "v", "e"]));
}

#[test]
fn label_sets_are_simplified() {
    let r = SystemRegexes::new();
    // an OR set that meets the components always holds and goes; AND loses
    // the components
    let s = System::try_parse("crate", "f(c0_1:l|c0_1-c0_2:l&c0_1-c0_5:l!|c0_7:l!&c0_7-c0_8:e0_0)", &r).unwrap();
    assert!(s.or_labels.is_empty());
    assert_eq!(s.and_labels, strs(&["c0_5"]));
    assert_eq!(s.nor_labels, strs(&["c0_7"]));
    // the NAND set meets NOR, so it always holds
    assert!(s.nand_labels.is_empty());
    let s = System::try_parse("crate", "f(c0_1:l!&c0_1-c0_3:e0_0)", &r).unwrap();
    assert_eq!(s.nand_labels, vec![strs(&["c0_3"])]);
}

#[test]
fn unsatisfiable_labels_are_refused() {
    let r = SystemRegexes::new();
    let e = System::try_parse("crate", "f(c0_1:l!|c0_1)", &r).err().unwrap();
    assert_eq!(
        e,
        "A label is in both AND and NOR. The label condition cannot be satisfied\nNote that all components are implicitly AND labels"
    );
    let e = System::try_parse("crate", "f(l|c0_2:l!|c0_2)", &r).err().unwrap();
    assert_eq!(e, "All labels in at least one OR set are also in NOR. The label condition cannot be satisfied");
    let e = System::try_parse("crate", "f(c0_2:l!&c0_2)", &r).err().unwrap();
    assert_eq!(
        e,
        "All labels in at least on NAND set are also in AND. The label condition cannot be satisfied\nNote that all components are implicitly AND labels"
    );
    let e = System::try_parse("crate", "f(", &r).err().unwrap();
    assert_eq!(e, "Could not parse system: f(");
}

#[test]
fn system_names_must_be_identifiers() {
    let r = SystemRegexes::new();
    assert_eq!(System::try_parse("crate", "9f(c0_1)", &r).err().unwrap(), "\"9f\" is not a valid Ident");
    assert_eq!(System::try_parse("crate", "123(c0_1)", &r).err().unwrap(), "Ident cannot be a number; use Literal instead");
    assert!(System::try_parse("crate", "_f(c0_1)", &r).is_ok());
    assert!(System::try_parse("crate", "fn(c0_1)", &r).is_ok());
}

#[test]
fn identifier_characters() {
    assert_eq!(ident_error_of("abc_1"), None);
    assert_eq!(ident_error_of("_"), None);
    assert_eq!(ident_error_of("été"), None);
    assert_eq!(ident_error_of("a\u{300}"), None);
    assert_eq!(ident_error_of("\u{300}a"), Some("\"\u{300}a\" is not a valid Ident".to_string()));
    assert_eq!(ident_error_of(""), Some("Ident is not allowed to be empty; use Option<Ident>".to_string()));
    assert_eq!(ident_error_of("42"), Some("Ident cannot be a number; use Literal instead".to_string()));
}
