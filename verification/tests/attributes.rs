use hyperfold::ast_attrs::{
    eval_cfg_args, get_attributes, get_attributes_if_active, parse_attr_args, Attribute, CfgExpr, EcsAttribute, RawAttr,
};

fn strs(v: &[&str]) -> Vec<String> {
    v.iter().map(|s| s.to_string()).collect()
}

fn feature(name: &str) -> CfgExpr {
    CfgExpr::Equal("feature".to_string(), name.to_string())
}

fn raw(path: &[&str], groups: Vec<Vec<String>>, cfg: Option<CfgExpr>) -> RawAttr {
    RawAttr { path: strs(path), is_list: true, groups, cfg }
}

#[test]
fn ecs_attribute_names() {
    assert_eq!(EcsAttribute::from("component".to_string()), Some(EcsAttribute::Component));
    assert_eq!(EcsAttribute::from("global".to_string()), Some(EcsAttribute::Global));
    assert_eq!(EcsAttribute::from("system".to_string()), Some(EcsAttribute::System));
    assert_eq!(EcsAttribute::from("event".to_string()), Some(EcsAttribute::Event));
    assert_eq!(EcsAttribute::from("derive".to_string()), None);
}

#[test]
fn attribute_kind_from_path() {
    assert!(matches!(Attribute::from(strs(&["cfg"])), Attribute::Cfg(CfgExpr::Is(ref s)) if s.is_empty()));
    match Attribute::from(strs(&["engine", "component"])) {
        Attribute::Ecs(p, a) => {
            assert_eq!(p, strs(&["engine", "component"]));
            assert!(a.is_empty());
        }
        _ => panic!("expected an engine attribute"),
    }
}

#[test]
fn cfg_predicates() {
    let on = strs(&["a", "b"]);
    assert_eq!(eval_cfg_args(&feature("a"), &on), Some(true));
    assert_eq!(eval_cfg_args(&feature("c"), &on), Some(false));
    assert_eq!(eval_cfg_args(&CfgExpr::Equal("target_os".to_string(), "linux".to_string()), &on), None);
    assert_eq!(eval_cfg_args(&CfgExpr::Is("test".to_string()), &on), None);
    assert_eq!(eval_cfg_args(&CfgExpr::Not(Box::new(feature("c"))), &on), Some(true));
    assert_eq!(eval_cfg_args(&CfgExpr::Not(Box::new(CfgExpr::Is("x".to_string()))), &on), None);
    // any: one part known to hold; all: no part known to fail
    assert_eq!(eval_cfg_args(&CfgExpr::Any(vec![feature("c"), CfgExpr::Is("x".to_string())]), &on), Some(false));
    assert_eq!(eval_cfg_args(&CfgExpr::Any(vec![feature("c"), feature("b")]), &on), Some(true));
    assert_eq!(eval_cfg_args(&CfgExpr::All(vec![feature("a"), CfgExpr::Is("x".to_string())]), &on), Some(true));
    assert_eq!(eval_cfg_args(&CfgExpr::All(vec![feature("a"), feature("c")]), &on), Some(false));
    assert_eq!(eval_cfg_args(&CfgExpr::Any(vec![]), &on), Some(false));
    assert_eq!(eval_cfg_args(&CfgExpr::All(vec![]), &on), Some(true));
}

#[test]
fn attribute_arguments() {
    let a = parse_attr_args(Attribute::Ecs(strs(&["global"]), Vec::new()), raw(&["global"], vec![strs(&["Const", "Dummy"])], None));
    assert!(matches!(a, Attribute::Ecs(ref p, ref v) if *p == strs(&["global"]) && *v == strs(&["Const", "Dummy"])));
    // without a list nothing changes
    let plain = RawAttr { path: strs(&["global"]), is_list: false, groups: vec![strs(&["X"])], cfg: None };
    let b = parse_attr_args(Attribute::Ecs(strs(&["global"]), strs(&["Keep"])), plain);
    assert!(matches!(b, Attribute::Ecs(_, ref v) if *v == strs(&["Keep"])));
    let c = parse_attr_args(Attribute::Cfg(CfgExpr::Is(String::new())), raw(&["cfg"], vec![], Some(feature("a"))));
    assert!(matches!(c, Attribute::Cfg(CfgExpr::Equal(ref k, ref v)) if k == "feature" && v == "a"));
}

#[test]
fn attributes_of_an_item() {
    let attrs = vec![
        raw(&["super", "engine", "component"], vec![strs(&["Dummy"])], None),
        raw(&["cfg"], vec![], Some(feature("x"))),
    ];
    let r = get_attributes(attrs, &strs(&["crate", "m"]));
    assert_eq!(r.len(), 2);
    assert!(matches!(r[0], Attribute::Ecs(ref p, ref v) if *p == strs(&["crate", "engine", "component"]) && *v == strs(&["Dummy"])));
    assert!(matches!(r[1], Attribute::Cfg(CfgExpr::Equal(_, ref v)) if v == "x"));
}

#[test]
fn inactive_items_are_left_out() {
    let path = strs(&["crate"]);
    let mk = || {
        vec![
            raw(&["engine", "system"], vec![strs(&["Init"])], None),
            raw(&["cfg"], vec![], Some(feature("x"))),
        ]
    };
    assert_eq!(get_attributes_if_active(mk(), &path, &strs(&["y"])), None);
    assert_eq!(
        get_attributes_if_active(mk(), &path, &strs(&["x"])),
        Some(vec![(strs(&["engine", "system"]), strs(&["Init"]))])
    );
    // the last cfg decides
    let later = vec![
        raw(&["cfg"], vec![], Some(feature("nope"))),
        raw(&["cfg"], vec![], Some(CfgExpr::Is("unix".to_string()))),
    ];
    assert_eq!(get_attributes_if_active(later, &path, &Vec::new()), Some(Vec::new()));
}
