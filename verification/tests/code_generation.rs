use hyperfold::codegen_system::{System, SystemRegexes};
use hyperfold::system_code::systems_code;

const EVENT_HEAD: &str = "let f = |cfoo: &mut CFoo, gfoo: &mut GFoo, efoo: &mut EFoo| { if let Some(e) = efoo.get_event() { ";

fn event_system(body: &str, event: &str) -> String {
    format!("{}{} }} }}; self.add_system(E::{}, Box::new(f));", EVENT_HEAD, body, event)
}

#[test]
fn plain_system_code() {
    let r = SystemRegexes::new();
    let s = System::parse("crate", "foo()", &r);
    assert_eq!(s.to_quote(), event_system("crate::foo()", ""));
}

#[test]
fn init_system_code() {
    let r = SystemRegexes::new();
    let s = System::parse("crate::a", "bar(e0_1:id)i", &r);
    assert_eq!(
        s.to_quote(),
        "(|cfoo: &mut cfoo, gfoo: &mut gfoo, efoo: &mut efoo| { crate::a::bar(e,id) })(&mut self.cm, &mut self.gm, &mut self.events);"
    );
}

#[test]
fn component_system_code() {
    let r = SystemRegexes::new();
    let s = System::parse("crate", "baz(c0_1:g0_2)", &r);
    let body = "for eid in crate::ecs::shared::intersect::intersect_keys(&mut [crate::ecs::shared::intersect::get_keys(&cfoo.c0_1)]).iter() { if let (Some(c0_1),) = (cfoo.c0_1.get_mut(eid),) { crate::baz(c0_1,&mut gfoo.g0_2) } }";
    assert_eq!(s.to_quote(), event_system(body, ""));
}

#[test]
fn labelled_system_code() {
    let r = SystemRegexes::new();
    let s = System::parse("crate", "baz(c0_1:l&c0_2:l!|c0_3)", &r);
    let call = "crate::baz(c0_1,std::marker::PhantomData,std::marker::PhantomData)";
    let guarded = format!(
        "if ((cfoo.c0_2.contains_key(eid))&&(!cfoo.c0_3.contains_key(eid))) {{{}}}",
        call
    );
    let body = format!(
        "for eid in crate::ecs::shared::intersect::intersect_keys(&mut [crate::ecs::shared::intersect::get_keys(&cfoo.c0_1)]).iter() {{ if let (Some(c0_1),) = (cfoo.c0_1.get_mut(eid),) {{ {} }} }}",
        guarded
    );
    assert_eq!(s.to_quote(), event_system(&body, ""));
}

#[test]
fn or_and_nand_labels_code() {
    let r = SystemRegexes::new();
    let s = System::parse("crate", "f(c0_1:l|c0_2-c0_3:l!&c0_4-c0_5)", &r);
    assert_eq!(
        s.quote_labels("x".to_string()),
        "if ((cfoo.c0_2.contains_key(eid)||cfoo.c0_3.contains_key(eid))&&(!cfoo.c0_4.contains_key(eid)||!cfoo.c0_5.contains_key(eid))) {x}"
    );
}

#[test]
fn no_labels_leave_body_alone() {
    let r = SystemRegexes::new();
    let s = System::parse("crate", "f(c0_1)", &r);
    assert_eq!(s.quote_labels("body".to_string()), "body");
}

#[test]
fn container_system_code() {
    let r = SystemRegexes::new();
    let s = System::parse("crate", "qux(vid-mc0_1-c0_2:e0_3)", &r);
    let body = [
        "let mut v = cfoo.eids.iter().map(|k| (k, (None, None,None))).collect::<std::collections::HashMap<_, (Option<&Entity>,Option<&mut>,Option<&>,)>>();",
        "v = crate::ecs::shared::intersect::intersect_mut(v, &mut cfoo.c0_1, |t| &mut t.1);",
        "v = crate::ecs::shared::intersect::intersect(v, &mut cfoo.c0_2, |t| &mut t.2);",
        "let v = v.into_iter().filter_map(|(eid, (v0,v1,v2,))| { if let (Some(v1),Some(v2),) = (v1,v2,) { return Some((eid,v1,v2,)); } None }).collect::<Vec<_>>();",
        "crate::qux(v,e);",
    ]
    .join("");
    assert_eq!(s.to_quote(), event_system(&body, "e"));
}

#[test]
fn container_led_by_component() {
    let r = SystemRegexes::new();
    let s = System::parse("crate", "q(vmc0_1)", &r);
    let body = [
        "let mut v = cfoo.c0_1.iter_mut().map(|(k, v)| (k, (Some(v), ))).collect::<std::collections::HashMap<_, (Option<&mut>,)>>();",
        "let v = v.into_iter().filter_map(|(eid, (v0,))| { if let (Some(v0),) = (v0,) { return Some((v0,)); } None }).collect::<Vec<_>>();",
        "crate::q(v);",
    ]
    .join("");
    assert_eq!(s.to_quote(), event_system(&body, ""));
}

#[test]
fn code_for_each_system() {
    let r = SystemRegexes::new();
    let systems = vec![System::parse("crate", "a()", &r), System::parse("crate", "b()i", &r)];
    let code = systems_code(&systems);
    assert_eq!(code.len(), 2);
    assert_eq!(code[0], event_system("crate::a()", ""));
    assert_eq!(
        code[1],
        "(|cfoo: &mut cfoo, gfoo: &mut gfoo, efoo: &mut efoo| { crate::b() })(&mut self.cm, &mut self.gm, &mut self.events);"
    );
}
