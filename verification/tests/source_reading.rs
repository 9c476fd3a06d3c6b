use hyperfold::ast_attrs::CfgExpr;
use hyperfold::ast_file::ModSource;
use hyperfold::ast_fn_arg::FnArgType;
use hyperfold::ast_mod::{MarkType, Mod, ModType};
use hyperfold::crate_scan::{manifest_path_deps, parse_manifest};
use hyperfold::mod_visit::{ItemSource, ModBody, TypeArgSource, TypeSource};
use hyperfold::source_build::{arg_of, file_modules, read_module};
use hyperfold::source_read::{parse_cfg_text, parse_source};

fn strs(v: &[&str]) -> Vec<String> {
    v.iter().map(|s| s.to_string()).collect()
}

fn source(dir: &str, mods: &[&str]) -> ModSource {
    ModSource { dir: dir.to_string(), file: format!("{}/lib.rs", dir), mods: strs(mods), ty: ModType::Lib }
}

#[test]
fn manifest_text_dependencies_by_path() {
    let text = "[package]\nname = \"game\"\n\n[dependencies]\nengine = { path = \"../engine\", dependency = true }\nlog = \"0.4\"\nother = { path = \"../other\" }\n";
    assert_eq!(manifest_path_deps(text), Some(vec![("engine".to_string(), "../engine".to_string())]));
    let entries = parse_manifest(text).unwrap();
    assert_eq!(entries.len(), 3);
    assert!(manifest_path_deps("[package]\nname = \"x\"\n").is_none());
    assert!(manifest_path_deps("not = = toml").is_none());
}

#[test]
fn cfg_text_reads_as_a_predicate() {
    match parse_cfg_text("cfg(feature = \"fast\")") {
        Some(CfgExpr::Equal(k, v)) => {
            assert_eq!(k, "feature");
            assert_eq!(v, "fast");
        },
        other => panic!("unexpected: {:?}", other),
    }
    assert!(parse_cfg_text("cfg(").is_none());
}

#[test]
fn source_items_of_a_file() {
    let items = parse_source("use crate::a::B; pub mod inner { pub struct X; } mod ext; pub fn f() {} impl B {}").unwrap();
    assert_eq!(items.len(), 5);
    assert!(matches!(&items[0], ItemSource::Use(false, _)));
    assert!(matches!(&items[1], ItemSource::Mod(n, true, ModBody::Inline(v)) if n == "inner" && v.len() == 1));
    assert!(matches!(&items[2], ItemSource::Mod(n, false, ModBody::External) if n == "ext"));
    assert!(matches!(&items[3], ItemSource::Marked(n, true, _) if n == "f"));
    assert!(matches!(&items[4], ItemSource::Other));
    assert!(parse_source("fn (").is_none());
}

#[test]
fn modules_in_their_own_files() {
    let text = "mod a; pub mod b { mod c; } mod d {}";
    let subs = file_modules(text, &strs(&["crate"])).unwrap();
    assert_eq!(
        subs,
        vec![("a".to_string(), strs(&["crate", "a"])), ("c".to_string(), strs(&["crate", "b", "c"]))]
    );
}

#[test]
fn a_module_read_from_its_text() {
    let text = "use crate::comps::Pos;\n\
                #[component]\npub struct Vel;\n\
                #[system]\nfn run(p: &Pos, v: &mut Vel, c: Container<(&Pos, &mut Vel)>, t: &dyn AddEvent) {}\n\
                #[cfg(feature = \"off\")]\n#[component]\nstruct Hidden;\n\
                struct Plain;\n\
                mod sub;\n\
                pub mod inner { #[global] pub struct Time; }\n";
    let sub = Mod::new("/g/sub".to_string(), strs(&["crate", "sub"]), ModType::File);
    let m = read_module(&source("/g", &["crate"]), text, vec![sub], &Vec::new(), 0).unwrap();
    let names: Vec<&str> = m.symbols.iter().map(|s| s.ident.as_str()).collect();
    assert_eq!(names, vec!["Vel", "run", "Hidden", "Plain", "sub", "inner"]);
    assert_eq!(m.uses[0].path, strs(&["crate", "comps", "Pos"]));
    // a `cfg` that is known to fail leaves `Hidden` unmarked
    assert_eq!(m.marked.len(), 2);
    assert_eq!(m.marked[0].sym.path, strs(&["crate", "Vel"]));
    assert!(matches!(m.marked[0].ty, MarkType::Struct));
    assert_eq!(m.marked[0].attrs, vec![(strs(&["component"]), Vec::new())]);
    match &m.marked[1].ty {
        MarkType::Fn { args } => {
            assert_eq!(args.len(), 4);
            assert_eq!((args[0].ref_cnt, args[0].mutable), (1, false));
            assert_eq!((args[1].ref_cnt, args[1].mutable), (1, true));
            assert!(matches!(&args[1].ty, FnArgType::Path(p) if p.path == strs(&["Vel"])));
            assert!(matches!(&args[2].ty, FnArgType::Container(p, v) if p.path == strs(&["Container"]) && v.len() == 2 && v[1].mutable));
            assert!(matches!(&args[3].ty, FnArgType::Trait(p) if p.path == strs(&["AddEvent"])));
            assert_eq!(args[0].text, "& Pos");
        },
        _ => panic!("expected a function"),
    }
    assert_eq!(m.mods.len(), 2);
    assert_eq!(m.mods[0].path, strs(&["crate", "sub"]));
    assert_eq!(m.mods[1].marked.len(), 1);
    assert_eq!(m.mods[1].marked[0].sym.path, strs(&["crate", "inner", "Time"]));
    // another number of files than modules in their own files
    assert!(read_module(&source("/g", &["crate"]), text, Vec::new(), &Vec::new(), 0).is_none());
    // a `cfg` whose list reads as no predicate
    assert!(read_module(&source("/g", &["crate"]), "#[cfg(x y z)]\nstruct X;", Vec::new(), &Vec::new(), 0).is_none());
}

#[test]
fn an_argument_from_its_type() {
    let t = TypeSource::Ref(
        false,
        Box::new(TypeSource::Ref(
            true,
            Box::new(TypeSource::Path(
                strs(&["super", "Label"]),
                vec![TypeArgSource::Type("Pos".to_string(), TypeSource::Path(strs(&["Pos"]), Vec::new()))],
            )),
        )),
    );
    let a = arg_of(&t, &"&&mut super::Label<Pos>".to_string(), &strs(&["crate", "m"]), 3);
    assert_eq!((a.ref_cnt, a.mutable), (2, true));
    assert_eq!(a.text, "&&mut super::Label<Pos>");
    match &a.ty {
        FnArgType::SContainer(p, inner) => {
            assert_eq!(p.cr_idx, 3);
            assert_eq!(p.path, strs(&["crate", "Label"]));
            assert!(matches!(&inner.ty, FnArgType::Path(q) if q.path == strs(&["Pos"])));
        },
        _ => panic!("expected a one-type container"),
    }
}

#[test]
fn dependency_line_found_where_it_occurs() {
    use_dep_line("/g/game(engine:1,macros:2)", Some(("/g/game", vec![(1, "engine"), (2, "macros")])));
    // text after the closing parenthesis is left alone
    use_dep_line("/g/game(engine:1)tail", Some(("/g/game", vec![(1, "engine")])));
    // the directory holds no parenthesis: it starts after the last one
    use_dep_line("a)b(x:1)", Some(("b", vec![(1, "x")])));
    use_dep_line("a(b(x:1)", Some(("b", vec![(1, "x")])));
    use_dep_line("/g/dir()", Some(("/g/dir", vec![])));
    use_dep_line("/g/dir(x)", None);
    use_dep_line("no parentheses", None);
}

fn use_dep_line(s: &str, expected: Option<(&str, Vec<(usize, &str)>)>) {
    let got = hyperfold::decoder::parse_dep_line(s)
        .map(|(f, ds)| (f, ds.into_iter().map(|d| (d.cr_idx, d.alias)).collect::<Vec<_>>()));
    let want = expected.map(|(f, v)| (f.to_string(), v.into_iter().map(|(i, a)| (i, a.to_string())).collect::<Vec<_>>()));
    assert_eq!(got, want);
}

#[test]
fn screen_of_the_window() {
    let s = hyperfold::rect::Screen::new();
    assert_eq!((s.0.w, s.0.h), (960, 720));
}

#[test]
fn unicode_white_space() {
    assert!(hyperfold::text::trims_to_empty(&vec![' ', '\t', '\u{3000}', '\u{2028}']));
    assert!(!hyperfold::text::trims_to_empty(&vec![' ', 'x']));
    assert!(!hyperfold::text::trims_to_empty(&vec!['\u{200b}']));
}
