use vstd::prelude::*;
use vstd::string::*;
use crate::codegen::{all_wf, codegen_ready, crate_position, dep_code_text, dep_lists, entry_code_ok, entry_ok, dep_code_ok, Codegen, EntryCode};
use crate::decoder::{deps_of, Decoder};
use crate::dependency::Dependency;
use crate::codegen_system::System;
use crate::system_code::{system_code, systems_code};
use crate::text::{decimal, join, join_strings, push_decimal, string_of};

verus! {

/// One piece of a repeated template: its text, then the item it is followed
/// by (`1` for an item of the first list, `2` for one of the second, `0` for
/// none).
pub type Piece = (String, u8);

/// Template pieces as character sequences.
pub open spec fn piece_views(t: Seq<Piece>) -> Seq<(Seq<char>, u8)> {
    t.map_values(|p: Piece| (p.0@, p.1))
}

/// Template `t` filled with `a` for the first item and `b` for the second.
pub open spec fn fill(t: Seq<(Seq<char>, u8)>, a: Seq<char>, b: Seq<char>) -> Seq<char>
    decreases t.len(),
{
    if t.len() == 0 {
        seq![]
    } else {
        fill(t.drop_last(), a, b) + t.last().0 + if t.last().1 == 1 { a } else if t.last().1 == 2 { b } else { seq![] }
    }
}

/// Template `t` filled with the items of `a` and `b` in step, as long as both
/// last, joined with `sep` (a repetition of generated code over two lists).
pub open spec fn repeat(t: Seq<(Seq<char>, u8)>, a: Seq<Seq<char>>, b: Seq<Seq<char>>, sep: Seq<char>) -> Seq<char> {
    let n = if a.len() <= b.len() { a.len() } else { b.len() };
    join(Seq::new(n, |i: int| fill(t, a[i], b[i])), sep)
}

fn piece(s: &str, k: u8) -> (p: Piece)
    ensures
        p.0@ == s@,
        p.1 == k,
{
    (String::from_str(s), k)
}

fn piece_of(s: String, k: u8) -> (p: Piece)
    ensures
        p.0@ == s@,
        p.1 == k,
{
    (s, k)
}

fn fill_exec(t: &Vec<Piece>, a: &String, b: &String) -> (r: String)
    ensures
        r@ == fill(piece_views(t@), a@, b@),
{
    let ghost tv = piece_views(t@);
    let mut r = String::new();
    let mut i: usize = 0;
    while i < t.len()
        invariant
            i <= t@.len(),
            tv == piece_views(t@),
            r@ == fill(tv.take(i as int), a@, b@),
        decreases t.len() - i,
    {
        proof {
            assert(tv.take(i + 1).drop_last() =~= tv.take(i as int));
            assert(tv.take(i + 1).last() == (t@[i as int].0@, t@[i as int].1));
        }
        r.append(t[i].0.as_str());
        if t[i].1 == 1 {
            r.append(a.as_str());
        } else if t[i].1 == 2 {
            r.append(b.as_str());
        }
        i = i + 1;
    }
    proof {
        assert(tv.take(t@.len() as int) =~= tv);
    }
    r
}

fn repeat_exec(t: &Vec<Piece>, a: &Vec<String>, b: &Vec<String>, sep: &str) -> (r: String)
    ensures
        r@ == repeat(piece_views(t@), a.deep_view(), b.deep_view(), sep@),
{
    let n = if a.len() <= b.len() { a.len() } else { b.len() };
    let ghost tv = piece_views(t@);
    let ghost items = Seq::new(n as nat, |i: int| fill(tv, a.deep_view()[i], b.deep_view()[i]));
    let mut w: Vec<String> = Vec::new();
    let mut i: usize = 0;
    while i < n
        invariant
            i <= n <= a@.len(),
            n <= b@.len(),
            tv == piece_views(t@),
            items == Seq::new(n as nat, |i: int| fill(tv, a.deep_view()[i], b.deep_view()[i])),
            w.deep_view() == items.take(i as int),
        decreases n - i,
    {
        let x = fill_exec(t, &a[i], &b[i]);
        let ghost w0 = w.deep_view();
        w.push(x);
        proof {
            assert(a.deep_view()[i as int] == a@[i as int]@);
            assert(b.deep_view()[i as int] == b@[i as int]@);
            assert(w.deep_view() =~= w0.push(x@));
            assert(items.take(i + 1) =~= items.take(i as int).push(items[i as int]));
        }
        i = i + 1;
    }
    proof {
        assert(items.take(n as int) =~= items);
    }
    join_strings(&w, sep)
}

/// The text of the frame loop of the system runner, which the caller writes:
/// what comes before the loop, one pass of it, and what comes after it.
pub struct FrameLoop {
    pub setup: String,
    pub step: String,
    pub report: String,
}

/// Engine global `k` of the entry code.
pub open spec fn glob(e: EntryCode, k: int) -> Seq<char> {
    e.engine_globals@[k]@
}

/// The entity type.
pub open spec fn entity(e: EntryCode) -> Seq<char> {
    e.engine_cr_path@ + "::Entity"@
}

/// The struct of the globals and its constructor.
pub open spec fn gfoo_text(e: EntryCode) -> Seq<char> {
    "pub struct GFoo { "@
        + repeat(seq![(""@, 1u8), (": "@, 2u8)], e.g_vars.deep_view(), e.g_tys.deep_view(), ", "@)
        + " } impl GFoo { pub fn new() -> Self { Self { "@
        + repeat(seq![(""@, 1u8), (": "@, 2u8), ("::new(),"@, 0u8)], e.g_vars.deep_view(), e.g_tys.deep_view(), " "@)
        + " } } } "@
}

/// The store of the components: the entity set and one map per component,
/// with the engine's component trait for each component.
pub open spec fn cfoo_text(e: EntryCode) -> Seq<char> {
    "pub struct CFoo { eids: std::collections::HashSet<"@ + entity(e) + ">, "@
        + repeat(seq![(""@, 1u8), (": std::collections::HashMap<"@ + entity(e) + ", "@, 2u8), (">,"@, 0u8)],
            e.c_vars.deep_view(), e.c_tys.deep_view(), " "@)
        + " } impl CFoo { pub fn new() -> Self { Self { eids: std::collections::HashSet::new(), "@
        + repeat(seq![(""@, 1u8), (": std::collections::HashMap::new(),"@, 0u8)], e.c_vars.deep_view(), e.c_vars.deep_view(), " "@)
        + " } } pub fn append(&mut self, cm: &mut Self) { self.eids.extend(cm.eids.drain()); "@
        + repeat(seq![("self."@, 1u8), (".extend(cm."@, 1u8), (".drain());"@, 0u8)], e.c_vars.deep_view(), e.c_vars.deep_view(), " "@)
        + " } pub fn remove(&mut self, tr: &mut "@ + e.entity_trash_path@
        + ") { for eid in tr.0.drain(..) { self.eids.remove(&eid); "@
        + repeat(seq![("self."@, 1u8), (".remove(&eid);"@, 0u8)], e.c_vars.deep_view(), e.c_vars.deep_view(), " "@)
        + " } } } "@
        + repeat(seq![
            ("impl "@ + e.engine_trait_paths@[0]@ + "<"@, 2u8),
            ("> for CFoo { fn add_component(&mut self, e: "@ + entity(e) + ", t: "@, 2u8),
            (") { self."@, 1u8),
            (".insert(e, t); } }"@, 0u8),
        ], e.c_vars.deep_view(), e.c_tys.deep_view(), " "@)
        + " "@
        + repeat(seq![("impl "@, 1u8), ("::_engine::AddComponent for CFoo {}"@, 0u8)],
            e.crate_paths_post.deep_view(), e.crate_paths_post.deep_view(), " "@)
        + " "@
}

/// The event kinds, their number, and the store of the events of a pass with
/// the engine's event trait for each event.
pub open spec fn efoo_text(e: EntryCode) -> Seq<char> {
    "#[derive(Hash, Clone, Copy, Eq, PartialEq, Debug)] enum E { "@ + join(e.e_vars.deep_view(), ", "@)
        + " } pub const E_LEN: usize = "@ + decimal(e.e_vars@.len()) + "usize; pub struct EFoo { "@
        + repeat(seq![(""@, 1u8), (": Vec<"@, 2u8), (">"@, 0u8)], e.e_vars.deep_view(), e.e_tys.deep_view(), ", "@)
        + ", events: std::collections::VecDeque<(E, usize)> } impl EFoo { pub fn new() -> Self { Self { "@
        + repeat(seq![(""@, 1u8), (": Vec::new()"@, 0u8)], e.e_vars.deep_view(), e.e_vars.deep_view(), ", "@)
        + ", events: std::collections::VecDeque::new() } } pub fn has_events(&self) -> bool { !self.events.is_empty() } "@
        + "fn add_event(&mut self, e: E) { self.events.push_back((e, 0)); } "@
        + "pub fn get_events(&mut self) -> std::collections::VecDeque<(E, usize)> { std::mem::replace(&mut self.events, std::collections::VecDeque::new()) } "@
        + "pub fn append(&mut self, other: &mut Self) { "@
        + repeat(seq![("other."@, 1u8), (".reverse(); self."@, 1u8), (".append(&mut other."@, 1u8), (");"@, 0u8)],
            e.e_vars.deep_view(), e.e_vars.deep_view(), " "@)
        + " } pub fn pop(&mut self, e: E) { match e { "@
        + repeat(seq![("E::"@, 1u8), (" => { self."@, 1u8), (".pop(); }"@, 0u8)], e.e_vars.deep_view(), e.e_vars.deep_view(), " "@)
        + " } } } "@
        + repeat(seq![
            ("impl "@ + e.engine_trait_paths@[1]@ + "<"@, 2u8),
            ("> for EFoo { fn new_event(&mut self, t: "@, 2u8),
            (") { self."@, 1u8),
            (".push(t); self.add_event(E::"@, 1u8),
            ("); } fn get_event<'a>(&'a self) -> Option<&'a "@, 2u8),
            ("> { self."@, 1u8),
            (".last() } }"@, 0u8),
        ], e.e_vars.deep_view(), e.e_tys.deep_view(), " "@)
        + " "@
        + repeat(seq![("impl "@, 1u8), ("::_engine::AddEvent for EFoo {}"@, 0u8)],
            e.crate_paths_post.deep_view(), e.crate_paths_post.deep_view(), " "@)
        + " "@
}

/// The system runner: its state, its start (the init systems), the systems it
/// serves, and the frame loop that `f` writes.
pub open spec fn sfoo_text(e: EntryCode, f: FrameLoop) -> Seq<char> {
    "pub struct SFoo { cfoo: CFoo, gfoo: GFoo, efoo: EFoo, stack: Vec<std::collections::VecDeque<(E, usize)>>, "@
        + "services: [Vec<Box<dyn Fn(&mut CFoo, &mut GFoo, &mut EFoo)>>; E_LEN] } "@
        + "impl SFoo { pub fn new() -> Self { let mut s = Self { cfoo: CFoo::new(), gfoo: GFoo::new(), efoo: EFoo::new(), "@
        + "stack: Vec::new(), services: std::array::from_fn(|_| Vec::new()) }; s.init(); s } fn init(&mut self) { "@
        + join(e.init_systems@.map_values(|s: System| system_code(s)), " "@)
        + " self.post_tick(); self.add_systems(); } "@
        + "fn add_system(&mut self, e: E, f: Box<dyn Fn(&mut CFoo, &mut GFoo, &mut EFoo)>) { self.services[e as usize].push(f); } "@
        + "fn add_systems(&mut self) { "@
        + join(e.systems@.map_values(|s: System| system_code(s)), " "@)
        + " } pub fn run(&mut self) { "@ + f.setup@ + " while !self.gfoo."@ + glob(e, 4) + ".quit { "@ + f.step@ + " } "@
        + f.report@ + " } "@
        + tick_text(e)
        + " } "@
}

/// One frame of the system runner, and its event handling.
pub open spec fn tick_text(e: EntryCode) -> Seq<char> {
    "fn tick(&mut self, ts: u32) { self.gfoo."@ + glob(e, 4) + ".update(ts, &self.gfoo."@ + glob(e, 6)
        + ".0, &self.gfoo."@ + glob(e, 7) + ".0); self.gfoo."@ + glob(e, 5)
        + ".r.clear(); self.add_events(self.init_events(ts)); while !self.stack.is_empty() { "@
        + "if let Some((e, i, n)) = self.stack.last_mut().and_then(|queue| queue.front_mut()).and_then(|(e, i)| { "@
        + "let v_s = &self.services[*e as usize]; v_s.get(*i).map(|_| { let vals = (e.clone(), i.clone(), v_s.len()); *i += 1; vals }) }) { "@
        + "if i + 1 >= n { self.pop(); } self.gfoo."@ + glob(e, 1) + " = EFoo::new(); "@
        + "if let Some(s) = self.services[e as usize].get(i) { (s)(&mut self.cfoo, &mut self.gfoo, &mut self.efoo); } "@
        + "if i + 1 >= n { self.efoo.pop(e); } let efoo = std::mem::replace(&mut self.gfoo."@ + glob(e, 1)
        + ", EFoo::new()); self.add_events(efoo); } else { self.pop(); } } self.gfoo."@ + glob(e, 5)
        + ".r.present(); self.post_tick(); } fn post_tick(&mut self) { self.cfoo.remove(&mut self.gfoo."@ + glob(e, 3)
        + "); self.cfoo.append(&mut self.gfoo."@ + glob(e, 0) + "); } "@
        + "fn init_events(&self, ts: u32) -> EFoo { let mut efoo = EFoo::new(); "@
        + e.engine_trait_paths@[1]@ + "::new_event(&mut efoo, "@ + e.engine_cr_path@ + "::CoreEvents); "@
        + e.engine_trait_paths@[1]@ + "::new_event(&mut efoo, "@ + e.engine_cr_path@ + "::CoreUpdate(ts)); "@
        + e.engine_trait_paths@[1]@ + "::new_event(&mut efoo, "@ + e.engine_cr_path@ + "::CoreRender); efoo } "@
        + "fn add_events(&mut self, mut em: EFoo) { if em.has_events() { self.efoo.append(&mut em); self.stack.push(em.get_events()); } } "@
        + "fn pop(&mut self) { if self.stack.last_mut().is_some_and(|queue| { queue.pop_front(); queue.is_empty() }) { self.stack.pop(); } }"@
}

/// The code of the entry crate: the dependencies' code, then the globals, the
/// components, the events and the system runner whose frame loop `f` writes.
pub open spec fn entry_text_of(e: EntryCode, f: FrameLoop) -> Seq<char> {
    e.deps_code@ + " "@ + gfoo_text(e) + cfoo_text(e) + efoo_text(e) + sfoo_text(e, f)
}

fn gfoo_exec(e: &EntryCode) -> (r: String)
    ensures
        r@ == gfoo_text(*e),
{
    let mut r = String::from_str("pub struct GFoo { ");
    let t1 = vec![piece("", 1), piece(": ", 2)];
    proof {
        assert(piece_views(t1@) =~= seq![(""@, 1u8), (": "@, 2u8)]);
    }
    r.append(repeat_exec(&t1, &e.g_vars, &e.g_tys, ", ").as_str());
    r.append(" } impl GFoo { pub fn new() -> Self { Self { ");
    let t2 = vec![piece("", 1), piece(": ", 2), piece("::new(),", 0)];
    proof {
        assert(piece_views(t2@) =~= seq![(""@, 1u8), (": "@, 2u8), ("::new(),"@, 0u8)]);
    }
    r.append(repeat_exec(&t2, &e.g_vars, &e.g_tys, " ").as_str());
    r.append(" } } } ");
    r
}

fn entity_exec(e: &EntryCode) -> (r: String)
    ensures
        r@ == entity(*e),
{
    let mut r = e.engine_cr_path.clone();
    r.append("::Entity");
    r
}

fn cat3(a: &str, b: &str, c: &str) -> (r: String)
    ensures
        r@ == a@ + b@ + c@,
{
    let mut r = String::from_str(a);
    r.append(b);
    r.append(c);
    r
}

#[verifier::rlimit(30)]
fn cfoo_exec(e: &EntryCode) -> (r: String)
    requires
        e.engine_trait_paths@.len() >= 2,
    ensures
        r@ == cfoo_text(*e),
{
    let ent = entity_exec(e);
    let mut r = String::from_str("pub struct CFoo { eids: std::collections::HashSet<");
    r.append(ent.as_str());
    r.append(">, ");
    let t1 = vec![piece("", 1), piece_of(cat3(": std::collections::HashMap<", ent.as_str(), ", "), 2), piece(">,", 0)];
    proof {
        assert(piece_views(t1@) =~= seq![(""@, 1u8), (": std::collections::HashMap<"@ + entity(*e) + ", "@, 2u8), (">,"@, 0u8)]);
    }
    r.append(repeat_exec(&t1, &e.c_vars, &e.c_tys, " ").as_str());
    r.append(" } impl CFoo { pub fn new() -> Self { Self { eids: std::collections::HashSet::new(), ");
    let t2 = vec![piece("", 1), piece(": std::collections::HashMap::new(),", 0)];
    proof {
        assert(piece_views(t2@) =~= seq![(""@, 1u8), (": std::collections::HashMap::new(),"@, 0u8)]);
    }
    r.append(repeat_exec(&t2, &e.c_vars, &e.c_vars, " ").as_str());
    r.append(" } } pub fn append(&mut self, cm: &mut Self) { self.eids.extend(cm.eids.drain()); ");
    let t3 = vec![piece("self.", 1), piece(".extend(cm.", 1), piece(".drain());", 0)];
    proof {
        assert(piece_views(t3@) =~= seq![("self."@, 1u8), (".extend(cm."@, 1u8), (".drain());"@, 0u8)]);
    }
    r.append(repeat_exec(&t3, &e.c_vars, &e.c_vars, " ").as_str());
    r.append(" } pub fn remove(&mut self, tr: &mut ");
    r.append(e.entity_trash_path.as_str());
    r.append(") { for eid in tr.0.drain(..) { self.eids.remove(&eid); ");
    let t4 = vec![piece("self.", 1), piece(".remove(&eid);", 0)];
    proof {
        assert(piece_views(t4@) =~= seq![("self."@, 1u8), (".remove(&eid);"@, 0u8)]);
    }
    r.append(repeat_exec(&t4, &e.c_vars, &e.c_vars, " ").as_str());
    r.append(" } } } ");
    let t5 = vec![
        piece_of(cat3("impl ", e.engine_trait_paths[0].as_str(), "<"), 2),
        piece_of(cat3("> for CFoo { fn add_component(&mut self, e: ", ent.as_str(), ", t: "), 2),
        piece(") { self.", 1),
        piece(".insert(e, t); } }", 0),
    ];
    proof {
        assert(piece_views(t5@) =~= seq![
            ("impl "@ + e.engine_trait_paths@[0]@ + "<"@, 2u8),
            ("> for CFoo { fn add_component(&mut self, e: "@ + entity(*e) + ", t: "@, 2u8),
            (") { self."@, 1u8),
            (".insert(e, t); } }"@, 0u8),
        ]);
    }
    r.append(repeat_exec(&t5, &e.c_vars, &e.c_tys, " ").as_str());
    r.append(" ");
    let t6 = vec![piece("impl ", 1), piece("::_engine::AddComponent for CFoo {}", 0)];
    proof {
        assert(piece_views(t6@) =~= seq![("impl "@, 1u8), ("::_engine::AddComponent for CFoo {}"@, 0u8)]);
    }
    r.append(repeat_exec(&t6, &e.crate_paths_post, &e.crate_paths_post, " ").as_str());
    r.append(" ");
    r
}

fn decimal_string(n: usize) -> (r: String)
    ensures
        r@ == decimal(n as nat),
{
    let mut v: Vec<char> = Vec::new();
    push_decimal(&mut v, n);
    proof {
        assert(Seq::<char>::empty() + decimal(n as nat) =~= decimal(n as nat));
    }
    string_of(&v)
}

#[verifier::rlimit(30)]
fn efoo_exec(e: &EntryCode) -> (r: String)
    requires
        e.engine_trait_paths@.len() >= 2,
    ensures
        r@ == efoo_text(*e),
{
    let mut r = String::from_str("#[derive(Hash, Clone, Copy, Eq, PartialEq, Debug)] enum E { ");
    r.append(join_strings(&e.e_vars, ", ").as_str());
    r.append(" } pub const E_LEN: usize = ");
    r.append(decimal_string(e.e_vars.len()).as_str());
    r.append("usize; pub struct EFoo { ");
    let t1 = vec![piece("", 1), piece(": Vec<", 2), piece(">", 0)];
    proof {
        assert(piece_views(t1@) =~= seq![(""@, 1u8), (": Vec<"@, 2u8), (">"@, 0u8)]);
    }
    r.append(repeat_exec(&t1, &e.e_vars, &e.e_tys, ", ").as_str());
    r.append(", events: std::collections::VecDeque<(E, usize)> } impl EFoo { pub fn new() -> Self { Self { ");
    let t2 = vec![piece("", 1), piece(": Vec::new()", 0)];
    proof {
        assert(piece_views(t2@) =~= seq![(""@, 1u8), (": Vec::new()"@, 0u8)]);
    }
    r.append(repeat_exec(&t2, &e.e_vars, &e.e_vars, ", ").as_str());
    r.append(", events: std::collections::VecDeque::new() } } pub fn has_events(&self) -> bool { !self.events.is_empty() } ");
    r.append("fn add_event(&mut self, e: E) { self.events.push_back((e, 0)); } ");
    r.append("pub fn get_events(&mut self) -> std::collections::VecDeque<(E, usize)> { std::mem::replace(&mut self.events, std::collections::VecDeque::new()) } ");
    r.append("pub fn append(&mut self, other: &mut Self) { ");
    let t3 = vec![piece("other.", 1), piece(".reverse(); self.", 1), piece(".append(&mut other.", 1), piece(");", 0)];
    proof {
        assert(piece_views(t3@) =~= seq![("other."@, 1u8), (".reverse(); self."@, 1u8), (".append(&mut other."@, 1u8), (");"@, 0u8)]);
    }
    r.append(repeat_exec(&t3, &e.e_vars, &e.e_vars, " ").as_str());
    r.append(" } pub fn pop(&mut self, e: E) { match e { ");
    let t4 = vec![piece("E::", 1), piece(" => { self.", 1), piece(".pop(); }", 0)];
    proof {
        assert(piece_views(t4@) =~= seq![("E::"@, 1u8), (" => { self."@, 1u8), (".pop(); }"@, 0u8)]);
    }
    r.append(repeat_exec(&t4, &e.e_vars, &e.e_vars, " ").as_str());
    r.append(" } } } ");
    let t5 = vec![
        piece_of(cat3("impl ", e.engine_trait_paths[1].as_str(), "<"), 2),
        piece("> for EFoo { fn new_event(&mut self, t: ", 2),
        piece(") { self.", 1),
        piece(".push(t); self.add_event(E::", 1),
        piece("); } fn get_event<'a>(&'a self) -> Option<&'a ", 2),
        piece("> { self.", 1),
        piece(".last() } }", 0),
    ];
    proof {
        assert(piece_views(t5@) =~= seq![
            ("impl "@ + e.engine_trait_paths@[1]@ + "<"@, 2u8),
            ("> for EFoo { fn new_event(&mut self, t: "@, 2u8),
            (") { self."@, 1u8),
            (".push(t); self.add_event(E::"@, 1u8),
            ("); } fn get_event<'a>(&'a self) -> Option<&'a "@, 2u8),
            ("> { self."@, 1u8),
            (".last() } }"@, 0u8),
        ]);
    }
    r.append(repeat_exec(&t5, &e.e_vars, &e.e_tys, " ").as_str());
    r.append(" ");
    let t6 = vec![piece("impl ", 1), piece("::_engine::AddEvent for EFoo {}", 0)];
    proof {
        assert(piece_views(t6@) =~= seq![("impl "@, 1u8), ("::_engine::AddEvent for EFoo {}"@, 0u8)]);
    }
    r.append(repeat_exec(&t6, &e.crate_paths_post, &e.crate_paths_post, " ").as_str());
    r.append(" ");
    r
}

#[verifier::rlimit(30)]
fn tick_exec(e: &EntryCode) -> (r: String)
    requires
        e.engine_trait_paths@.len() >= 2,
        e.engine_globals@.len() == 8,
    ensures
        r@ == tick_text(*e),
{
    let g = &e.engine_globals;
    let ev = e.engine_trait_paths[1].as_str();
    let ecp = e.engine_cr_path.as_str();
    let mut r = String::from_str("fn tick(&mut self, ts: u32) { self.gfoo.");
    r.append(g[4].as_str());
    r.append(".update(ts, &self.gfoo.");
    r.append(g[6].as_str());
    r.append(".0, &self.gfoo.");
    r.append(g[7].as_str());
    r.append(".0); self.gfoo.");
    r.append(g[5].as_str());
    r.append(".r.clear(); self.add_events(self.init_events(ts)); while !self.stack.is_empty() { ");
    r.append("if let Some((e, i, n)) = self.stack.last_mut().and_then(|queue| queue.front_mut()).and_then(|(e, i)| { ");
    r.append("let v_s = &self.services[*e as usize]; v_s.get(*i).map(|_| { let vals = (e.clone(), i.clone(), v_s.len()); *i += 1; vals }) }) { ");
    r.append("if i + 1 >= n { self.pop(); } self.gfoo.");
    r.append(g[1].as_str());
    r.append(" = EFoo::new(); ");
    r.append("if let Some(s) = self.services[e as usize].get(i) { (s)(&mut self.cfoo, &mut self.gfoo, &mut self.efoo); } ");
    r.append("if i + 1 >= n { self.efoo.pop(e); } let efoo = std::mem::replace(&mut self.gfoo.");
    r.append(g[1].as_str());
    r.append(", EFoo::new()); self.add_events(efoo); } else { self.pop(); } } self.gfoo.");
    r.append(g[5].as_str());
    r.append(".r.present(); self.post_tick(); } fn post_tick(&mut self) { self.cfoo.remove(&mut self.gfoo.");
    r.append(g[3].as_str());
    r.append("); self.cfoo.append(&mut self.gfoo.");
    r.append(g[0].as_str());
    r.append("); } ");
    r.append("fn init_events(&self, ts: u32) -> EFoo { let mut efoo = EFoo::new(); ");
    r.append(ev);
    r.append("::new_event(&mut efoo, ");
    r.append(ecp);
    r.append("::CoreEvents); ");
    r.append(ev);
    r.append("::new_event(&mut efoo, ");
    r.append(ecp);
    r.append("::CoreUpdate(ts)); ");
    r.append(ev);
    r.append("::new_event(&mut efoo, ");
    r.append(ecp);
    r.append("::CoreRender); efoo } ");
    r.append("fn add_events(&mut self, mut em: EFoo) { if em.has_events() { self.efoo.append(&mut em); self.stack.push(em.get_events()); } } ");
    r.append("fn pop(&mut self) { if self.stack.last_mut().is_some_and(|queue| { queue.pop_front(); queue.is_empty() }) { self.stack.pop(); } }");
    r
}

#[verifier::rlimit(30)]
fn sfoo_exec(e: &EntryCode, f: &FrameLoop) -> (r: String)
    requires
        e.engine_trait_paths@.len() >= 2,
        e.engine_globals@.len() == 8,
        all_wf(e.init_systems@),
        all_wf(e.systems@),
    ensures
        r@ == sfoo_text(*e, *f),
{
    let mut r = String::from_str("pub struct SFoo { cfoo: CFoo, gfoo: GFoo, efoo: EFoo, stack: Vec<std::collections::VecDeque<(E, usize)>>, ");
    r.append("services: [Vec<Box<dyn Fn(&mut CFoo, &mut GFoo, &mut EFoo)>>; E_LEN] } ");
    r.append("impl SFoo { pub fn new() -> Self { let mut s = Self { cfoo: CFoo::new(), gfoo: GFoo::new(), efoo: EFoo::new(), ");
    r.append("stack: Vec::new(), services: std::array::from_fn(|_| Vec::new()) }; s.init(); s } fn init(&mut self) { ");
    r.append(join_strings(&systems_code(&e.init_systems), " ").as_str());
    r.append(" self.post_tick(); self.add_systems(); } ");
    r.append("fn add_system(&mut self, e: E, f: Box<dyn Fn(&mut CFoo, &mut GFoo, &mut EFoo)>) { self.services[e as usize].push(f); } ");
    r.append("fn add_systems(&mut self) { ");
    r.append(join_strings(&systems_code(&e.systems), " ").as_str());
    r.append(" } pub fn run(&mut self) { ");
    r.append(f.setup.as_str());
    r.append(" while !self.gfoo.");
    r.append(e.engine_globals[4].as_str());
    r.append(".quit { ");
    r.append(f.step.as_str());
    r.append(" } ");
    r.append(f.report.as_str());
    r.append(" } ");
    r.append(tick_exec(e).as_str());
    r.append(" } ");
    r
}

/// The code of the entry crate (see `entry_text_of`), with the frame loop
/// that `f` writes.
pub fn entry_text(e: &EntryCode, f: &FrameLoop) -> (r: String)
    requires
        e.engine_trait_paths@.len() >= 2,
        e.engine_globals@.len() == 8,
        all_wf(e.init_systems@),
        all_wf(e.systems@),
    ensures
        r@ == entry_text_of(*e, *f),
{
    let mut r = e.deps_code.clone();
    r.append(" ");
    r.append(gfoo_exec(e).as_str());
    r.append(cfoo_exec(e).as_str());
    r.append(efoo_exec(e).as_str());
    r.append(sfoo_exec(e, f).as_str());
    r
}


impl Decoder {
    /// The code of the crate whose directory is `dir`: for the entry crate
    /// the whole entry code (see `entry_text_of`) with the frame loop that `f`
    /// writes, for another crate its namespace code; none where the lines do
    /// not allow it (see `codegen_ready`).
    #[verifier::rlimit(60)]
    pub fn try_code_text(&self, dir: &str, f: &FrameLoop) -> (r: Option<String>)
        requires
            self.wf(),
        ensures
            r is Some <==> codegen_ready(self.lines(), dir@),
            r matches Some(t) ==> exists|deps: Seq<Vec<Dependency>>|
                #[trigger] dep_lists(deps) == Seq::new((deps_of(self.lines())->0).len(), |k: int| (deps_of(self.lines())->0)[k].1)
                && if crate_position(self.lines(), dir@)->0 == 0 {
                    exists|e: EntryCode| #[trigger] entry_code_ok(e, self.lines(), 0, deps) && t@ == entry_text_of(e, *f)
                } else {
                    t@ == dep_code_text(self.lines(), crate_position(self.lines(), dir@)->0, deps[crate_position(self.lines(), dir@)->0]@)
                },
    {
        match self.try_codegen(dir) {
            None => None,
            Some((i, Codegen::Dep(s))) => {
                let ghost lines = self.lines();
                let ghost deps = choose|deps: Seq<Vec<Dependency>>|
                    dep_lists(deps) == Seq::new((deps_of(lines)->0).len(), |k: int| (deps_of(lines)->0)[k].1)
                    && s@ == dep_code_text(lines, i as int, deps[i as int]@);
                proof {
                    assert(i as int == crate_position(lines, dir@)->0);
                    assert(i != 0);
                }
                Some(s)
            },
            Some((i, Codegen::Entry(e))) => {
                let ghost lines = self.lines();
                let ghost deps = choose|deps: Seq<Vec<Dependency>>|
                    dep_lists(deps) == Seq::new((deps_of(lines)->0).len(), |k: int| (deps_of(lines)->0)[k].1)
                    && entry_code_ok(e, lines, 0, deps);
                proof {
                    assert(entry_ok(lines, 0, deps));
                    assert(dep_code_ok(lines, 0));
                    assert(e.engine_trait_paths.deep_view().len() == 2);
                    assert(e.engine_trait_paths@.len() == e.engine_trait_paths.deep_view().len());
                    assert(e.engine_globals@.len() == e.engine_globals.deep_view().len());
                }
                let t = entry_text(&e, f);
                proof {
                    assert(i as int == crate_position(lines, dir@)->0);
                    assert(i == 0);
                    assert(entry_code_ok(e, lines, 0, deps) && t@ == entry_text_of(e, *f));
                }
                Some(t)
            },
        }
    }
}

} // verus!
