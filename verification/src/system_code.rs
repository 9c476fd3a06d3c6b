use vstd::prelude::*;
use vstd::string::*;
use crate::codegen::{all_wf, nested_view};
use crate::codegen_system::{container_views, ContainerArg, ContainerView, System};
use crate::text::{chars_of, decimal, join, join_strings, push_decimal, string_of};

verus! {

/// Each of `items` between `pre` and `post`.
pub open spec fn wrap_each(items: Seq<Seq<char>>, pre: Seq<char>, post: Seq<char>) -> Seq<Seq<char>> {
    items.map_values(|x: Seq<char>| pre + x + post)
}

/// Each of `items` between `pre` and `post`, joined with `sep` (a repetition
/// `#(pre #x post)sep*` of generated code).
pub open spec fn wrap_join(items: Seq<Seq<char>>, pre: Seq<char>, post: Seq<char>, sep: Seq<char>) -> Seq<char> {
    join(wrap_each(items, pre, post), sep)
}

/// The text of `wrap_join`.
pub fn wrap_join_exec(items: &Vec<String>, pre: &str, post: &str, sep: &str) -> (r: String)
    ensures
        r@ == wrap_join(items.deep_view(), pre@, post@, sep@),
{
    let ghost target = wrap_each(items.deep_view(), pre@, post@);
    let mut w: Vec<String> = Vec::new();
    let mut i: usize = 0;
    while i < items.len()
        invariant
            i <= items@.len(),
            target == wrap_each(items.deep_view(), pre@, post@),
            w.deep_view() == target.take(i as int),
        decreases items.len() - i,
    {
        let mut t = String::from_str(pre);
        t.append(items[i].as_str());
        t.append(post);
        let ghost w0 = w.deep_view();
        w.push(t);
        proof {
            assert(items.deep_view()[i as int] == items@[i as int]@);
            assert(w.deep_view() =~= w0.push(t@));
            assert(target.take(i + 1) =~= target.take(i as int).push(target[i as int]));
        }
        i = i + 1;
    }
    proof {
        assert(target.take(items@.len() as int) =~= target);
    }
    join_strings(&w, sep)
}

/// The test that a label list stands for, one per list: every AND label, no
/// NOR label, some label of each OR set, not all labels of each NAND set (each
/// as a lookup of the entity in the component's map).
pub open spec fn label_checks(
    and: Seq<Seq<char>>,
    nor: Seq<Seq<char>>,
    or: Seq<Seq<Seq<char>>>,
    nand: Seq<Seq<Seq<char>>>,
) -> Seq<Seq<char>> {
    let has = ".contains_key(eid)"@;
    let ands = if and.len() == 0 { seq![] } else { seq![wrap_join(and, "cfoo."@, has, "&&"@)] };
    let nors = if nor.len() == 0 { seq![] } else { seq![wrap_join(nor, "!cfoo."@, has, "&&"@)] };
    ands + nors
        + or.map_values(|v: Seq<Seq<char>>| wrap_join(v, "cfoo."@, has, "||"@))
        + nand.map_values(|v: Seq<Seq<char>>| wrap_join(v, "!cfoo."@, has, "||"@))
}

/// `body` guarded by the label tests of `s`, or `body` alone where there are
/// none.
pub open spec fn labels_code(s: System, body: Seq<char>) -> Seq<char> {
    let checks = label_checks(
        s.and_labels.deep_view(),
        s.nor_labels.deep_view(),
        nested_view(s.or_labels@),
        nested_view(s.nand_labels@),
    );
    if checks.len() == 0 {
        body
    } else {
        "if ("@ + wrap_join(checks, "("@, ")"@, "&&"@) + ") {"@ + body + "}"@
    }
}

/// The test that the entity holds component `label`.
pub open spec fn holds_test(label: Seq<char>) -> Seq<char> {
    "cfoo."@ + label + ".contains_key(eid)"@
}

/// The test that the entity lacks component `label`.
pub open spec fn lacks_test(label: Seq<char>) -> Seq<char> {
    "!"@ + holds_test(label)
}

/// The Rust conjunction of `tests`.
pub open spec fn all_of(tests: Seq<Seq<char>>) -> Seq<char> {
    join(tests, "&&"@)
}

/// The Rust disjunction of `tests`.
pub open spec fn any_of(tests: Seq<Seq<char>>) -> Seq<char> {
    join(tests, "||"@)
}

/// The label guard admits an entity when it holds every AND label (the AND
/// tests form one conjunction), holds no NOR label (a conjunction of negated
/// tests), holds some label of each OR set (a disjunction per set), and lacks
/// some label of each NAND set (a disjunction of negated tests per set); the
/// guards, each in parentheses, are joined by `&&` around the body.
pub proof fn lemma_label_guard(s: System, body: Seq<char>)
    ensures
        ({
            let and = s.and_labels.deep_view();
            let nor = s.nor_labels.deep_view();
            let guards = (if and.len() == 0 { seq![] } else { seq![all_of(and.map_values(|l: Seq<char>| holds_test(l)))] })
                + (if nor.len() == 0 { seq![] } else { seq![all_of(nor.map_values(|l: Seq<char>| lacks_test(l)))] })
                + nested_view(s.or_labels@).map_values(|v: Seq<Seq<char>>| any_of(v.map_values(|l: Seq<char>| holds_test(l))))
                + nested_view(s.nand_labels@).map_values(|v: Seq<Seq<char>>| any_of(v.map_values(|l: Seq<char>| lacks_test(l))));
            labels_code(s, body) == if guards.len() == 0 {
                body
            } else {
                "if ("@ + all_of(guards.map_values(|g: Seq<char>| "("@ + g + ")"@)) + ") {"@ + body + "}"@
            }
        }),
{
    let and = s.and_labels.deep_view();
    let nor = s.nor_labels.deep_view();
    let has = ".contains_key(eid)"@;
    assert(and.map_values(|l: Seq<char>| holds_test(l)) =~= wrap_each(and, "cfoo."@, has));
    assert(nor.map_values(|l: Seq<char>| lacks_test(l)) =~= wrap_each(nor, "!cfoo."@, has)) by {
        assert forall|i: int| 0 <= i < nor.len() implies
            nor.map_values(|l: Seq<char>| lacks_test(l))[i] == wrap_each(nor, "!cfoo."@, has)[i] by {
            assert("!"@ + ("cfoo."@ + nor[i] + has) =~= "!cfoo."@ + nor[i] + has) by {
                reveal_strlit("!");
                reveal_strlit("cfoo.");
                reveal_strlit("!cfoo.");
            }
        }
    }
    let ors = nested_view(s.or_labels@);
    let nands = nested_view(s.nand_labels@);
    assert(ors.map_values(|v: Seq<Seq<char>>| any_of(v.map_values(|l: Seq<char>| holds_test(l))))
        =~= ors.map_values(|v: Seq<Seq<char>>| wrap_join(v, "cfoo."@, has, "||"@))) by {
        assert forall|i: int| 0 <= i < ors.len() implies ors[i].map_values(|l: Seq<char>| holds_test(l)) =~= wrap_each(ors[i], "cfoo."@, has) by {}
    }
    assert(nands.map_values(|v: Seq<Seq<char>>| any_of(v.map_values(|l: Seq<char>| lacks_test(l))))
        =~= nands.map_values(|v: Seq<Seq<char>>| wrap_join(v, "!cfoo."@, has, "||"@))) by {
        assert forall|i: int| 0 <= i < nands.len() implies nands[i].map_values(|l: Seq<char>| lacks_test(l)) =~= wrap_each(nands[i], "!cfoo."@, has) by {
            assert forall|j: int| 0 <= j < nands[i].len() implies
                nands[i].map_values(|l: Seq<char>| lacks_test(l))[j] == wrap_each(nands[i], "!cfoo."@, has)[j] by {
                assert("!"@ + ("cfoo."@ + nands[i][j] + has) =~= "!cfoo."@ + nands[i][j] + has) by {
                    reveal_strlit("!");
                    reveal_strlit("cfoo.");
                    reveal_strlit("!cfoo.");
                }
            }
        }
    }
    let checks = label_checks(and, nor, ors, nands);
    assert(checks.map_values(|g: Seq<char>| "("@ + g + ")"@) =~= wrap_each(checks, "("@, ")"@));
}

fn checks_of_sets(sets: &Vec<Vec<String>>, pre: &str, acc: &mut Vec<String>)
    ensures
        final(acc).deep_view() == old(acc).deep_view()
            + nested_view(sets@).map_values(|v: Seq<Seq<char>>| wrap_join(v, pre@, ".contains_key(eid)"@, "||"@)),
{
    let ghost a0 = acc.deep_view();
    let ghost target = nested_view(sets@).map_values(|v: Seq<Seq<char>>| wrap_join(v, pre@, ".contains_key(eid)"@, "||"@));
    let mut i: usize = 0;
    while i < sets.len()
        invariant
            i <= sets@.len(),
            target == nested_view(sets@).map_values(|v: Seq<Seq<char>>| wrap_join(v, pre@, ".contains_key(eid)"@, "||"@)),
            acc.deep_view() == a0 + target.take(i as int),
        decreases sets.len() - i,
    {
        let c = wrap_join_exec(&sets[i], pre, ".contains_key(eid)", "||");
        let ghost a1 = acc.deep_view();
        acc.push(c);
        proof {
            assert(acc.deep_view() =~= a1.push(c@));
            assert(target[i as int] == c@);
            assert(a0 + target.take(i + 1) =~= (a0 + target.take(i as int)).push(target[i as int]));
        }
        i = i + 1;
    }
    proof {
        assert(target.take(sets@.len() as int) =~= target);
    }
}

impl System {
    /// `body` guarded by the system's label tests.
    pub fn quote_labels(&self, body: String) -> (r: String)
        ensures
            r@ == labels_code(*self, body@),
    {
        let mut checks: Vec<String> = Vec::new();
        if self.and_labels.len() > 0 {
            checks.push(wrap_join_exec(&self.and_labels, "cfoo.", ".contains_key(eid)", "&&"));
        }
        if self.nor_labels.len() > 0 {
            checks.push(wrap_join_exec(&self.nor_labels, "!cfoo.", ".contains_key(eid)", "&&"));
        }
        let ghost c0 = checks.deep_view();
        proof {
            let has = ".contains_key(eid)"@;
            let and = self.and_labels.deep_view();
            let nor = self.nor_labels.deep_view();
            let ands: Seq<Seq<char>> = if and.len() == 0 { seq![] } else { seq![wrap_join(and, "cfoo."@, has, "&&"@)] };
            let nors: Seq<Seq<char>> = if nor.len() == 0 { seq![] } else { seq![wrap_join(nor, "!cfoo."@, has, "&&"@)] };
            assert(c0 =~= ands + nors);
        }
        checks_of_sets(&self.or_labels, "cfoo.", &mut checks);
        checks_of_sets(&self.nand_labels, "!cfoo.", &mut checks);
        proof {
            let checks_spec = label_checks(
                self.and_labels.deep_view(),
                self.nor_labels.deep_view(),
                nested_view(self.or_labels@),
                nested_view(self.nand_labels@),
            );
            assert(checks.deep_view() =~= checks_spec);
        }
        if checks.len() == 0 {
            body
        } else {
            let mut r = String::from_str("if (");
            let w = wrap_join_exec(&checks, "(", ")", "&&");
            r.append(w.as_str());
            r.append(") {");
            r.append(body.as_str());
            r.append("}");
            r
        }
    }
}


/// The call of the system's function with its argument expressions.
pub open spec fn call_code(s: System) -> Seq<char> {
    s.name@ + "("@ + join(s.args.deep_view(), ","@) + ")"@
}

/// The loop over the entities that hold every component of `s`, which calls
/// the system where the labels allow it.
pub open spec fn components_code(s: System) -> Seq<char> {
    let c = s.c_args.deep_view();
    "for eid in crate::ecs::shared::intersect::intersect_keys(&mut ["@
        + wrap_join(c, "crate::ecs::shared::intersect::get_keys(&cfoo."@, ")"@, ","@)
        + "]).iter() { if let ("@
        + wrap_join(c, "Some("@, "),"@, ""@)
        + ") = ("@
        + wrap_join(c, "cfoo."@, ".get_mut(eid),"@, ""@)
        + ") { "@
        + labels_code(s, call_code(s))
        + " } }"@
}

/// The type of a container item: the entity id, or a (mutable) reference.
pub open spec fn vtype_code(c: ContainerView) -> Seq<char> {
    match c {
        ContainerView::EntityId => "&Entity"@,
        ContainerView::Component(_, m) => if m { "&mut"@ } else { "&"@ },
    }
}

/// `n` times `None`, joined with commas.
pub open spec fn nones(n: nat) -> Seq<char> {
    join(Seq::new(n, |_i: int| "None"@), ","@)
}

/// The iterator over the first container item's map.
pub open spec fn iter_code(c: ContainerView) -> Seq<char> {
    match c {
        ContainerView::EntityId => "iter"@,
        ContainerView::Component(_, m) => if m { "iter_mut"@ } else { "iter"@ },
    }
}

/// The closure that starts a row of `n` container items from the first.
pub open spec fn tuple_init_code(c: ContainerView, n: nat) -> Seq<char> {
    match c {
        ContainerView::EntityId => "|k| (k, (None, "@ + nones((n - 1) as nat) + "))"@,
        ContainerView::Component(_, _) => "|(k, v)| (k, (Some(v), "@ + nones((n - 1) as nat) + "))"@,
    }
}

/// The variable of container item `j`.
pub open spec fn var_name(j: nat) -> Seq<char> {
    "v"@ + decimal(j)
}

/// The call that narrows the rows to those whose entity has component `c`,
/// which fills item `j`.
pub open spec fn intersect_call(c: Seq<char>, m: bool, j: nat) -> Seq<char> {
    "crate::ecs::shared::intersect::intersect"@ + (if m { "_mut"@ } else { ""@ })
        + "(v, &mut cfoo."@ + c + ", |t| &mut t."@ + decimal(j) + ")"@
}

/// The narrowing calls for the component items among items `1..n`.
pub open spec fn intersect_calls(c: Seq<Seq<char>>, v: Seq<ContainerView>, n: int) -> Seq<Seq<char>>
    decreases n,
{
    if n <= 1 {
        seq![]
    } else {
        let prev = intersect_calls(c, v, n - 1);
        match v[n - 1] {
            ContainerView::EntityId => prev,
            ContainerView::Component(_, m) => prev.push(intersect_call(c[n - 1], m, (n - 1) as nat)),
        }
    }
}

/// The variables of the component items among the first `n`.
pub open spec fn comp_vars(v: Seq<ContainerView>, n: int) -> Seq<Seq<char>>
    decreases n,
{
    if n <= 0 {
        seq![]
    } else {
        let prev = comp_vars(v, n - 1);
        match v[n - 1] {
            ContainerView::EntityId => prev,
            ContainerView::Component(_, _) => prev.push(var_name((n - 1) as nat)),
        }
    }
}

/// What a row hands out for item `j`: the entity id or the item's variable.
pub open spec fn row_arg(v: Seq<ContainerView>, j: int) -> Seq<char> {
    match v[j] {
        ContainerView::EntityId => "eid"@,
        ContainerView::Component(_, _) => var_name(j as nat),
    }
}

/// How many items the container code pairs with their components.
pub open spec fn paired(s: System) -> int {
    if s.c_args@.len() <= s.v_types@.len() { s.c_args@.len() as int } else { s.v_types@.len() as int }
}

/// The code that collects the rows of the system's container: the first
/// item's map, narrowed by each further component, filtered by the labels,
/// then the call.
pub open spec fn container_code(s: System) -> Seq<char> {
    let c = s.c_args.deep_view();
    let v = container_views(s.v_types@);
    let n = paired(s);
    let cv = comp_vars(v, n);
    "let mut v = cfoo."@ + c[0] + "."@ + iter_code(v[0]) + "().map("@ + tuple_init_code(v[0], v.len())
        + ").collect::<std::collections::HashMap<_, ("@
        + wrap_join(v.map_values(|x: ContainerView| vtype_code(x)), "Option<"@, ">,"@, ""@)
        + ")>>();"@
        + wrap_join(intersect_calls(c, v, n), "v = "@, ";"@, ""@)
        + "let v = v.into_iter().filter_map(|(eid, ("@
        + wrap_join(Seq::new(n as nat, |j: int| var_name(j as nat)), ""@, ","@, ""@)
        + "))| { if let ("@
        + wrap_join(cv, "Some("@, "),"@, ""@)
        + ") = ("@
        + wrap_join(cv, ""@, ","@, ""@)
        + ") { "@
        + labels_code(s, "return Some(("@ + wrap_join(Seq::new(n as nat, |j: int| row_arg(v, j)), ""@, ","@, ""@) + "));"@)
        + " } None }).collect::<Vec<_>>();"@
        + call_code(s) + ";"@
}

/// The body of the system's run: the call alone, the loop over entities, or
/// the container code.
pub open spec fn body_code(s: System) -> Seq<char> {
    if s.c_args@.len() == 0 {
        call_code(s)
    } else if !s.is_vec {
        components_code(s)
    } else {
        container_code(s)
    }
}

/// The code that runs the system: at once on the managers for an init
/// system, else a closure added for its event.
pub open spec fn system_code(s: System) -> Seq<char> {
    if s.is_init {
        "(|cfoo: &mut cfoo, gfoo: &mut gfoo, efoo: &mut efoo| { "@ + body_code(s)
            + " })(&mut self.cm, &mut self.gm, &mut self.events);"@
    } else {
        "let f = |cfoo: &mut CFoo, gfoo: &mut GFoo, efoo: &mut EFoo| { if let Some(e) = efoo.get_event() { "@
            + body_code(s) + " } }; self.add_system(E::"@ + s.event@ + ", Box::new(f));"@
    }
}

/// `prefix` followed by the decimal numeral of `n`.
fn numbered(prefix: &str, n: usize) -> (r: String)
    ensures
        r@ == prefix@ + decimal(n as nat),
{
    let mut d = chars_of(prefix);
    push_decimal(&mut d, n);
    string_of(&d)
}


fn intersect_calls_exec(c: &Vec<String>, v: &Vec<ContainerArg>, n: usize) -> (r: Vec<String>)
    requires
        n <= c@.len(),
        n <= v@.len(),
    ensures
        r.deep_view() == intersect_calls(c.deep_view(), container_views(v@), n as int),
{
    let ghost cv = c.deep_view();
    let ghost vv = container_views(v@);
    let mut r: Vec<String> = Vec::new();
    if n <= 1 {
        return r;
    }
    let mut j: usize = 1;
    while j < n
        invariant
            1 <= j <= n,
            n <= c@.len(),
            n <= v@.len(),
            cv == c.deep_view(),
            vv == container_views(v@),
            r.deep_view() == intersect_calls(cv, vv, j as int),
        decreases n - j,
    {
        let ghost r0 = r.deep_view();
        proof {
            assert(vv[j as int] == v@[j as int]@);
            assert(cv[j as int] == c@[j as int]@);
        }
        match &v[j] {
            ContainerArg::EntityId => {},
            ContainerArg::Component(_, m) => {
                let mut t = String::from_str("crate::ecs::shared::intersect::intersect");
                if *m {
                    t.append("_mut");
                } else {
                    t.append("");
                }
                t.append("(v, &mut cfoo.");
                t.append(c[j].as_str());
                let num = numbered(", |t| &mut t.", j);
                t.append(num.as_str());
                t.append(")");
                proof {
                    let mm = if *m { "_mut"@ } else { ""@ };
                    assert(t@ =~= intersect_call(cv[j as int], *m, j as nat));
                }
                r.push(t);
                proof {
                    assert(r.deep_view() =~= r0.push(t@));
                }
            },
        }
        j = j + 1;
    }
    r
}

/// The variables of all `n` items, of the component items, and what each row
/// hands out.
fn row_names(v: &Vec<ContainerArg>, n: usize) -> (r: (Vec<String>, Vec<String>, Vec<String>))
    requires
        n <= v@.len(),
    ensures
        r.0.deep_view() == Seq::new(n as nat, |j: int| var_name(j as nat)),
        r.1.deep_view() == comp_vars(container_views(v@), n as int),
        r.2.deep_view() == Seq::new(n as nat, |j: int| row_arg(container_views(v@), j)),
{
    let ghost vv = container_views(v@);
    let mut all: Vec<String> = Vec::new();
    let mut comps: Vec<String> = Vec::new();
    let mut rows: Vec<String> = Vec::new();
    let mut j: usize = 0;
    while j < n
        invariant
            j <= n,
            n <= v@.len(),
            vv == container_views(v@),
            all.deep_view() == Seq::new(j as nat, |k: int| var_name(k as nat)),
            comps.deep_view() == comp_vars(vv, j as int),
            rows.deep_view() == Seq::new(j as nat, |k: int| row_arg(vv, k)),
        decreases n - j,
    {
        let name = numbered("v", j);
        let ghost a0 = all.deep_view();
        let ghost c0 = comps.deep_view();
        let ghost r0 = rows.deep_view();
        proof {
            assert(vv[j as int] == v@[j as int]@);
        }
        all.push(name.clone());
        match &v[j] {
            ContainerArg::EntityId => {
                rows.push(String::from_str("eid"));
            },
            ContainerArg::Component(_, _) => {
                comps.push(name.clone());
                rows.push(name);
            },
        }
        proof {
            assert(all.deep_view() =~= a0.push(var_name(j as nat)));
            assert(all.deep_view() =~= Seq::new((j + 1) as nat, |k: int| var_name(k as nat)));
            assert(rows.deep_view() =~= r0.push(row_arg(vv, j as int)));
            assert(rows.deep_view() =~= Seq::new((j + 1) as nat, |k: int| row_arg(vv, k)));
            assert(comps.deep_view() =~= comp_vars(vv, j + 1));
        }
        j = j + 1;
    }
    (all, comps, rows)
}

fn nones_exec(n: usize) -> (r: String)
    ensures
        r@ == nones(n as nat),
{
    let mut parts: Vec<String> = Vec::new();
    let mut i: usize = 0;
    while i < n
        invariant
            i <= n,
            parts.deep_view() == Seq::new(i as nat, |_k: int| "None"@),
        decreases n - i,
    {
        let t = String::from_str("None");
        let ghost p0 = parts.deep_view();
        parts.push(t);
        proof {
            assert(parts.deep_view() =~= p0.push(t@));
            assert(parts.deep_view() =~= Seq::new((i + 1) as nat, |_k: int| "None"@));
        }
        i = i + 1;
    }
    join_strings(&parts, ",")
}

impl System {
    fn call_exec(&self) -> (r: String)
        ensures
            r@ == call_code(*self),
    {
        let mut r = self.name.clone();
        r.append("(");
        let a = join_strings(&self.args, ",");
        r.append(a.as_str());
        r.append(")");
        r
    }

    fn components_exec(&self) -> (r: String)
        ensures
            r@ == components_code(*self),
    {
        let mut r = String::from_str("for eid in crate::ecs::shared::intersect::intersect_keys(&mut [");
        let w = wrap_join_exec(&self.c_args, "crate::ecs::shared::intersect::get_keys(&cfoo.", ")", ",");
        r.append(w.as_str());
        r.append("]).iter() { if let (");
        let w = wrap_join_exec(&self.c_args, "Some(", "),", "");
        r.append(w.as_str());
        r.append(") = (");
        let w = wrap_join_exec(&self.c_args, "cfoo.", ".get_mut(eid),", "");
        r.append(w.as_str());
        r.append(") { ");
        let call = self.call_exec();
        let guarded = self.quote_labels(call);
        r.append(guarded.as_str());
        r.append(" } }");
        r
    }

    fn container_exec(&self) -> (r: String)
        requires
            self.c_args@.len() > 0,
            self.v_types@.len() > 0,
        ensures
            r@ == container_code(*self),
    {
        let ghost v = container_views(self.v_types@);
        let ghost c = self.c_args.deep_view();
        let n: usize = if self.c_args.len() <= self.v_types.len() { self.c_args.len() } else { self.v_types.len() };
        proof {
            assert(v[0] == self.v_types@[0]@);
            assert(c[0] == self.c_args@[0]@);
        }
        let mut r = String::from_str("let mut v = cfoo.");
        r.append(self.c_args[0].as_str());
        r.append(".");
        let none_list = nones_exec(self.v_types.len() - 1);
        match &self.v_types[0] {
            ContainerArg::EntityId => {
                r.append("iter");
                r.append("().map(");
                r.append("|k| (k, (None, ");
            },
            ContainerArg::Component(_, m) => {
                if *m {
                    r.append("iter_mut");
                } else {
                    r.append("iter");
                }
                r.append("().map(");
                r.append("|(k, v)| (k, (Some(v), ");
            },
        }
        r.append(none_list.as_str());
        r.append("))");
        let ghost head = "let mut v = cfoo."@ + c[0] + "."@ + iter_code(v[0]) + "().map("@ + tuple_init_code(v[0], v.len());
        proof {
            assert(r@ =~= head);
        }
        r.append(").collect::<std::collections::HashMap<_, (");
        let mut tys: Vec<String> = Vec::new();
        let mut i: usize = 0;
        while i < self.v_types.len()
            invariant
                i <= self.v_types@.len(),
                v == container_views(self.v_types@),
                tys.deep_view() == v.map_values(|x: ContainerView| vtype_code(x)).take(i as int),
            decreases self.v_types.len() - i,
        {
            let t = match &self.v_types[i] {
                ContainerArg::EntityId => String::from_str("&Entity"),
                ContainerArg::Component(_, m) => if *m { String::from_str("&mut") } else { String::from_str("&") },
            };
            let ghost t0 = tys.deep_view();
            tys.push(t);
            proof {
                assert(v[i as int] == self.v_types@[i as int]@);
                assert(tys.deep_view() =~= t0.push(t@));
                assert(v.map_values(|x: ContainerView| vtype_code(x)).take(i + 1)
                    =~= v.map_values(|x: ContainerView| vtype_code(x)).take(i as int).push(vtype_code(v[i as int])));
            }
            i = i + 1;
        }
        proof {
            assert(v.map_values(|x: ContainerView| vtype_code(x)).take(self.v_types@.len() as int)
                =~= v.map_values(|x: ContainerView| vtype_code(x)));
        }
        let w = wrap_join_exec(&tys, "Option<", ">,", "");
        r.append(w.as_str());
        r.append(")>>();");
        let calls = intersect_calls_exec(&self.c_args, &self.v_types, n);
        let w = wrap_join_exec(&calls, "v = ", ";", "");
        r.append(w.as_str());
        let (all, comps, rows) = row_names(&self.v_types, n);
        r.append("let v = v.into_iter().filter_map(|(eid, (");
        let w = wrap_join_exec(&all, "", ",", "");
        r.append(w.as_str());
        r.append("))| { if let (");
        let w = wrap_join_exec(&comps, "Some(", "),", "");
        r.append(w.as_str());
        r.append(") = (");
        let w = wrap_join_exec(&comps, "", ",", "");
        r.append(w.as_str());
        r.append(") { ");
        let mut ret = String::from_str("return Some((");
        let w = wrap_join_exec(&rows, "", ",", "");
        ret.append(w.as_str());
        ret.append("));");
        let guarded = self.quote_labels(ret);
        r.append(guarded.as_str());
        r.append(" } None }).collect::<Vec<_>>();");
        let call = self.call_exec();
        r.append(call.as_str());
        r.append(";");
        r
    }

    /// The code that runs the system, as text: at once for an init system,
    /// else as a closure added for its event; the body calls the system's
    /// function directly, for each entity that has its components, or on the
    /// rows of its container, in each case where its labels allow.
    pub fn to_quote(&self) -> (r: String)
        requires
            self.c_args@.len() > 0 && self.is_vec ==> self.v_types@.len() > 0,
        ensures
            r@ == system_code(*self),
    {
        let body = if self.c_args.len() == 0 {
            self.call_exec()
        } else if !self.is_vec {
            self.components_exec()
        } else {
            self.container_exec()
        };
        if self.is_init {
            let mut r = String::from_str("(|cfoo: &mut cfoo, gfoo: &mut gfoo, efoo: &mut efoo| { ");
            r.append(body.as_str());
            r.append(" })(&mut self.cm, &mut self.gm, &mut self.events);");
            r
        } else {
            let mut r = String::from_str(
                "let f = |cfoo: &mut CFoo, gfoo: &mut GFoo, efoo: &mut EFoo| { if let Some(e) = efoo.get_event() { ",
            );
            r.append(body.as_str());
            r.append(" } }; self.add_system(E::");
            r.append(self.event.as_str());
            r.append(", Box::new(f));");
            r
        }
    }
}


/// The code of each system, in order.
pub fn systems_code(systems: &Vec<System>) -> (r: Vec<String>)
    requires
        all_wf(systems@),
    ensures
        r.deep_view() == systems@.map_values(|s: System| system_code(s)),
{
    let mut r: Vec<String> = Vec::new();
    let mut i: usize = 0;
    while i < systems.len()
        invariant
            i <= systems@.len(),
            all_wf(systems@),
            r.deep_view() == systems@.map_values(|s: System| system_code(s)).take(i as int),
        decreases systems.len() - i,
    {
        proof {
            assert(systems@[i as int].wf());
        }
        let c = systems[i].to_quote();
        let ghost r0 = r.deep_view();
        r.push(c);
        proof {
            assert(r.deep_view() =~= r0.push(c@));
            assert(systems@.map_values(|s: System| system_code(s)).take(i + 1)
                =~= systems@.map_values(|s: System| system_code(s)).take(i as int).push(system_code(systems@[i as int])));
        }
        i = i + 1;
    }
    proof {
        assert(systems@.map_values(|s: System| system_code(s)).take(systems@.len() as int)
            =~= systems@.map_values(|s: System| system_code(s)));
    }
    r
}

} // verus!
