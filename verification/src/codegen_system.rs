use vstd::prelude::*;
use vstd::string::*;
use crate::data_grammar::{
    is_id, var_exec, arg_token_exec, label_token, label_token_exec, system_parts, system_parts_exec, tail_string, var_token,
    vector_token, vector_token_exec,
};
use crate::text::{chars_of, split_char, split_on};
use crate::str_set::{disjoint, minus, set_of, union_into, unique_strings};
use crate::data_grammar::{arg_token, args_valid};

verus! {

/// How the components of a label combine: all, any, not all, none.
#[derive(Clone, Copy, Debug, PartialEq, Eq)]
pub enum LabelType {
    And,
    Or,
    Nand,
    Nor,
}

/// `s` without its leading `l`s.
pub open spec fn trim_l(s: Seq<char>) -> Seq<char>
    decreases s.len(),
{
    if s.len() > 0 && s[0] == 'l' { trim_l(s.drop_first()) } else { s }
}

/// The kind of a label from its data: after the leading `l`s, `&` is AND, `|`
/// OR, `!&` NAND and `!|` NOR.
pub open spec fn label_type_of(s: Seq<char>) -> Option<LabelType> {
    let t = trim_l(s);
    if t.len() >= 1 && t[0] == '&' {
        Some(LabelType::And)
    } else if t.len() >= 1 && t[0] == '|' {
        Some(LabelType::Or)
    } else if t.len() >= 2 && t[0] == '!' && t[1] == '&' {
        Some(LabelType::Nand)
    } else if t.len() >= 2 && t[0] == '!' && t[1] == '|' {
        Some(LabelType::Nor)
    } else {
        None
    }
}

fn trim_l_from(v: &Vec<char>) -> (k: usize)
    ensures
        k <= v@.len(),
        trim_l(v@) == v@.skip(k as int),
{
    let mut k: usize = 0;
    proof {
        assert(v@.skip(0) =~= v@);
    }
    while k < v.len() && v[k] == 'l'
        invariant
            k <= v@.len(),
            trim_l(v@) == trim_l(v@.skip(k as int)),
        decreases v.len() - k,
    {
        proof {
            assert(v@.skip(k as int).drop_first() =~= v@.skip(k + 1));
        }
        k = k + 1;
    }
    proof {
        assert(v@.skip(k as int).len() == 0 || v@.skip(k as int)[0] != 'l');
    }
    k
}

impl LabelType {
    /// The kind of the label whose data is `value`.
    pub fn from(value: &str) -> (t: LabelType)
        requires
            label_type_of(value@) is Some,
        ensures
            Some(t) == label_type_of(value@),
    {
        let v = chars_of(value);
        let k = trim_l_from(&v);
        let n = v.len();
        if k < n && v[k] == '&' {
            LabelType::And
        } else if k < n && v[k] == '|' {
            LabelType::Or
        } else if k + 1 < n && v[k] == '!' && v[k + 1] == '&' {
            LabelType::Nand
        } else {
            LabelType::Nor
        }
    }
}

/// An item of a container: the entity id, or a component and whether it is
/// taken mutably.
#[derive(Clone, Debug)]
pub enum ContainerArg {
    EntityId,
    Component(String, bool),
}

/// A container item as characters.
pub enum ContainerView {
    EntityId,
    Component(Seq<char>, bool),
}

impl View for ContainerArg {
    type V = ContainerView;

    open spec fn view(&self) -> ContainerView {
        match self {
            ContainerArg::EntityId => ContainerView::EntityId,
            ContainerArg::Component(c, m) => ContainerView::Component(c@, *m),
        }
    }
}

/// One argument of a system as the data describes it.
#[derive(Clone, Debug)]
pub enum FnArg {
    EntityId,
    Component(String),
    Global(String),
    Event(String),
    Label(LabelType, Vec<String>),
    Container(Vec<ContainerArg>),
}

/// An argument as characters.
pub enum ArgView {
    EntityId,
    Component(Seq<char>),
    Global(Seq<char>),
    Event(Seq<char>),
    Label(LabelType, Seq<Seq<char>>),
    Container(Seq<ContainerView>),
}

/// The views of container items.
pub open spec fn container_views(v: Seq<ContainerArg>) -> Seq<ContainerView> {
    v.map_values(|c: ContainerArg| c@)
}

impl View for FnArg {
    type V = ArgView;

    open spec fn view(&self) -> ArgView {
        match self {
            FnArg::EntityId => ArgView::EntityId,
            FnArg::Component(c) => ArgView::Component(c@),
            FnArg::Global(g) => ArgView::Global(g@),
            FnArg::Event(e) => ArgView::Event(e@),
            FnArg::Label(t, v) => ArgView::Label(*t, v.deep_view()),
            FnArg::Container(v) => ArgView::Container(container_views(v@)),
        }
    }
}

/// `s` without its leading `l`, `!`, `&` and `|` characters.
pub open spec fn trim_label(s: Seq<char>) -> Seq<char>
    decreases s.len(),
{
    if s.len() > 0 && (s[0] == 'l' || s[0] == '!' || s[0] == '&' || s[0] == '|') {
        trim_label(s.drop_first())
    } else {
        s
    }
}

/// `s` without its leading `m`s.
pub open spec fn trim_m(s: Seq<char>) -> Seq<char>
    decreases s.len(),
{
    if s.len() > 0 && s[0] == 'm' { trim_m(s.drop_first()) } else { s }
}

/// A container item from its data: `id`, or a component, mutable when it
/// starts with `m`.
pub open spec fn container_item(s: Seq<char>) -> ContainerView {
    if s == "id"@ {
        ContainerView::EntityId
    } else {
        ContainerView::Component(trim_m(s), s.len() > 0 && s[0] == 'm')
    }
}

/// `container_item` as a function value.
pub open spec fn container_item_fn() -> spec_fn(Seq<char>) -> ContainerView {
    |a: Seq<char>| container_item(a)
}

/// The container items of data `s` (after its `v`).
pub open spec fn container_items(s: Seq<char>) -> Seq<ContainerView> {
    split_on(s.skip(1), '-').map_values(container_item_fn())
}

/// What one argument's data stands for: tried as entity id, component, global,
/// event, label and container, in that order.
pub open spec fn parse_arg_view(s: Seq<char>) -> Option<ArgView> {
    if s == "id"@ {
        Some(ArgView::EntityId)
    } else if var_token(s, 'c') {
        Some(ArgView::Component(s))
    } else if var_token(s, 'g') {
        Some(ArgView::Global(s))
    } else if var_token(s, 'e') {
        Some(ArgView::Event(s))
    } else if label_token(s) {
        Some(ArgView::Label(label_type_of(s)->0, split_on(trim_label(s), '-')))
    } else if vector_token(s) {
        Some(ArgView::Container(container_items(s)))
    } else {
        None
    }
}


/// A label token names its kind.
proof fn lemma_label_has_type(s: Seq<char>)
    requires
        label_token(s),
    ensures
        label_type_of(s) is Some,
{
    assert(s[0] == 'l');
    assert(s.len() >= 3);
    assert(s[1] != 'l');
    assert(s.drop_first().len() > 0 && s.drop_first()[0] == s[1]);
    assert(trim_l(s.drop_first()) == s.drop_first());
    assert(trim_l(s) == s.drop_first());
}

fn trim_label_exec(v: &Vec<char>) -> (k: usize)
    ensures
        k <= v@.len(),
        trim_label(v@) == v@.skip(k as int),
{
    let mut k: usize = 0;
    proof {
        assert(v@.skip(0) =~= v@);
    }
    while k < v.len() && (v[k] == 'l' || v[k] == '!' || v[k] == '&' || v[k] == '|')
        invariant
            k <= v@.len(),
            trim_label(v@) == trim_label(v@.skip(k as int)),
        decreases v.len() - k,
    {
        proof {
            assert(v@.skip(k as int).drop_first() =~= v@.skip(k + 1));
        }
        k = k + 1;
    }
    k
}

fn trim_m_exec(v: &Vec<char>) -> (k: usize)
    ensures
        k <= v@.len(),
        trim_m(v@) == v@.skip(k as int),
{
    let mut k: usize = 0;
    proof {
        assert(v@.skip(0) =~= v@);
    }
    while k < v.len() && v[k] == 'm'
        invariant
            k <= v@.len(),
            trim_m(v@) == trim_m(v@.skip(k as int)),
        decreases v.len() - k,
    {
        proof {
            assert(v@.skip(k as int).drop_first() =~= v@.skip(k + 1));
        }
        k = k + 1;
    }
    k
}

fn container_item_exec(s: &str) -> (r: ContainerArg)
    ensures
        r@ == container_item(s@),
{
    let v = chars_of(s);
    if is_id(&v) {
        return ContainerArg::EntityId;
    }
    let k = trim_m_exec(&v);
    let name = tail_string(&v, k);
    ContainerArg::Component(name, v.len() > 0 && v[0] == 'm')
}

/// The recognizers of the data grammar of systems.
pub struct SystemRegexes {}

impl SystemRegexes {
    /// The recognizers.
    pub fn new() -> (r: Self) {
        SystemRegexes {}
    }

    /// The name, the arguments and the init mark of a system's data (see
    /// `system_parts`).
    pub fn parse_data(&self, sys_str: &str) -> (r: Option<(String, String, bool)>)
        ensures
            match r {
                Some((name, args, init)) => system_parts(sys_str@) == Some((name@, args@, init)),
                None => system_parts(sys_str@) is None,
            },
    {
        system_parts_exec(sys_str)
    }

    /// What one argument's data stands for (see `parse_arg_view`).
    pub fn parse_arg(&self, arg_str: &str) -> (r: Option<FnArg>)
        ensures
            match r {
                Some(a) => parse_arg_view(arg_str@) == Some(a@),
                None => parse_arg_view(arg_str@) is None,
            },
    {
        let v = chars_of(arg_str);
        if is_id(&v) {
            return Some(FnArg::EntityId);
        }
        if var_exec(&v, 0, 'c') {
            return Some(FnArg::Component(String::from_str(arg_str)));
        }
        if var_exec(&v, 0, 'g') {
            return Some(FnArg::Global(String::from_str(arg_str)));
        }
        if var_exec(&v, 0, 'e') {
            return Some(FnArg::Event(String::from_str(arg_str)));
        }
        if label_token_exec(arg_str) {
            proof {
                lemma_label_has_type(arg_str@);
            }
            let ty = LabelType::from(arg_str);
            let k = trim_label_exec(&v);
            let rest = tail_string(&v, k);
            let comps = split_char(rest.as_str(), '-');
            return Some(FnArg::Label(ty, comps));
        }
        if vector_token_exec(arg_str) {
            let rest = tail_string(&v, 1);
            let pieces = split_char(rest.as_str(), '-');
            let mut items: Vec<ContainerArg> = Vec::new();
            let mut i: usize = 0;
            while i < pieces.len()
                invariant
                    i <= pieces@.len(),
                    items@.len() == i,
                    pieces.deep_view() == split_on(arg_str@.skip(1), '-'),
                    container_views(items@) == split_on(arg_str@.skip(1), '-').take(i as int).map_values(container_item_fn()),
                decreases pieces.len() - i,
            {
                let item = container_item_exec(pieces[i].as_str());
                let ghost old_items = items@;
                items.push(item);
                proof {
                    assert(pieces.deep_view()[i as int] == pieces@[i as int]@);
                    let target = split_on(arg_str@.skip(1), '-').take(i + 1).map_values(container_item_fn());
                    assert forall|j: int| 0 <= j < i + 1 implies container_views(items@)[j] == target[j] by {
                        assert(container_views(items@)[j] == items@[j]@);
                        if j < i {
                            assert(items@[j] == old_items[j]);
                            assert(container_views(old_items)[j] == old_items[j]@);
                            let prev = split_on(arg_str@.skip(1), '-').take(i as int).map_values(container_item_fn());
                            assert(prev[j] == target[j]);
                        } else {
                            assert(items@[j] == item);
                            assert(split_on(arg_str@.skip(1), '-').take(i + 1)[j] == pieces@[i as int]@);
                            assert(target[j] == container_item(pieces@[i as int]@));
                        }
                    }
                    assert(container_views(items@) =~= target);
                }
                i = i + 1;
            }
            proof {
                assert(split_on(arg_str@.skip(1), '-').take(pieces@.len() as int) =~= split_on(arg_str@.skip(1), '-'));
            }
            return Some(FnArg::Container(items));
        }
        None
    }
}


/// A system to generate code for: the path of its function, the expression
/// passed for each argument, the components it iterates over, its label sets,
/// the items of its container, the globals it takes, its event and whether it
/// takes a container or runs at init.
#[derive(Debug)]
pub struct System {
    pub name: String,
    pub args: Vec<String>,
    pub c_args: Vec<String>,
    pub and_labels: Vec<String>,
    pub or_labels: Vec<Vec<String>>,
    pub nor_labels: Vec<String>,
    pub nand_labels: Vec<Vec<String>>,
    pub v_types: Vec<ContainerArg>,
    pub g_args: Vec<String>,
    pub event: String,
    pub is_vec: bool,
    pub is_init: bool,
}

/// A system with its label lists as sets.
pub struct SystemView {
    pub name: Seq<char>,
    pub args: Seq<Seq<char>>,
    pub c_args: Seq<Seq<char>>,
    pub and_labels: Set<Seq<char>>,
    pub or_labels: Seq<Set<Seq<char>>>,
    pub nor_labels: Set<Seq<char>>,
    pub nand_labels: Seq<Set<Seq<char>>>,
    pub v_types: Seq<ContainerView>,
    pub g_args: Seq<Seq<char>>,
    pub event: Seq<char>,
    pub is_vec: bool,
    pub is_init: bool,
}

/// A list of string lists as a list of sets.
pub open spec fn sets_of(v: Seq<Vec<String>>) -> Seq<Set<Seq<char>>> {
    v.map_values(|x: Vec<String>| set_of(x.deep_view()))
}

impl View for System {
    type V = SystemView;

    open spec fn view(&self) -> SystemView {
        SystemView {
            name: self.name@,
            args: self.args.deep_view(),
            c_args: self.c_args.deep_view(),
            and_labels: set_of(self.and_labels.deep_view()),
            or_labels: sets_of(self.or_labels@),
            nor_labels: set_of(self.nor_labels.deep_view()),
            nand_labels: sets_of(self.nand_labels@),
            v_types: container_views(self.v_types@),
            g_args: self.g_args.deep_view(),
            event: self.event@,
            is_vec: self.is_vec,
            is_init: self.is_init,
        }
    }
}

impl System {
    /// No label list holds a label twice (they stand for sets), and a system
    /// that takes a container has at least one container item.
    pub open spec fn wf(&self) -> bool {
        &&& self.is_vec ==> self.v_types@.len() > 0
        &&& self.and_labels.deep_view().no_duplicates()
        &&& self.nor_labels.deep_view().no_duplicates()
        &&& forall|i: int| 0 <= i < self.or_labels@.len() ==> (#[trigger] self.or_labels@[i]).deep_view().no_duplicates()
        &&& forall|i: int| 0 <= i < self.nand_labels@.len() ==> (#[trigger] self.nand_labels@[i]).deep_view().no_duplicates()
    }
}

/// The name a container item goes by among the components: the generated
/// entity id list for the id, else the component.
pub open spec fn container_name(c: ContainerView) -> Seq<char> {
    match c {
        ContainerView::EntityId => "eids"@,
        ContainerView::Component(n, _) => n,
    }
}

/// `container_name` as a function value.
pub open spec fn container_name_fn() -> spec_fn(ContainerView) -> Seq<char> {
    |c: ContainerView| container_name(c)
}

/// The system after one more argument: an id, a component (also iterated
/// over), a global (`&mut gfoo.<g>`), the event, a label (its set joins the
/// system's sets), or a container (whose items become the iterated
/// components).
pub open spec fn step(st: SystemView, a: ArgView) -> SystemView {
    match a {
        ArgView::EntityId => SystemView { args: st.args.push("id"@), ..st },
        ArgView::Component(c) => SystemView { args: st.args.push(c), c_args: st.c_args.push(c), ..st },
        ArgView::Global(g) => SystemView { args: st.args.push("&mut gfoo."@ + g), g_args: st.g_args.push(g), ..st },
        ArgView::Event(_) => SystemView { args: st.args.push("e"@), event: "e"@, ..st },
        ArgView::Label(ty, ls) => {
            let st1 = SystemView { args: st.args.push("std::marker::PhantomData"@), ..st };
            match ty {
                LabelType::And => SystemView { and_labels: st.and_labels.union(ls.to_set()), ..st1 },
                LabelType::Or => SystemView { or_labels: st.or_labels.push(ls.to_set()), ..st1 },
                LabelType::Nand => SystemView { nand_labels: st.nand_labels.push(ls.to_set()), ..st1 },
                LabelType::Nor => SystemView { nor_labels: st.nor_labels.union(ls.to_set()), ..st1 },
            }
        },
        ArgView::Container(items) => SystemView {
            args: st.args.push("v"@),
            is_vec: true,
            c_args: items.map_values(container_name_fn()),
            v_types: items,
            ..st
        },
    }
}

impl System {
    fn add_arg(&mut self, a: FnArg)
        requires
            old(self).wf(),
            a matches FnArg::Container(items) ==> items@.len() > 0,
        ensures
            final(self).wf(),
            final(self)@ == step(old(self)@, a@),
    {
        let ghost s0 = self@;
        match a {
            FnArg::EntityId => {
                self.args.push(String::from_str("id"));
                proof {
                    assert(self@.args =~= s0.args.push("id"@));
                }
            },
            FnArg::Component(c) => {
                self.args.push(c.clone());
                self.c_args.push(c);
                proof {
                    assert(self@.args =~= s0.args.push(c@));
                    assert(self@.c_args =~= s0.c_args.push(c@));
                }
            },
            FnArg::Global(g) => {
                let mut t = String::from_str("&mut gfoo.");
                t.append(g.as_str());
                self.args.push(t);
                self.g_args.push(g);
                proof {
                    assert(self@.args =~= s0.args.push("&mut gfoo."@ + g@));
                    assert(self@.g_args =~= s0.g_args.push(g@));
                }
            },
            FnArg::Event(_) => {
                self.args.push(String::from_str("e"));
                self.event = String::from_str("e");
                proof {
                    assert(self@.args =~= s0.args.push("e"@));
                }
            },
            FnArg::Label(ty, ls) => {
                self.args.push(String::from_str("std::marker::PhantomData"));
                proof {
                    assert(self@.args =~= s0.args.push("std::marker::PhantomData"@));
                }
                match ty {
                    LabelType::And => union_into(&mut self.and_labels, &ls),
                    LabelType::Nor => union_into(&mut self.nor_labels, &ls),
                    LabelType::Or => {
                        let u = unique_strings(&ls);
                        let ghost old_or = self.or_labels@;
                        self.or_labels.push(u);
                        proof {
                            assert(self.or_labels@ == old_or.push(u));
                            assert(sets_of(self.or_labels@) =~= sets_of(old_or).push(ls.deep_view().to_set()));
                        }
                    },
                    LabelType::Nand => {
                        let u = unique_strings(&ls);
                        let ghost old_nand = self.nand_labels@;
                        self.nand_labels.push(u);
                        proof {
                            assert(self.nand_labels@ == old_nand.push(u));
                            assert(sets_of(self.nand_labels@) =~= sets_of(old_nand).push(ls.deep_view().to_set()));
                        }
                    },
                }
            },
            FnArg::Container(items) => {
                self.args.push(String::from_str("v"));
                self.is_vec = true;
                let mut names: Vec<String> = Vec::new();
                let mut i: usize = 0;
                while i < items.len()
                    invariant
                        i <= items@.len(),
                        names@.len() == i,
                        names.deep_view() == container_views(items@).take(i as int).map_values(container_name_fn()),
                    decreases items.len() - i,
                {
                    let n = match &items[i] {
                        ContainerArg::EntityId => String::from_str("eids"),
                        ContainerArg::Component(c, _) => c.clone(),
                    };
                    let ghost old_names = names@;
                    names.push(n);
                    proof {
                        let target = container_views(items@).take(i + 1).map_values(container_name_fn());
                        assert forall|j: int| 0 <= j < i + 1 implies names.deep_view()[j] == target[j] by {
                            if j < i {
                                assert(names@[j] == old_names[j]);
                                let prev = container_views(items@).take(i as int).map_values(container_name_fn());
                                assert(prev[j] == target[j]);
                            } else {
                                assert(container_views(items@)[j] == items@[j]@);
                            }
                        }
                        assert(names.deep_view() =~= target);
                    }
                    i = i + 1;
                }
                proof {
                    assert(container_views(items@).take(items@.len() as int) =~= container_views(items@));
                }
                self.c_args = names;
                self.v_types = items;
                proof {
                    assert(self@.args =~= s0.args.push("v"@));
                }
            },
        }
    }
}


/// The sets of `s` that are not empty and share nothing with `other`, in order.
pub open spec fn keep_open(s: Seq<Set<Seq<char>>>, other: Set<Seq<char>>) -> Seq<Set<Seq<char>>>
    decreases s.len(),
{
    if s.len() == 0 {
        seq![]
    } else {
        let r = keep_open(s.drop_last(), other);
        let x = s.last();
        if x == Set::<Seq<char>>::empty() || !x.disjoint(other) { r } else { r.push(x) }
    }
}

/// Each set of `s` without the members of `t`.
pub open spec fn minus_each(s: Seq<Set<Seq<char>>>, t: Set<Seq<char>>) -> Seq<Set<Seq<char>>>
    decreases s.len(),
{
    if s.len() == 0 {
        seq![]
    } else {
        minus_each(s.drop_last(), t).push(s.last().difference(t))
    }
}

/// Whether one of the sets is empty.
pub open spec fn has_empty(s: Seq<Set<Seq<char>>>) -> bool {
    exists|i: int| 0 <= i < s.len() && s[i] == Set::<Seq<char>>::empty()
}

pub open spec fn msg_and_nor() -> Seq<char> {
    "A label is in both AND and NOR. The label condition cannot be satisfied\nNote that all components are implicitly AND labels"@
}

pub open spec fn msg_or_nor() -> Seq<char> {
    "All labels in at least one OR set are also in NOR. The label condition cannot be satisfied"@
}

pub open spec fn msg_nand_and() -> Seq<char> {
    "All labels in at least on NAND set are also in AND. The label condition cannot be satisfied\nNote that all components are implicitly AND labels"@
}

/// The label sets simplified, or why they cannot be met: the components count
/// as AND labels; AND and NOR must not meet; OR sets that meet AND always
/// hold and go, the others lose their NOR labels and must keep one; NAND sets
/// that meet NOR always hold and go, the others lose their AND labels and must
/// keep one; the components leave AND.
pub open spec fn labels_checked(v: SystemView) -> Result<SystemView, Seq<char>> {
    let and1 = v.and_labels.union(set_of(v.c_args));
    if !and1.disjoint(v.nor_labels) {
        Err(msg_and_nor())
    } else {
        let ors = minus_each(keep_open(v.or_labels, and1), v.nor_labels);
        if has_empty(ors) {
            Err(msg_or_nor())
        } else {
            let nands = minus_each(keep_open(v.nand_labels, v.nor_labels), and1);
            if has_empty(nands) {
                Err(msg_nand_and())
            } else {
                Ok(SystemView {
                    and_labels: and1.difference(set_of(v.c_args)),
                    or_labels: ors,
                    nand_labels: nands,
                    ..v
                })
            }
        }
    }
}

/// The sets of `sets` kept by `keep_open` against `other`, each without the
/// members of `minus_by`, and whether one of them came out empty.
fn filter_sets(sets: &Vec<Vec<String>>, other: &Vec<String>, minus_by: &Vec<String>) -> (r: (Vec<Vec<String>>, bool))
    requires
        forall|i: int| 0 <= i < sets@.len() ==> (#[trigger] sets@[i]).deep_view().no_duplicates(),
    ensures
        sets_of(r.0@) == minus_each(keep_open(sets_of(sets@), set_of(other.deep_view())), set_of(minus_by.deep_view())),
        r.1 == has_empty(sets_of(r.0@)),
        forall|i: int| 0 <= i < r.0@.len() ==> (#[trigger] r.0@[i]).deep_view().no_duplicates(),
{
    let ghost o = set_of(other.deep_view());
    let ghost t = set_of(minus_by.deep_view());
    let mut out: Vec<Vec<String>> = Vec::new();
    let mut any_empty = false;
    let mut i: usize = 0;
    while i < sets.len()
        invariant
            i <= sets@.len(),
            o == set_of(other.deep_view()),
            t == set_of(minus_by.deep_view()),
            forall|j: int| 0 <= j < sets@.len() ==> (#[trigger] sets@[j]).deep_view().no_duplicates(),
            sets_of(out@) == minus_each(keep_open(sets_of(sets@).take(i as int), o), t),
            any_empty == has_empty(sets_of(out@)),
            forall|j: int| 0 <= j < out@.len() ==> (#[trigger] out@[j]).deep_view().no_duplicates(),
        decreases sets.len() - i,
    {
        let x = &sets[i];
        let ghost xs = set_of(x.deep_view());
        proof {
            assert(sets_of(sets@).take(i + 1).drop_last() =~= sets_of(sets@).take(i as int));
            assert(sets_of(sets@).take(i + 1).last() == xs);
            crate::str_set::lemma_empty_set(x.deep_view());
        }
        if x.len() == 0 || !disjoint(x, other) {
        } else {
            let y = minus(x, minus_by);
            let ghost old_out = out@;
            let ghost ks = keep_open(sets_of(sets@).take(i as int), o);
            let y_empty = y.len() == 0;
            let ghost yv = y.deep_view();
            out.push(y);
            proof {
                assert(keep_open(sets_of(sets@).take(i + 1), o) == ks.push(xs));
                assert(ks.push(xs).drop_last() =~= ks);
                assert(minus_each(ks.push(xs), t) == minus_each(ks, t).push(xs.difference(t)));
                assert(sets_of(out@) =~= sets_of(old_out).push(set_of(yv)));
                crate::str_set::lemma_empty_set(yv);
                if y_empty {
                    assert(sets_of(out@)[old_out.len() as int] == Set::<Seq<char>>::empty());
                } else {
                    if has_empty(sets_of(out@)) {
                        let j = choose|j: int| 0 <= j < sets_of(out@).len() && sets_of(out@)[j] == Set::<Seq<char>>::empty();
                        if j < old_out.len() {
                            assert(sets_of(old_out)[j] == sets_of(out@)[j]);
                        }
                    }
                    if any_empty {
                        let j = choose|j: int| 0 <= j < sets_of(old_out).len() && sets_of(old_out)[j] == Set::<Seq<char>>::empty();
                        assert(sets_of(out@)[j] == sets_of(old_out)[j]);
                    }
                }
            }
            if y_empty {
                any_empty = true;
            }
        }
        i = i + 1;
    }
    proof {
        assert(sets_of(sets@).take(sets@.len() as int) =~= sets_of(sets@));
    }
    (out, any_empty)
}


impl System {
    fn check_labels(&mut self) -> (r: Result<(), String>)
        requires
            old(self).wf(),
        ensures
            match r {
                Ok(()) => labels_checked(old(self)@) == Ok::<SystemView, Seq<char>>(final(self)@) && final(self).wf(),
                Err(m) => labels_checked(old(self)@) == Err::<SystemView, Seq<char>>(m@),
            },
    {
        let ghost s0 = self@;
        // Components are implicitly part of AND
        let mut and1 = crate::ast_resolve::clone_strings(&self.and_labels);
        union_into(&mut and1, &self.c_args);
        if !disjoint(&and1, &self.nor_labels) {
            return Err(String::from_str("A label is in both AND and NOR. The label condition cannot be satisfied\nNote that all components are implicitly AND labels"));
        }
        let (ors, or_empty) = filter_sets(&self.or_labels, &and1, &self.nor_labels);
        if or_empty {
            return Err(String::from_str("All labels in at least one OR set are also in NOR. The label condition cannot be satisfied"));
        }
        let (nands, nand_empty) = filter_sets(&self.nand_labels, &self.nor_labels, &and1);
        if nand_empty {
            return Err(String::from_str("All labels in at least on NAND set are also in AND. The label condition cannot be satisfied\nNote that all components are implicitly AND labels"));
        }
        let new_and = minus(&and1, &self.c_args);
        self.and_labels = new_and;
        self.or_labels = ors;
        self.nand_labels = nands;
        proof {
            assert(self@ =~= (SystemView {
                and_labels: s0.and_labels.union(set_of(s0.c_args)).difference(set_of(s0.c_args)),
                or_labels: sets_of(ors@),
                nand_labels: sets_of(nands@),
                ..s0
            }));
        }
        Ok(())
    }
}

/// The system after the arguments `pieces`, one after the other.
pub open spec fn steps(st: SystemView, pieces: Seq<Seq<char>>) -> SystemView
    decreases pieces.len(),
{
    if pieces.len() == 0 {
        st
    } else {
        step(steps(st, pieces.drop_last()), parse_arg_view(pieces.last())->0)
    }
}

/// The argument pieces of an argument list: none for an empty list.
pub open spec fn arg_pieces(args: Seq<char>) -> Seq<Seq<char>> {
    if args.len() == 0 { seq![] } else { split_on(args, ':') }
}

/// A system with nothing taken yet.
pub open spec fn empty_system(name: Seq<char>, is_init: bool) -> SystemView {
    SystemView {
        name,
        args: seq![],
        c_args: seq![],
        and_labels: Set::empty(),
        or_labels: seq![],
        nor_labels: Set::empty(),
        nand_labels: seq![],
        v_types: seq![],
        g_args: seq![],
        event: seq![],
        is_vec: false,
        is_init,
    }
}

/// The system that data `data` of the crate at `cr_path` describes, or the
/// reason it cannot be read: the data has not the shape of a system, its name
/// cannot name an identifier (see `ident_ok`), or an argument or the labels
/// are refused.
pub open spec fn parse_view(cr_path: Seq<char>, data: Seq<char>) -> Result<SystemView, Seq<char>> {
    match system_parts(data) {
        None => Err("Could not parse system: "@ + data),
        Some((name, args, init)) => if !crate::ident::ident_ok(name) {
            Err(crate::ident::ident_error(name))
        } else {
            labels_checked(steps(empty_system(cr_path + "::"@ + name, init), arg_pieces(args)))
        },
    }
}

impl System {
    /// Reads a system from its data, or says why it cannot (see `parse_view`).
    pub fn try_parse(cr_path: &str, data: &str, regexes: &SystemRegexes) -> (r: Result<System, String>)
        ensures
            match r {
                Ok(s) => parse_view(cr_path@, data@) == Ok::<SystemView, Seq<char>>(s@) && s.wf(),
                Err(m) => parse_view(cr_path@, data@) == Err::<SystemView, Seq<char>>(m@),
            },
    {
        let (name, args, is_init) = match regexes.parse_data(data) {
            Some(p) => p,
            None => {
                let mut m = String::from_str("Could not parse system: ");
                m.append(data);
                return Err(m);
            },
        };
        if let Some(m) = crate::ident::ident_error_of(name.as_str()) {
            return Err(m);
        }
        let mut full = String::from_str(cr_path);
        full.append("::");
        full.append(name.as_str());
        let mut s = System {
            name: full,
            args: Vec::new(),
            c_args: Vec::new(),
            and_labels: Vec::new(),
            or_labels: Vec::new(),
            nor_labels: Vec::new(),
            nand_labels: Vec::new(),
            v_types: Vec::new(),
            g_args: Vec::new(),
            event: String::new(),
            is_vec: false,
            is_init,
        };
        proof {
            assert(s@ =~= empty_system(cr_path@ + "::"@ + name@, is_init)) by {
                assert(set_of(s.and_labels.deep_view()) =~= Set::<Seq<char>>::empty());
                assert(set_of(s.nor_labels.deep_view()) =~= Set::<Seq<char>>::empty());
                assert(sets_of(s.or_labels@) =~= Seq::<Set<Seq<char>>>::empty());
                assert(sets_of(s.nand_labels@) =~= Seq::<Set<Seq<char>>>::empty());
                assert(container_views(s.v_types@) =~= Seq::<ContainerView>::empty());
                assert(s.args.deep_view() =~= Seq::<Seq<char>>::empty());
                assert(s.c_args.deep_view() =~= Seq::<Seq<char>>::empty());
                assert(s.g_args.deep_view() =~= Seq::<Seq<char>>::empty());
                reveal_strlit("");
            }
        }
        let ghost st0 = s@;
        if args.unicode_len() > 0 {
            let pieces = split_char(args.as_str(), ':');
            let mut i: usize = 0;
            while i < pieces.len()
                invariant
                    i <= pieces@.len(),
                    args@.len() > 0,
                    args_valid(args@),
                    pieces.deep_view() == split_on(args@, ':'),
                    s.wf(),
                    s@ == steps(st0, pieces.deep_view().take(i as int)),
                decreases pieces.len() - i,
            {
                proof {
                    assert(pieces.deep_view()[i as int] == pieces@[i as int]@);
                    assert(arg_token(split_on(args@, ':')[i as int]));
                    assert(pieces.deep_view().take(i + 1).drop_last() =~= pieces.deep_view().take(i as int));
                    assert(pieces.deep_view().take(i + 1).last() == pieces@[i as int]@);
                }
                match regexes.parse_arg(pieces[i].as_str()) {
                    Some(a) => {
                        proof {
                            if a is Container {
                                let p = pieces@[i as int]@;
                                crate::text::lemma_split_nonempty(p.skip(1), '-');
                                assert(container_views(a->Container_0@).len() == container_items(p).len());
                            }
                        }
                        s.add_arg(a)
                    },
                    None => {
                        proof {
                            assert(false);
                        }
                    },
                }
                i = i + 1;
            }
            proof {
                assert(pieces.deep_view().take(pieces@.len() as int) =~= pieces.deep_view());
            }
        } else {
            proof {
                assert(arg_pieces(args@) =~= Seq::<Seq<char>>::empty());
            }
        }
        match s.check_labels() {
            Ok(()) => Ok(s),
            Err(m) => Err(m),
        }
    }

    /// Reads a system from data that describes one (see `parse_view`).
    pub fn parse(cr_path: &str, data: &str, regexes: &SystemRegexes) -> (s: System)
        requires
            parse_view(cr_path@, data@) is Ok,
        ensures
            parse_view(cr_path@, data@) == Ok::<SystemView, Seq<char>>(s@),
            s.wf(),
    {
        match Self::try_parse(cr_path, data, regexes) {
            Ok(s) => s,
            Err(_) => {
                proof {
                    assert(false);
                }
                System {
                    name: String::new(),
                    args: Vec::new(),
                    c_args: Vec::new(),
                    and_labels: Vec::new(),
                    or_labels: Vec::new(),
                    nor_labels: Vec::new(),
                    nand_labels: Vec::new(),
                    v_types: Vec::new(),
                    g_args: Vec::new(),
                    event: String::new(),
                    is_vec: false,
                    is_init: false,
                }
            },
        }
    }
}


proof fn lemma_keep_open(s: Seq<Set<Seq<char>>>, other: Set<Seq<char>>)
    ensures
        forall|i: int| 0 <= i < keep_open(s, other).len() ==>
            #[trigger] keep_open(s, other)[i] != Set::<Seq<char>>::empty() && keep_open(s, other)[i].disjoint(other),
    decreases s.len(),
{
    if s.len() > 0 {
        lemma_keep_open(s.drop_last(), other);
        let r = keep_open(s.drop_last(), other);
        let x = s.last();
        if !(x == Set::<Seq<char>>::empty() || !x.disjoint(other)) {
            assert(keep_open(s, other) == r.push(x));
            assert forall|i: int| 0 <= i < r.push(x).len() implies
                #[trigger] r.push(x)[i] != Set::<Seq<char>>::empty() && r.push(x)[i].disjoint(other) by {
                if i < r.len() {
                    assert(r.push(x)[i] == r[i]);
                }
            }
        }
    }
}

proof fn lemma_minus_each(s: Seq<Set<Seq<char>>>, t: Set<Seq<char>>)
    ensures
        minus_each(s, t).len() == s.len(),
        forall|i: int| 0 <= i < s.len() ==> #[trigger] minus_each(s, t)[i] == s[i].difference(t),
    decreases s.len(),
{
    if s.len() > 0 {
        lemma_minus_each(s.drop_last(), t);
    }
}

/// The label sets of a system that passes the check can all be met together:
/// AND and NOR share nothing; every OR set is left with a label that is in
/// neither AND nor NOR; every NAND set is left with a label that is in neither
/// AND, NOR nor the components.
pub proof fn lemma_checked_labels_consistent(v: SystemView)
    requires
        labels_checked(v) is Ok,
    ensures
        ({
            let w = labels_checked(v)->Ok_0;
            &&& w.and_labels.disjoint(w.nor_labels)
            &&& w.and_labels.disjoint(set_of(v.c_args))
            &&& forall|i: int| 0 <= i < w.or_labels.len() ==> #[trigger] w.or_labels[i] != Set::<Seq<char>>::empty()
                && w.or_labels[i].disjoint(w.and_labels) && w.or_labels[i].disjoint(w.nor_labels)
            &&& forall|i: int| 0 <= i < w.nand_labels.len() ==> #[trigger] w.nand_labels[i] != Set::<Seq<char>>::empty()
                && w.nand_labels[i].disjoint(w.and_labels) && w.nand_labels[i].disjoint(w.nor_labels)
                && w.nand_labels[i].disjoint(set_of(v.c_args))
        }),
{
    let and1 = v.and_labels.union(set_of(v.c_args));
    let w = labels_checked(v)->Ok_0;
    let ors0 = keep_open(v.or_labels, and1);
    let nands0 = keep_open(v.nand_labels, v.nor_labels);
    lemma_keep_open(v.or_labels, and1);
    lemma_keep_open(v.nand_labels, v.nor_labels);
    lemma_minus_each(ors0, v.nor_labels);
    lemma_minus_each(nands0, and1);
    assert(w.and_labels.disjoint(w.nor_labels));
    assert forall|i: int| 0 <= i < w.or_labels.len() implies #[trigger] w.or_labels[i] != Set::<Seq<char>>::empty()
        && w.or_labels[i].disjoint(w.and_labels) && w.or_labels[i].disjoint(w.nor_labels) by {
        assert(w.or_labels[i] == ors0[i].difference(v.nor_labels));
        assert(!has_empty(w.or_labels));
        assert(ors0[i].disjoint(and1));
    }
    assert forall|i: int| 0 <= i < w.nand_labels.len() implies #[trigger] w.nand_labels[i] != Set::<Seq<char>>::empty()
        && w.nand_labels[i].disjoint(w.and_labels) && w.nand_labels[i].disjoint(w.nor_labels)
        && w.nand_labels[i].disjoint(set_of(v.c_args)) by {
        assert(w.nand_labels[i] == nands0[i].difference(and1));
        assert(!has_empty(w.nand_labels));
        assert(nands0[i].disjoint(v.nor_labels));
    }
}

} // verus!
