use vstd::prelude::*;
use vstd::string::*;
use crate::ast_fn_arg::{FnArg, FnArgType};
use crate::ast_item_list::{derefs, ItemList};
use crate::ast_items::{Component, Event, Global, System};
use crate::ast_paths::{EngineContainers, EngineGlobals, Paths};
use crate::ast_resolve::{Path, PathView};
use crate::ast_system::{
    after_add_component, after_add_container, after_add_event, after_add_global, push_err,
    validated, with_errs, SystemValidate, ValidateView,
};
use crate::constants::{var2, EID};
use crate::text::{decimal, join, push_decimal, string_of};

verus! {

/// The first position, from `k` on, where `s` holds `p`.
pub open spec fn first_path_from(s: Seq<PathView>, p: PathView, k: int) -> Option<usize>
    decreases s.len() - k,
{
    if k < 0 || k >= s.len() {
        None
    } else if s[k] == p {
        Some(k as usize)
    } else {
        first_path_from(s, p, k + 1)
    }
}

/// The first position where `s` holds `p`.
pub open spec fn first_path(s: Seq<PathView>, p: PathView) -> Option<usize> {
    first_path_from(s, p, 0)
}

/// What system arguments are looked up in: per crate the paths of the
/// components, of the globals (and whether each is constant) and of the events,
/// and the path segments of the engine traits (crate index left out).
pub struct ItemsView {
    pub comps: Seq<Seq<PathView>>,
    pub globals: Seq<Seq<PathView>>,
    pub global_consts: Seq<Seq<bool>>,
    pub events: Seq<Seq<PathView>>,
    pub traits: Seq<PathView>,
}

/// The paths of components.
pub open spec fn comp_paths_of(v: Seq<Component>) -> Seq<PathView> {
    Seq::new(v.len(), |i: int| v[i].path@)
}

/// The paths of globals.
pub open spec fn global_paths_of(v: Seq<Global>) -> Seq<PathView> {
    Seq::new(v.len(), |i: int| v[i].path@)
}

/// Whether each global is constant.
pub open spec fn global_consts_of(v: Seq<Global>) -> Seq<bool> {
    Seq::new(v.len(), |i: int| v[i].args.is_const)
}

/// The paths of events.
pub open spec fn event_paths_of(v: Seq<Event>) -> Seq<PathView> {
    Seq::new(v.len(), |i: int| v[i].path@)
}

/// The path segments of the engine traits, with crate index `0`.
pub open spec fn trait_segments_of(v: Seq<Global>) -> Seq<PathView> {
    Seq::new(v.len(), |i: int| PathView { cr_idx: 0, path: v[i].path@.path })
}

/// The item lists as paths.
pub open spec fn items_view(items: ItemList) -> ItemsView {
    ItemsView {
        comps: Seq::new(items.components@.len(), |k: int| comp_paths_of(derefs(items.components@[k]@))),
        globals: Seq::new(items.globals@.len(), |k: int| global_paths_of(derefs(items.globals@[k]@))),
        global_consts: Seq::new(items.globals@.len(), |k: int| global_consts_of(derefs(items.globals@[k]@))),
        events: Seq::new(items.events@.len(), |k: int| event_paths_of(derefs(items.events@[k]@))),
        traits: trait_segments_of(derefs(items.traits@)),
    }
}

/// The paths of the components of crate `cr`.
pub open spec fn component_paths(items: ItemsView, cr: int) -> Seq<PathView> {
    items.comps[cr]
}

/// The paths of the globals of crate `cr`.
pub open spec fn global_paths(items: ItemsView, cr: int) -> Seq<PathView> {
    items.globals[cr]
}

/// The paths of the events of crate `cr`.
pub open spec fn event_paths(items: ItemsView, cr: int) -> Seq<PathView> {
    items.events[cr]
}

/// The segments of the paths of the engine traits, crate index left out.
pub open spec fn trait_segments(items: ItemsView) -> Seq<PathView> {
    items.traits
}

/// Whether the argument is the entity id.
pub open spec fn is_eid(a: FnArg, paths: Paths) -> bool {
    a.ty matches FnArgType::Path(p) && p@ == paths.globals@[EngineGlobals::Entity.pos()]@
}

/// The crate and the index of the component that the argument names.
pub open spec fn component_of(a: FnArg, items: ItemsView) -> Option<(usize, usize)> {
    match a.ty {
        FnArgType::Path(p) => match first_path(component_paths(items, p.cr_idx as int), p@) {
            Some(i) => Some((p.cr_idx, i)),
            None => None,
        },
        _ => None,
    }
}

/// The crate and the index of the global that the argument names, and whether
/// it is constant.
pub open spec fn global_of(a: FnArg, items: ItemsView) -> Option<(usize, usize, bool)> {
    match a.ty {
        FnArgType::Path(p) => match first_path(global_paths(items, p.cr_idx as int), p@) {
            Some(i) => Some((p.cr_idx, i, items.global_consts[p.cr_idx as int][i as int])),
            None => None,
        },
        _ => None,
    }
}

/// The crate and the index of the event that the argument names.
pub open spec fn event_of(a: FnArg, items: ItemsView) -> Option<(usize, usize)> {
    match a.ty {
        FnArgType::Path(p) => match first_path(event_paths(items, p.cr_idx as int), p@) {
            Some(i) => Some((p.cr_idx, i)),
            None => None,
        },
        _ => None,
    }
}

/// The index of the engine trait that the argument names.
pub open spec fn trait_of(a: FnArg, items: ItemsView) -> Option<usize> {
    match a.ty {
        FnArgType::Trait(p) => first_path(trait_segments(items), PathView { cr_idx: 0, path: p@.path }),
        _ => None,
    }
}

/// The operator and the arguments of a label argument.
pub open spec fn label_of(a: FnArg, paths: Paths) -> Option<(Seq<char>, Seq<FnArg>)> {
    match a.ty {
        FnArgType::SContainer(p, b) => if p@ == paths.containers@[EngineContainers::Label.pos()]@ {
            Some(("&"@, seq![*b]))
        } else {
            None
        },
        FnArgType::Container(p, v) => if p@ == paths.containers@[EngineContainers::AndLabels.pos()]@ {
            Some(("&"@, v@))
        } else if p@ == paths.containers@[EngineContainers::OrLabels.pos()]@ {
            Some(("|"@, v@))
        } else if p@ == paths.containers@[EngineContainers::NandLabels.pos()]@ {
            Some(("|&"@, v@))
        } else if p@ == paths.containers@[EngineContainers::NorLabels.pos()]@ {
            Some(("!|"@, v@))
        } else {
            None
        },
        _ => None,
    }
}

/// The arguments of a container argument.
pub open spec fn container_of(a: FnArg, paths: Paths) -> Option<Seq<FnArg>> {
    match a.ty {
        FnArgType::Container(p, v) => if p@ == paths.containers@[EngineContainers::Container.pos()]@ {
            Some(v@)
        } else {
            None
        },
        _ => None,
    }
}

/// How a count of references is named in messages.
pub open spec fn ref_word(n: usize) -> Seq<char> {
    if n == 0 {
        "borrow"@
    } else if n == 1 {
        "single reference"@
    } else {
        decimal(n as nat) + " references"@
    }
}

/// The error when the argument is not taken through `n` references.
pub open spec fn ref_errs(a: FnArg, n: usize) -> Seq<Seq<char>> {
    if a.ref_cnt == n {
        seq![]
    } else {
        seq!["Type should be taken by "@ + ref_word(n) + ": \""@ + a.text@ + "\""@]
    }
}

/// The error when the argument's mutability is not `m`.
pub open spec fn mut_errs(a: FnArg, m: bool) -> Seq<Seq<char>> {
    if a.mutable == m {
        seq![]
    } else {
        seq!["Type should be taken "@ + (if m { "mutably"@ } else { "immutably"@ }) + ": \""@ + a.text@ + "\""@]
    }
}

pub open spec fn msg_label_expects(t: Seq<char>) -> Seq<char> { "Label expects Component type, found: "@ + t }
pub open spec fn msg_container_expects(t: Seq<char>) -> Seq<char> { "Container expects Component or Entity ID type, found: "@ + t }
pub open spec fn msg_unknown(t: Seq<char>) -> Seq<char> { "Argument: \""@ + t + "\" is not a known type"@ }

/// The token of one argument of a label.
pub open spec fn label_part(a: FnArg, items: ItemsView) -> Seq<char> {
    match component_of(a, items) {
        Some((cr, c)) => var2('c', cr as nat, c as nat),
        None => seq![],
    }
}

/// The error of one argument of a label.
pub open spec fn label_err(a: FnArg, items: ItemsView) -> Seq<Seq<char>> {
    if component_of(a, items) is Some { seq![] } else { seq![msg_label_expects(a.text@)] }
}

/// The token of one argument of a container.
pub open spec fn container_part(a: FnArg, paths: Paths, items: ItemsView) -> Seq<char> {
    if is_eid(a, paths) {
        EID@
    } else {
        match component_of(a, items) {
            Some((cr, c)) => (if a.mutable { "m"@ } else { ""@ }) + var2('c', cr as nat, c as nat),
            None => seq![],
        }
    }
}

/// The errors of one argument of a container.
pub open spec fn container_err(a: FnArg, paths: Paths, items: ItemsView) -> Seq<Seq<char>> {
    if is_eid(a, paths) {
        ref_errs(a, 1) + mut_errs(a, false)
    } else if component_of(a, items) is Some {
        ref_errs(a, 1)
    } else {
        seq![msg_container_expects(a.text@)]
    }
}

/// The tokens of the arguments of a label.
pub open spec fn label_parts(args: Seq<FnArg>, items: ItemsView) -> Seq<Seq<char>>
    decreases args.len(),
{
    if args.len() == 0 {
        seq![]
    } else {
        label_parts(args.drop_last(), items).push(label_part(args.last(), items))
    }
}

/// The errors of the arguments of a label, in order.
pub open spec fn label_errs(args: Seq<FnArg>, items: ItemsView) -> Seq<Seq<char>>
    decreases args.len(),
{
    if args.len() == 0 {
        seq![]
    } else {
        label_errs(args.drop_last(), items) + label_err(args.last(), items)
    }
}

/// The tokens of the arguments of a container.
pub open spec fn container_parts(args: Seq<FnArg>, paths: Paths, items: ItemsView) -> Seq<Seq<char>>
    decreases args.len(),
{
    if args.len() == 0 {
        seq![]
    } else {
        container_parts(args.drop_last(), paths, items).push(container_part(args.last(), paths, items))
    }
}

/// The errors of the arguments of a container, in order.
pub open spec fn container_errs(args: Seq<FnArg>, paths: Paths, items: ItemsView) -> Seq<Seq<char>>
    decreases args.len(),
{
    if args.len() == 0 {
        seq![]
    } else {
        container_errs(args.drop_last(), paths, items) + container_err(args.last(), paths, items)
    }
}


/// What one argument adds to its system's data, and the state after it: the
/// entity id, a component, a global, an event, an engine trait, a label or a
/// container, tried in that order, each with its checks on how it is taken.
pub open spec fn arg_outcome(a: FnArg, paths: Paths, items: ItemsView, v: ValidateView) -> (Seq<char>, ValidateView) {
    if is_eid(a, paths) {
        (EID@, ValidateView { has_eid: true, ..with_errs(v, ref_errs(a, 1) + mut_errs(a, false)) })
    } else if component_of(a, items) is Some {
        let (cr, c) = component_of(a, items)->0;
        (var2('c', cr as nat, c as nat), after_add_component(with_errs(v, ref_errs(a, 1)), a.text@, (cr, c)))
    } else if global_of(a, items) is Some {
        let (cr, g, is_const) = global_of(a, items)->0;
        let v1 = with_errs(v, ref_errs(a, 1) + if is_const { mut_errs(a, false) } else { seq![] });
        (var2('g', cr as nat, g as nat), after_add_global(v1, a.text@, (cr, g)))
    } else if event_of(a, items) is Some {
        let (cr, e) = event_of(a, items)->0;
        (var2('e', cr as nat, e as nat), after_add_event(with_errs(v, ref_errs(a, 1) + mut_errs(a, false)), a.text@))
    } else if trait_of(a, items) is Some {
        let t = trait_of(a, items)->0;
        (var2('g', 0, t as nat), after_add_global(with_errs(v, ref_errs(a, 1)), a.text@, (0, t)))
    } else if label_of(a, paths) is Some {
        let (op, args) = label_of(a, paths)->0;
        ("l"@ + op + join(label_parts(args, items), "-"@), with_errs(v, ref_errs(a, 0) + label_errs(args, items)))
    } else if container_of(a, paths) is Some {
        let args = container_of(a, paths)->0;
        (
            "v"@ + join(container_parts(args, paths, items), "-"@),
            with_errs(after_add_container(with_errs(v, ref_errs(a, 0)), a.text@), container_errs(args, paths, items)),
        )
    } else {
        (seq![], with_errs(v, seq![msg_unknown(a.text@)]))
    }
}

/// Whether the crate index of a plain argument of a label or container has
/// components listed.
pub open spec fn inner_in_range(a: FnArg, items: ItemsView) -> bool {
    match a.ty {
        FnArgType::Path(p) => p.cr_idx < items.comps.len(),
        _ => true,
    }
}

/// Whether looking the argument up touches only crates that the item lists
/// have (they are indexed by the crate index of the argument's path).
pub open spec fn arg_in_range(a: FnArg, paths: Paths, items: ItemsView) -> bool {
    if is_eid(a, paths) {
        true
    } else {
        match a.ty {
            FnArgType::Path(p) => p.cr_idx < items.comps.len() && (component_of(a, items) is Some || (
            p.cr_idx < items.globals.len() && (global_of(a, items) is Some || p.cr_idx < items.events.len()))),
            FnArgType::Trait(_) => true,
            _ => {
                &&& label_of(a, paths) is Some ==> forall|i: int|
                    0 <= i < (label_of(a, paths)->0).1.len() ==> #[trigger] inner_in_range((label_of(a, paths)->0).1[i], items)
                &&& (label_of(a, paths) is None && container_of(a, paths) is Some) ==> forall|i: int|
                    0 <= i < (container_of(a, paths)->0).len() ==> is_eid((container_of(a, paths)->0)[i], paths)
                        || #[trigger] inner_in_range((container_of(a, paths)->0)[i], items)
            },
        }
    }
}

fn inner_in_range_exec(a: &FnArg, items: &ItemList) -> (r: bool)
    ensures
        r == inner_in_range(*a, items_view(*items)),
{
    match &a.ty {
        FnArgType::Path(p) => p.cr_idx < items.components.len(),
        _ => true,
    }
}

/// Whether each of `args` is in range, or (where `eid_ok`) the entity id.
fn all_inner_in_range(args: &Vec<FnArg>, paths: &Paths, items: &ItemList, eid_ok: bool) -> (r: bool)
    ensures
        r == forall|i: int| 0 <= i < args@.len() ==> (eid_ok && is_eid(args@[i], *paths))
            || #[trigger] inner_in_range(args@[i], items_view(*items)),
{
    let mut i: usize = 0;
    while i < args.len()
        invariant
            i <= args@.len(),
            forall|k: int| 0 <= k < i ==> (eid_ok && is_eid(args@[k], *paths))
                || #[trigger] inner_in_range(args@[k], items_view(*items)),
        decreases args.len() - i,
    {
        let a = &args[i];
        if !(eid_ok && a.to_eid(paths)) && !inner_in_range_exec(a, items) {
            return false;
        }
        i = i + 1;
    }
    true
}

fn find_component(items: &ItemList, p: &Path) -> (r: Option<usize>)
    requires
        p.cr_idx < items.components@.len(),
    ensures
        r == first_path(component_paths(items_view(*items), p.cr_idx as int), p@),
{
    let v = &items.components[p.cr_idx];
    let ghost s = component_paths(items_view(*items), p.cr_idx as int);
    proof {
        assert(s == comp_paths_of(derefs(v@)));
    }
    let mut i: usize = 0;
    while i < v.len()
        invariant
            i <= v@.len(),
            p.cr_idx < items.components@.len(),
            *v == items.components@[p.cr_idx as int],
            s == component_paths(items_view(*items), p.cr_idx as int),
            s == comp_paths_of(derefs(v@)),
            s.len() == v@.len(),
            first_path(s, p@) == first_path_from(s, p@, i as int),
        decreases v.len() - i,
    {
        proof {
            assert(derefs(v@)[i as int] == *v@[i as int]);
        }
        if v[i].path.same(p) {
            assert(s[i as int] == v@[i as int].path@);
            return Some(i);
        }
        assert(s[i as int] == v@[i as int].path@);
        i = i + 1;
    }
    None
}

pub(crate) fn find_global(items: &ItemList, p: &Path) -> (r: Option<usize>)
    requires
        p.cr_idx < items.globals@.len(),
    ensures
        r == first_path(global_paths(items_view(*items), p.cr_idx as int), p@),
        r is Some ==> (r->0) < items.globals@[p.cr_idx as int]@.len(),
{
    let v = &items.globals[p.cr_idx];
    let ghost s = global_paths(items_view(*items), p.cr_idx as int);
    proof {
        assert(s == global_paths_of(derefs(v@)));
    }
    let mut i: usize = 0;
    while i < v.len()
        invariant
            i <= v@.len(),
            p.cr_idx < items.globals@.len(),
            *v == items.globals@[p.cr_idx as int],
            s == global_paths(items_view(*items), p.cr_idx as int),
            s == global_paths_of(derefs(v@)),
            s.len() == v@.len(),
            first_path(s, p@) == first_path_from(s, p@, i as int),
        decreases v.len() - i,
    {
        proof {
            assert(derefs(v@)[i as int] == *v@[i as int]);
        }
        if v[i].path.same(p) {
            assert(s[i as int] == v@[i as int].path@);
            return Some(i);
        }
        assert(s[i as int] == v@[i as int].path@);
        i = i + 1;
    }
    None
}

fn find_event(items: &ItemList, p: &Path) -> (r: Option<usize>)
    requires
        p.cr_idx < items.events@.len(),
    ensures
        r == first_path(event_paths(items_view(*items), p.cr_idx as int), p@),
{
    let v = &items.events[p.cr_idx];
    let ghost s = event_paths(items_view(*items), p.cr_idx as int);
    proof {
        assert(s == event_paths_of(derefs(v@)));
    }
    let mut i: usize = 0;
    while i < v.len()
        invariant
            i <= v@.len(),
            p.cr_idx < items.events@.len(),
            *v == items.events@[p.cr_idx as int],
            s == event_paths(items_view(*items), p.cr_idx as int),
            s == event_paths_of(derefs(v@)),
            s.len() == v@.len(),
            first_path(s, p@) == first_path_from(s, p@, i as int),
        decreases v.len() - i,
    {
        proof {
            assert(derefs(v@)[i as int] == *v@[i as int]);
        }
        if v[i].path.same(p) {
            assert(s[i as int] == v@[i as int].path@);
            return Some(i);
        }
        assert(s[i as int] == v@[i as int].path@);
        i = i + 1;
    }
    None
}

fn find_trait(items: &ItemList, p: &Path) -> (r: Option<usize>)
    ensures
        r == first_path(trait_segments(items_view(*items)), PathView { cr_idx: 0, path: p@.path }),
{
    let v = &items.traits;
    let ghost s = trait_segments(items_view(*items));
    let ghost q = PathView { cr_idx: 0, path: p@.path };
    let mut i: usize = 0;
    while i < v.len()
        invariant
            i <= v@.len(),
            *v == items.traits,
            s == trait_segments(items_view(*items)),
            q == (PathView { cr_idx: 0, path: p@.path }),
            s.len() == v@.len(),
            first_path(s, q) == first_path_from(s, q, i as int),
        decreases v.len() - i,
    {
        let same = crate::ast_resolve::same_strings(&v[i].path.path, &p.path);
        assert(s[i as int] == (PathView { cr_idx: 0, path: v@[i as int].path@.path }));
        if same {
            assert(s[i as int] == q);
            return Some(i);
        }
        assert(s[i as int] != q);
        i = i + 1;
    }
    None
}


/// The message when an argument is not taken through `n` references.
fn ref_message(a: &FnArg, n: usize) -> (s: String)
    ensures
        s@ == "Type should be taken by "@ + ref_word(n) + ": \""@ + a.text@ + "\""@,
{
    let mut s = String::from_str("Type should be taken by ");
    if n == 0 {
        s.append("borrow");
    } else if n == 1 {
        s.append("single reference");
    } else {
        let mut v: Vec<char> = Vec::new();
        push_decimal(&mut v, n);
        let d = string_of(&v);
        s.append(d.as_str());
        s.append(" references");
        proof {
            assert(s@ =~= "Type should be taken by "@ + (decimal(n as nat) + " references"@));
        }
    }
    s.append(": \"");
    s.append(a.text.as_str());
    s.append("\"");
    s
}

/// The message when an argument's mutability is not `m`.
fn mut_message(a: &FnArg, m: bool) -> (s: String)
    ensures
        s@ == "Type should be taken "@ + (if m { "mutably"@ } else { "immutably"@ }) + ": \""@ + a.text@ + "\""@,
{
    let mut s = String::from_str("Type should be taken ");
    if m {
        s.append("mutably");
    } else {
        s.append("immutably");
    }
    s.append(": \"");
    s.append(a.text.as_str());
    s.append("\"");
    s
}

impl FnArg {
    fn to_eid(&self, paths: &Paths) -> (r: bool)
        ensures
            r == is_eid(*self, *paths),
    {
        match &self.ty {
            FnArgType::Path(p) => p.same(paths.get_global(EngineGlobals::Entity)),
            _ => false,
        }
    }

    fn to_component(&self, items: &ItemList) -> (r: Option<(usize, usize)>)
        requires
            inner_in_range(*self, items_view(*items)),
        ensures
            r == component_of(*self, items_view(*items)),
    {
        match &self.ty {
            FnArgType::Path(p) => match find_component(items, p) {
                Some(i) => Some((p.cr_idx, i)),
                None => None,
            },
            _ => None,
        }
    }

    fn to_global(&self, items: &ItemList) -> (r: Option<(usize, usize, bool)>)
        requires
            self.ty matches FnArgType::Path(p) ==> p.cr_idx < items.globals@.len(),
        ensures
            r == global_of(*self, items_view(*items)),
    {
        match &self.ty {
            FnArgType::Path(p) => match find_global(items, p) {
                Some(i) => Some((p.cr_idx, i, items.globals[p.cr_idx][i].args.is_const)),
                None => None,
            },
            _ => None,
        }
    }

    fn to_event(&self, items: &ItemList) -> (r: Option<(usize, usize)>)
        requires
            self.ty matches FnArgType::Path(p) ==> p.cr_idx < items.events@.len(),
        ensures
            r == event_of(*self, items_view(*items)),
    {
        match &self.ty {
            FnArgType::Path(p) => match find_event(items, p) {
                Some(i) => Some((p.cr_idx, i)),
                None => None,
            },
            _ => None,
        }
    }

    fn to_trait(&self, items: &ItemList) -> (r: Option<usize>)
        ensures
            r == trait_of(*self, items_view(*items)),
    {
        match &self.ty {
            FnArgType::Trait(p) => find_trait(items, p),
            _ => None,
        }
    }

    fn to_label(&self, paths: &Paths) -> (r: Option<&'static str>)
        ensures
            r is Some <==> label_of(*self, *paths) is Some,
            r is Some ==> (r->0)@ == (label_of(*self, *paths)->0).0,
    {
        match &self.ty {
            FnArgType::SContainer(p, _) => {
                if p.same(paths.get_container(EngineContainers::Label)) {
                    Some("&")
                } else {
                    None
                }
            },
            FnArgType::Container(p, _) => {
                if p.same(paths.get_container(EngineContainers::AndLabels)) {
                    Some("&")
                } else if p.same(paths.get_container(EngineContainers::OrLabels)) {
                    Some("|")
                } else if p.same(paths.get_container(EngineContainers::NandLabels)) {
                    Some("|&")
                } else if p.same(paths.get_container(EngineContainers::NorLabels)) {
                    Some("!|")
                } else {
                    None
                }
            },
            _ => None,
        }
    }

    fn to_container(&self, paths: &Paths) -> (r: bool)
        ensures
            r == container_of(*self, *paths) is Some,
    {
        match &self.ty {
            FnArgType::Container(p, _) => p.same(paths.get_container(EngineContainers::Container)),
            _ => false,
        }
    }

    /// Whether looking this argument up touches only crates that the item
    /// lists have (see `arg_in_range`).
    fn in_range(&self, paths: &Paths, items: &ItemList) -> (r: bool)
        ensures
            r == arg_in_range(*self, *paths, items_view(*items)),
    {
        if self.to_eid(paths) {
            return true;
        }
        let ghost iv = items_view(*items);
        assert(iv.comps.len() == items.components@.len());
        assert(iv.globals.len() == items.globals@.len());
        assert(iv.events.len() == items.events@.len());
        match &self.ty {
            FnArgType::Path(p) => {
                if p.cr_idx >= items.components.len() {
                    false
                } else if self.to_component(items).is_some() {
                    true
                } else if p.cr_idx >= items.globals.len() {
                    false
                } else if self.to_global(items).is_some() {
                    true
                } else {
                    p.cr_idx < items.events.len()
                }
            },
            FnArgType::Trait(_) => true,
            FnArgType::SContainer(_, b) => {
                if self.to_label(paths).is_some() {
                    proof {
                        let l = (label_of(*self, *paths)->0).1;
                        assert(l =~= seq![**b]);
                        assert(l[0] == **b);
                    }
                    inner_in_range_exec(b, items)
                } else {
                    true
                }
            },
            FnArgType::Container(_, v) => {
                if self.to_label(paths).is_some() {
                    let r = all_inner_in_range(v, paths, items, false);
                    proof {
                        let l = (label_of(*self, *paths)->0).1;
                        assert(l == v@);
                        if r {
                            assert forall|i: int| 0 <= i < l.len() implies #[trigger] inner_in_range(l[i], iv) by {
                                assert(l[i] == v@[i]);
                            }
                        } else {
                            let i = choose|i: int| 0 <= i < v@.len() && !inner_in_range(v@[i], iv);
                            assert(l[i] == v@[i]);
                        }
                    }
                    r
                } else if self.to_container(paths) {
                    let r = all_inner_in_range(v, paths, items, true);
                    proof {
                        let l = container_of(*self, *paths)->0;
                        assert(l == v@);
                        if r {
                            assert forall|i: int| 0 <= i < l.len() implies is_eid(l[i], *paths) || #[trigger] inner_in_range(l[i], iv) by {
                                assert(l[i] == v@[i]);
                            }
                        } else {
                            let i = choose|i: int| 0 <= i < v@.len() && !is_eid(v@[i], *paths) && !inner_in_range(v@[i], iv);
                            assert(l[i] == v@[i]);
                        }
                    }
                    r
                } else {
                    true
                }
            },
        }
    }

    fn validate_ref(&self, n: usize, errs: &mut Vec<String>)
        ensures
            final(errs).deep_view() == old(errs).deep_view() + ref_errs(*self, n),
    {
        if self.ref_cnt != n {
            push_err(errs, ref_message(self, n));
        }
        proof {
            assert(final(errs).deep_view() =~= old(errs).deep_view() + ref_errs(*self, n));
        }
    }

    fn validate_mut(&self, m: bool, errs: &mut Vec<String>)
        ensures
            final(errs).deep_view() == old(errs).deep_view() + mut_errs(*self, m),
    {
        if self.mutable != m {
            push_err(errs, mut_message(self, m));
        }
        proof {
            assert(final(errs).deep_view() =~= old(errs).deep_view() + mut_errs(*self, m));
        }
    }
}


fn label_item(a: &FnArg, items: &ItemList, errs: &mut Vec<String>) -> (s: String)
    requires
        inner_in_range(*a, items_view(*items)),
    ensures
        s@ == label_part(*a, items_view(*items)),
        final(errs).deep_view() == old(errs).deep_view() + label_err(*a, items_view(*items)),
{
    match a.to_component(items) {
        Some((cr, c)) => {
            proof {
                assert(old(errs).deep_view() + label_err(*a, items_view(*items)) =~= old(errs).deep_view());
            }
            crate::constants::component_var(cr, c)
        },
        None => {
            push_err(errs, crate::text::cat("Label expects Component type, found: ", a.text.as_str()));
            proof {
                assert(final(errs).deep_view() =~= old(errs).deep_view() + label_err(*a, items_view(*items)));
            }
            String::new()
        },
    }
}

fn container_item(a: &FnArg, paths: &Paths, items: &ItemList, errs: &mut Vec<String>) -> (s: String)
    requires
        is_eid(*a, *paths) || inner_in_range(*a, items_view(*items)),
    ensures
        s@ == container_part(*a, *paths, items_view(*items)),
        final(errs).deep_view() == old(errs).deep_view() + container_err(*a, *paths, items_view(*items)),
{
    if a.to_eid(paths) {
        a.validate_ref(1, errs);
        a.validate_mut(false, errs);
        proof {
            assert(final(errs).deep_view() =~= old(errs).deep_view() + container_err(*a, *paths, items_view(*items)));
        }
        return String::from_str(EID);
    }
    match a.to_component(items) {
        Some((cr, c)) => {
            a.validate_ref(1, errs);
            let mut s = if a.mutable { String::from_str("m") } else { String::new() };
            let v = crate::constants::component_var(cr, c);
            s.append(v.as_str());
            proof {
                if !a.mutable {
                    assert(s@ =~= ""@ + var2('c', cr as nat, c as nat)) by {
                        reveal_strlit("");
                    }
                }
            }
            s
        },
        None => {
            push_err(errs, crate::text::cat("Container expects Component or Entity ID type, found: ", a.text.as_str()));
            proof {
                assert(final(errs).deep_view() =~= old(errs).deep_view() + container_err(*a, *paths, items_view(*items)));
            }
            String::new()
        },
    }
}

fn label_list(args: &Vec<FnArg>, items: &ItemList, errs: &mut Vec<String>) -> (parts: Vec<String>)
    requires
        forall|i: int| 0 <= i < args@.len() ==> #[trigger] inner_in_range(args@[i], items_view(*items)),
    ensures
        parts.deep_view() == label_parts(args@, items_view(*items)),
        final(errs).deep_view() == old(errs).deep_view() + label_errs(args@, items_view(*items)),
{
    let mut parts: Vec<String> = Vec::new();
    let mut i: usize = 0;
    while i < args.len()
        invariant
            i <= args@.len(),
            forall|j: int| 0 <= j < args@.len() ==> #[trigger] inner_in_range(args@[j], items_view(*items)),
            parts.deep_view() == label_parts(args@.take(i as int), items_view(*items)),
            errs.deep_view() == old(errs).deep_view() + label_errs(args@.take(i as int), items_view(*items)),
        decreases args.len() - i,
    {
        proof {
            assert(args@.take(i + 1).drop_last() =~= args@.take(i as int));
        }
        let part = label_item(&args[i], items, errs);
        let ghost old_parts = parts.deep_view();
        parts.push(part);
        proof {
            assert(parts.deep_view() =~= old_parts.push(part@));
            assert(errs.deep_view() =~= old(errs).deep_view() + label_errs(args@.take(i + 1), items_view(*items)));
        }
        i = i + 1;
    }
    proof {
        assert(args@.take(args@.len() as int) =~= args@);
    }
    parts
}

fn container_list(args: &Vec<FnArg>, paths: &Paths, items: &ItemList, errs: &mut Vec<String>) -> (parts: Vec<String>)
    requires
        forall|i: int| 0 <= i < args@.len() ==> is_eid(args@[i], *paths) || #[trigger] inner_in_range(args@[i], items_view(*items)),
    ensures
        parts.deep_view() == container_parts(args@, *paths, items_view(*items)),
        final(errs).deep_view() == old(errs).deep_view() + container_errs(args@, *paths, items_view(*items)),
{
    let mut parts: Vec<String> = Vec::new();
    let mut i: usize = 0;
    while i < args.len()
        invariant
            i <= args@.len(),
            forall|j: int| 0 <= j < args@.len() ==> is_eid(args@[j], *paths) || #[trigger] inner_in_range(args@[j], items_view(*items)),
            parts.deep_view() == container_parts(args@.take(i as int), *paths, items_view(*items)),
            errs.deep_view() == old(errs).deep_view() + container_errs(args@.take(i as int), *paths, items_view(*items)),
        decreases args.len() - i,
    {
        proof {
            assert(args@.take(i + 1).drop_last() =~= args@.take(i as int));
            assert(is_eid(args@[i as int], *paths) || inner_in_range(args@[i as int], items_view(*items)));
        }
        let part = container_item(&args[i], paths, items, errs);
        let ghost old_parts = parts.deep_view();
        parts.push(part);
        proof {
            assert(parts.deep_view() =~= old_parts.push(part@));
            assert(errs.deep_view() =~= old(errs).deep_view() + container_errs(args@.take(i + 1), *paths, items_view(*items)));
        }
        i = i + 1;
    }
    proof {
        assert(args@.take(args@.len() as int) =~= args@);
    }
    parts
}


impl FnArg {
    /// The token that this argument contributes to its system's data line, with
    /// the checks on how it is taken recorded in `validate` (see `arg_outcome`).
    pub fn validate_to_data(&self, paths: &Paths, items: &ItemList, validate: &mut SystemValidate) -> (data: String)
        requires
            arg_in_range(*self, *paths, items_view(*items)),
        ensures
            (data@, final(validate)@) == arg_outcome(*self, *paths, items_view(*items), old(validate)@),
    {
        let ghost v0 = validate@;
        if self.to_eid(paths) {
            self.validate_ref(1, &mut validate.errs);
            self.validate_mut(false, &mut validate.errs);
            validate.add_eid();
            proof {
                assert(validate@.errs =~= v0.errs + (ref_errs(*self, 1) + mut_errs(*self, false)));
                assert(validate@ =~= (ValidateView { has_eid: true, ..with_errs(v0, ref_errs(*self, 1) + mut_errs(*self, false)) }));
            }
            return String::from_str(EID);
        }
        if let Some((cr, c)) = self.to_component(items) {
            self.validate_ref(1, &mut validate.errs);
            proof {
                assert(validate@ =~= with_errs(v0, ref_errs(*self, 1)));
            }
            validate.add_component(self, (cr, c));
            return crate::constants::component_var(cr, c);
        }
        if let Some((cr, g, is_const)) = self.to_global(items) {
            self.validate_ref(1, &mut validate.errs);
            if is_const {
                self.validate_mut(false, &mut validate.errs);
            }
            proof {
                assert(validate@.errs =~= v0.errs + (ref_errs(*self, 1) + if is_const { mut_errs(*self, false) } else { seq![] }));
                assert(validate@ =~= with_errs(v0, ref_errs(*self, 1) + if is_const { mut_errs(*self, false) } else { seq![] }));
            }
            validate.add_global(self, (cr, g));
            return crate::constants::global_var(cr, g);
        }
        if let Some((cr, e)) = self.to_event(items) {
            self.validate_ref(1, &mut validate.errs);
            self.validate_mut(false, &mut validate.errs);
            proof {
                assert(validate@.errs =~= v0.errs + (ref_errs(*self, 1) + mut_errs(*self, false)));
                assert(validate@ =~= with_errs(v0, ref_errs(*self, 1) + mut_errs(*self, false)));
            }
            validate.add_event(self);
            return crate::constants::event_variant(cr, e);
        }
        if let Some(t) = self.to_trait(items) {
            self.validate_ref(1, &mut validate.errs);
            proof {
                assert(validate@ =~= with_errs(v0, ref_errs(*self, 1)));
            }
            validate.add_global(self, (0, t));
            return crate::constants::global_var(0, t);
        }
        if let Some(op) = self.to_label(paths) {
            self.validate_ref(0, &mut validate.errs);
            let ghost v1 = validate@;
            let parts = match &self.ty {
                FnArgType::SContainer(_, b) => {
                    proof {
                        assert((label_of(*self, *paths)->0).1 =~= seq![**b]);
                        assert(inner_in_range((label_of(*self, *paths)->0).1[0], items_view(*items)));
                    }
                    let part = label_item(&**b, items, &mut validate.errs);
                    let mut parts: Vec<String> = Vec::new();
                    parts.push(part);
                    proof {
                        let args = seq![**b];
                        assert(args.drop_last() =~= Seq::<FnArg>::empty());
                        assert(args.last() == **b);
                        assert(label_parts(args.drop_last(), items_view(*items)) =~= Seq::<Seq<char>>::empty());
                        assert(label_errs(args.drop_last(), items_view(*items)) =~= Seq::<Seq<char>>::empty());
                        assert(label_parts(args, items_view(*items)) =~= seq![label_part(**b, items_view(*items))]);
                        assert(label_errs(args, items_view(*items)) =~= label_err(**b, items_view(*items)));
                        assert(parts.deep_view() =~= seq![part@]);
                    }
                    parts
                },
                FnArgType::Container(_, v) => {
                    proof {
                        assert((label_of(*self, *paths)->0).1 == v@);
                    }
                    label_list(v, items, &mut validate.errs)
                },
                _ => Vec::new(),
            };
            let joined = crate::text::join_strings(&parts, "-");
            let mut data = String::from_str("l");
            data.append(op);
            data.append(joined.as_str());
            proof {
                let args = (label_of(*self, *paths)->0).1;
                assert(validate@.errs =~= v0.errs + (ref_errs(*self, 0) + label_errs(args, items_view(*items))));
                assert(validate@ =~= with_errs(v0, ref_errs(*self, 0) + label_errs(args, items_view(*items))));
            }
            return data;
        }
        if self.to_container(paths) {
            self.validate_ref(0, &mut validate.errs);
            validate.add_container(self);
            let parts = match &self.ty {
                FnArgType::Container(_, v) => {
                    proof {
                        assert(container_of(*self, *paths)->0 == v@);
                    }
                    container_list(v, paths, items, &mut validate.errs)
                },
                _ => Vec::new(),
            };
            let joined = crate::text::join_strings(&parts, "-");
            let mut data = String::from_str("v");
            data.append(joined.as_str());
            proof {
                let args = container_of(*self, *paths)->0;
                assert(validate@ =~= with_errs(after_add_container(with_errs(v0, ref_errs(*self, 0)), self.text@), container_errs(args, *paths, items_view(*items))));
            }
            return data;
        }
        push_err(&mut validate.errs, unknown_message(self));
        proof {
            assert(validate@.errs =~= v0.errs + seq![msg_unknown(self.text@)]);
            assert(validate@ =~= with_errs(v0, seq![msg_unknown(self.text@)]));
        }
        String::new()
    }
}

fn unknown_message(a: &FnArg) -> (s: String)
    ensures
        s@ == msg_unknown(a.text@),
{
    let mut s = String::from_str("Argument: \"");
    s.append(a.text.as_str());
    s.append("\" is not a known type");
    s
}


/// The tokens of `args` in order, and the state after all of them, from `v`.
pub open spec fn args_outcome(args: Seq<FnArg>, paths: Paths, items: ItemsView, v: ValidateView) -> (Seq<Seq<char>>, ValidateView)
    decreases args.len(),
{
    if args.len() == 0 {
        (seq![], v)
    } else {
        let (ds, v1) = args_outcome(args.drop_last(), paths, items, v);
        let (d, v2) = arg_outcome(args.last(), paths, items, v1);
        (ds.push(d), v2)
    }
}

/// No argument taken yet, no errors.
pub open spec fn fresh_view() -> ValidateView {
    ValidateView {
        errs: seq![],
        components: seq![],
        globals: seq![],
        has_event: false,
        has_eid: false,
        has_labels: false,
        has_vec: false,
    }
}

/// Whether every argument of the system can be looked up.
pub open spec fn system_in_range(sys: System, paths: Paths, items: ItemsView) -> bool {
    &&& sys.path@.path.len() >= 1
    &&& forall|i: int| 0 <= i < sys.args@.len() ==> #[trigger] arg_in_range(sys.args@[i], paths, items)
}

/// The data line of a system, `<path>(<arg>:<arg>...)` with the path after its
/// crate segment and `i` behind an init system, and the state after all
/// checks, whose errors are the system's errors.
pub open spec fn system_outcome(sys: System, paths: Paths, items: ItemsView) -> (Seq<char>, ValidateView) {
    let (ds, v) = args_outcome(sys.args@, paths, items, fresh_view());
    let data = join(sys.path@.path.skip(1), "::"@) + "("@ + join(ds, ":"@) + ")"@ + if sys.attr_args.is_init {
        "i"@
    } else {
        ""@
    };
    (data, validated(v, sys.attr_args.is_init))
}

impl System {
    fn outcome(&self, paths: &Paths, items: &ItemList) -> (r: (String, SystemValidate))
        requires
            system_in_range(*self, *paths, items_view(*items)),
        ensures
            (r.0@, r.1@) == system_outcome(*self, *paths, items_view(*items)),
    {
        let mut validate = SystemValidate::new();
        let mut datas: Vec<String> = Vec::new();
        let mut i: usize = 0;
        while i < self.args.len()
            invariant
                i <= self.args@.len(),
                system_in_range(*self, *paths, items_view(*items)),
                (datas.deep_view(), validate@) == args_outcome(self.args@.take(i as int), *paths, items_view(*items), fresh_view()),
            decreases self.args.len() - i,
        {
            proof {
                assert(self.args@.take(i + 1).drop_last() =~= self.args@.take(i as int));
                assert(arg_in_range(self.args@[i as int], *paths, items_view(*items)));
            }
            let d = self.args[i].validate_to_data(paths, items, &mut validate);
            let ghost old_d = datas.deep_view();
            datas.push(d);
            proof {
                assert(datas.deep_view() =~= old_d.push(d@));
            }
            i = i + 1;
        }
        proof {
            assert(self.args@.take(self.args@.len() as int) =~= self.args@);
        }
        let empty: Vec<String> = Vec::new();
        let tail = crate::ast_resolve::concat_from(&empty, &self.path.path, 1);
        proof {
            assert(empty.deep_view() + self.path@.path.skip(1) =~= self.path@.path.skip(1));
        }
        let mut data = crate::text::join_strings(&tail, "::");
        data.append("(");
        let args_data = crate::text::join_strings(&datas, ":");
        data.append(args_data.as_str());
        data.append(")");
        if self.attr_args.is_init {
            data.append("i");
        } else {
            proof {
                reveal_strlit("");
                assert(data@ + ""@ =~= data@);
            }
        }
        validate.validate(&self.attr_args);
        (data, validate)
    }

    /// Whether the system has a crate segment and every argument can be looked
    /// up (see `system_in_range`).
    pub fn in_range(&self, paths: &Paths, items: &ItemList) -> (r: bool)
        ensures
            r == system_in_range(*self, *paths, items_view(*items)),
    {
        if self.path.path.len() == 0 {
            return false;
        }
        let mut i: usize = 0;
        while i < self.args.len()
            invariant
                i <= self.args@.len(),
                forall|k: int| 0 <= k < i ==> #[trigger] arg_in_range(self.args@[k], *paths, items_view(*items)),
            decreases self.args.len() - i,
        {
            if !self.args[i].in_range(paths, items) {
                return false;
            }
            i = i + 1;
        }
        true
    }

    /// The errors that the checks of this system find, in order.
    pub fn validation_errors(&self, paths: &Paths, items: &ItemList) -> (errs: Vec<String>)
        requires
            system_in_range(*self, *paths, items_view(*items)),
        ensures
            errs.deep_view() == system_outcome(*self, *paths, items_view(*items)).1.errs,
    {
        let (_, v) = self.outcome(paths, items);
        v.errs
    }

    /// The data line of this system, which has passed its checks (see
    /// `validation_errors`); `crates` is not consulted.
    pub fn validate_to_data(&self, paths: &Paths, crates: &Vec<crate::ast_items::ItemsCrate>, items: &ItemList) -> (data: String)
        requires
            system_in_range(*self, *paths, items_view(*items)),
            system_outcome(*self, *paths, items_view(*items)).1.errs.len() == 0,
        ensures
            data@ == system_outcome(*self, *paths, items_view(*items)).0,
    {
        let (data, _) = self.outcome(paths, items);
        data
    }

    /// The report of a system that failed its checks: its full path and the
    /// errors, one per line.
    pub fn error_report(&self, errs: &Vec<String>) -> (s: String)
        ensures
            s@ == "\n\nIn system: \""@ + join(self.path@.path, "::"@) + "()\"\n"@ + join(errs.deep_view(), "\n"@) + "\n\n"@,
    {
        let mut s = String::from_str("\n\nIn system: \"");
        let p = crate::text::join_strings(&self.path.path, "::");
        s.append(p.as_str());
        s.append("()\"\n");
        let e = crate::text::join_strings(errs, "\n");
        s.append(e.as_str());
        s.append("\n\n");
        s
    }
}

} // verus!
