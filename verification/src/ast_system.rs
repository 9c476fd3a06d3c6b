use vstd::prelude::*;
use vstd::string::*;
use crate::ast_fn_arg::FnArg;
use crate::ast_items::SystemMacroArgs;
use crate::text::cat;

verus! {

/// What the arguments of one system have taken so far, and the errors found.
pub struct SystemValidate {
    pub errs: Vec<String>,
    pub components: Vec<(usize, usize)>,
    pub globals: Vec<(usize, usize)>,
    pub has_event: bool,
    pub has_eid: bool,
    pub has_labels: bool,
    pub has_vec: bool,
}

/// `SystemValidate` with the error texts as character sequences.
pub struct ValidateView {
    pub errs: Seq<Seq<char>>,
    pub components: Seq<(usize, usize)>,
    pub globals: Seq<(usize, usize)>,
    pub has_event: bool,
    pub has_eid: bool,
    pub has_labels: bool,
    pub has_vec: bool,
}

impl View for SystemValidate {
    type V = ValidateView;

    open spec fn view(&self) -> ValidateView {
        ValidateView {
            errs: self.errs.deep_view(),
            components: self.components@,
            globals: self.globals@,
            has_event: self.has_event,
            has_eid: self.has_eid,
            has_labels: self.has_labels,
            has_vec: self.has_vec,
        }
    }
}

/// `v` with one more error.
pub open spec fn with_err(v: ValidateView, msg: Seq<char>) -> ValidateView {
    ValidateView { errs: v.errs.push(msg), ..v }
}

/// `v` with the errors `msgs` added in order.
pub open spec fn with_errs(v: ValidateView, msgs: Seq<Seq<char>>) -> ValidateView {
    ValidateView { errs: v.errs + msgs, ..v }
}

pub open spec fn msg_dup_component(t: Seq<char>) -> Seq<char> { "Duplicate component: "@ + t }
pub open spec fn msg_dup_global(t: Seq<char>) -> Seq<char> { "Duplicate global: "@ + t }
pub open spec fn msg_multi_event(t: Seq<char>) -> Seq<char> { "Multiple events specified: "@ + t }
pub open spec fn msg_multi_container(t: Seq<char>) -> Seq<char> { "Multiple containers specified: "@ + t }
pub open spec fn msg_eid_alone() -> Seq<char> { "Cannot take entity ID without any entity components"@ }
pub open spec fn msg_vec_and_single() -> Seq<char> { "Cannot wrap components in a vector and take them individually"@ }
pub open spec fn msg_init_globals() -> Seq<char> { "Init systems may only take Globals"@ }
pub open spec fn msg_no_event() -> Seq<char> { "Non-init systems must specify and event"@ }

/// The state after taking component `idxs` for the argument written `t`.
pub open spec fn after_add_component(v: ValidateView, t: Seq<char>, idxs: (usize, usize)) -> ValidateView {
    if v.components.contains(idxs) {
        with_err(v, msg_dup_component(t))
    } else {
        ValidateView { components: v.components.push(idxs), ..v }
    }
}

/// The state after taking global `idxs` for the argument written `t`.
pub open spec fn after_add_global(v: ValidateView, t: Seq<char>, idxs: (usize, usize)) -> ValidateView {
    if v.globals.contains(idxs) {
        with_err(v, msg_dup_global(t))
    } else {
        ValidateView { globals: v.globals.push(idxs), ..v }
    }
}

/// The state after taking an event for the argument written `t`.
pub open spec fn after_add_event(v: ValidateView, t: Seq<char>) -> ValidateView {
    ValidateView { has_event: true, ..if v.has_event { with_err(v, msg_multi_event(t)) } else { v } }
}

/// The state after taking a container for the argument written `t`.
pub open spec fn after_add_container(v: ValidateView, t: Seq<char>) -> ValidateView {
    ValidateView { has_vec: true, ..if v.has_vec { with_err(v, msg_multi_container(t)) } else { v } }
}

/// The state after the checks of a whole system (see `SystemValidate::validate`).
pub open spec fn validated(v: ValidateView, is_init: bool) -> ValidateView {
    let e1 = if v.has_eid && v.components.len() == 0 { seq![msg_eid_alone()] } else { seq![] };
    let e2 = if v.has_vec && (v.components.len() != 0 || v.has_eid) { seq![msg_vec_and_single()] } else { seq![] };
    let e3 = if is_init && (v.has_eid || v.components.len() != 0 || v.has_labels || v.has_vec || v.has_event) {
        seq![msg_init_globals()]
    } else {
        seq![]
    };
    let e4 = if !is_init && !v.has_event { seq![msg_no_event()] } else { seq![] };
    with_errs(v, e1 + e2 + e3 + e4)
}

pub(crate) fn push_err(errs: &mut Vec<String>, msg: String)
    ensures
        final(errs).deep_view() == old(errs).deep_view().push(msg@),
{
    let ghost old_errs = errs@;
    errs.push(msg);
    proof {
        assert forall|j: int| 0 <= j < errs@.len() implies errs.deep_view()[j] == old(errs).deep_view().push(msg@)[j] by {
            if j < old_errs.len() {
                assert(errs@[j] == old_errs[j]);
            }
        }
        assert(errs.deep_view() =~= old(errs).deep_view().push(msg@));
    }
}

fn contains_pair(v: &Vec<(usize, usize)>, x: (usize, usize)) -> (r: bool)
    ensures
        r == v@.contains(x),
{
    let mut i: usize = 0;
    while i < v.len()
        invariant
            i <= v@.len(),
            forall|j: int| 0 <= j < i ==> v@[j] != x,
        decreases v.len() - i,
    {
        if v[i].0 == x.0 && v[i].1 == x.1 {
            return true;
        }
        i = i + 1;
    }
    false
}

impl SystemValidate {
    /// Nothing taken, no errors.
    pub fn new() -> (v: Self)
        ensures
            v@ == (ValidateView {
                errs: seq![],
                components: seq![],
                globals: seq![],
                has_event: false,
                has_eid: false,
                has_labels: false,
                has_vec: false,
            }),
    {
        let v = SystemValidate {
            errs: Vec::new(),
            components: Vec::new(),
            globals: Vec::new(),
            has_event: false,
            has_eid: false,
            has_labels: false,
            has_vec: false,
        };
        proof {
            assert(v.errs.deep_view() =~= Seq::<Seq<char>>::empty());
        }
        v
    }

    /// The checks over the whole system: an entity id needs components, a
    /// container excludes single components and ids, init systems take only
    /// globals, other systems need an event.
    pub fn validate(&mut self, attr_args: &SystemMacroArgs)
        ensures
            final(self)@ == validated(old(self)@, attr_args.is_init),
    {
        let ghost v0 = self@;
        if self.has_eid && self.components.len() == 0 {
            push_err(&mut self.errs, String::from_str("Cannot take entity ID without any entity components"));
        }
        let ghost v1 = self@;
        if self.has_vec && (self.components.len() != 0 || self.has_eid) {
            push_err(&mut self.errs, String::from_str("Cannot wrap components in a vector and take them individually"));
        }
        let ghost v2 = self@;
        if attr_args.is_init
            && (self.has_eid || self.components.len() != 0 || self.has_labels || self.has_vec || self.has_event) {
            push_err(&mut self.errs, String::from_str("Init systems may only take Globals"));
        }
        let ghost v3 = self@;
        if !attr_args.is_init && !self.has_event {
            push_err(&mut self.errs, String::from_str("Non-init systems must specify and event"));
        }
        proof {
            let v = v0;
            let is_init = attr_args.is_init;
            let e1 = if v.has_eid && v.components.len() == 0 { seq![msg_eid_alone()] } else { seq![] };
            let e2 = if v.has_vec && (v.components.len() != 0 || v.has_eid) { seq![msg_vec_and_single()] } else { seq![] };
            let e3 = if is_init && (v.has_eid || v.components.len() != 0 || v.has_labels || v.has_vec || v.has_event) {
                seq![msg_init_globals()]
            } else {
                seq![]
            };
            let e4 = if !is_init && !v.has_event { seq![msg_no_event()] } else { seq![] };
            assert(v1.errs =~= v0.errs + e1);
            assert(v2.errs =~= v1.errs + e2);
            assert(v3.errs =~= v2.errs + e3);
            assert(self@.errs =~= v3.errs + e4);
            assert(self@.errs =~= v0.errs + (e1 + e2 + e3 + e4));
            assert(self@ =~= validated(v0, attr_args.is_init));
        }
    }

    /// The system takes the entity id.
    pub fn add_eid(&mut self)
        ensures
            final(self)@ == (ValidateView { has_eid: true, ..old(self)@ }),
    {
        self.has_eid = true;
    }

    /// The system takes component `idxs`; a second time is an error.
    pub fn add_component(&mut self, arg: &FnArg, idxs: (usize, usize))
        ensures
            final(self)@ == after_add_component(old(self)@, arg.text@, idxs),
    {
        if contains_pair(&self.components, idxs) {
            push_err(&mut self.errs, cat("Duplicate component: ", arg.text.as_str()));
        } else {
            self.components.push(idxs);
        }
    }

    /// The system takes global `idxs`; a second time is an error.
    pub fn add_global(&mut self, arg: &FnArg, idxs: (usize, usize))
        ensures
            final(self)@ == after_add_global(old(self)@, arg.text@, idxs),
    {
        if contains_pair(&self.globals, idxs) {
            push_err(&mut self.errs, cat("Duplicate global: ", arg.text.as_str()));
        } else {
            self.globals.push(idxs);
        }
    }

    /// The system takes an event; a second one is an error.
    pub fn add_event(&mut self, arg: &FnArg)
        ensures
            final(self)@ == after_add_event(old(self)@, arg.text@),
    {
        if self.has_event {
            push_err(&mut self.errs, cat("Multiple events specified: ", arg.text.as_str()));
        }
        self.has_event = true;
    }

    /// The system takes a container; a second one is an error.
    pub fn add_container(&mut self, arg: &FnArg)
        ensures
            final(self)@ == after_add_container(old(self)@, arg.text@),
    {
        if self.has_vec {
            push_err(&mut self.errs, cat("Multiple containers specified: ", arg.text.as_str()));
        }
        self.has_vec = true;
    }
}

} // verus!
