use vstd::prelude::*;
use vstd::string::*;
use crate::text::{contains_string, join, join_strings, str_eq};
use crate::util::{parse_vec_path, vec_path};

verus! {

/// The attributes that mark engine items.
#[derive(Clone, Copy, Debug, PartialEq, Eq)]
pub enum EcsAttribute {
    Component,
    Global,
    System,
    Event,
}

impl EcsAttribute {
    /// The attribute named `value`, if it is one.
    pub fn from(value: String) -> (r: Option<EcsAttribute>)
        ensures
            r == (if value@ == "component"@ {
                Some(EcsAttribute::Component)
            } else if value@ == "global"@ {
                Some(EcsAttribute::Global)
            } else if value@ == "system"@ {
                Some(EcsAttribute::System)
            } else if value@ == "event"@ {
                Some(EcsAttribute::Event)
            } else {
                None
            }),
    {
        if str_eq(value.as_str(), "component") {
            Some(EcsAttribute::Component)
        } else if str_eq(value.as_str(), "global") {
            Some(EcsAttribute::Global)
        } else if str_eq(value.as_str(), "system") {
            Some(EcsAttribute::System)
        } else if str_eq(value.as_str(), "event") {
            Some(EcsAttribute::Event)
        } else {
            None
        }
    }
}

/// A `cfg` predicate: any of, all of, not, `key = "value"`, or a bare name.
#[derive(Debug)]
pub enum CfgExpr {
    Any(Vec<CfgExpr>),
    All(Vec<CfgExpr>),
    Not(Box<CfgExpr>),
    Equal(String, String),
    Is(String),
}

/// The value of a `cfg` predicate given the enabled features: only `feature`
/// keys are known; `any` holds when one part is known to hold, `all` unless one
/// part is known to fail.
pub open spec fn cfg_value(c: CfgExpr, features: Seq<Seq<char>>) -> Option<bool>
    decreases c,
{
    match c {
        CfgExpr::Any(v) => Some(exists|i: int| 0 <= i < v@.len() && cfg_value(v@[i], features) == Some(true)),
        CfgExpr::All(v) => Some(!exists|i: int| 0 <= i < v@.len() && cfg_value(v@[i], features) == Some(false)),
        CfgExpr::Not(b) => match cfg_value(*b, features) {
            Some(x) => Some(!x),
            None => None,
        },
        CfgExpr::Equal(k, v) => if k@ == "feature"@ { Some(features.contains(v@)) } else { None },
        CfgExpr::Is(_) => None,
    }
}

/// Whether the `cfg` predicate `cfg` holds for `features` (`None` when it
/// depends on something other than features).
#[verifier::loop_isolation(false)]
pub fn eval_cfg_args(cfg: &CfgExpr, features: &Vec<String>) -> (r: Option<bool>)
    ensures
        r == cfg_value(*cfg, features.deep_view()),
    decreases cfg,
{
    match cfg {
        CfgExpr::Any(v) => {
            let mut found = false;
            let mut i: usize = 0;
            while i < v.len()
                invariant
                    i <= v@.len(),
                    found == exists|j: int| 0 <= j < i && cfg_value(v@[j], features.deep_view()) == Some(true),
                decreases v.len() - i,
            {
                proof {
                    assert(decreases_to!(v@ => v@[i as int]));
                }
                let x = eval_cfg_args(&v[i], features);
                if x == Some(true) {
                    found = true;
                }
                i = i + 1;
            }
            Some(found)
        },
        CfgExpr::All(v) => {
            let mut failed = false;
            let mut i: usize = 0;
            while i < v.len()
                invariant
                    i <= v@.len(),
                    failed == exists|j: int| 0 <= j < i && cfg_value(v@[j], features.deep_view()) == Some(false),
                decreases v.len() - i,
            {
                proof {
                    assert(decreases_to!(v@ => v@[i as int]));
                }
                let x = eval_cfg_args(&v[i], features);
                if x == Some(false) {
                    failed = true;
                }
                i = i + 1;
            }
            Some(!failed)
        },
        CfgExpr::Not(b) => match eval_cfg_args(&**b, features) {
            Some(x) => Some(!x),
            None => None,
        },
        CfgExpr::Equal(k, v) => {
            if str_eq(k.as_str(), "feature") {
                Some(contains_string(features, v))
            } else {
                None
            }
        },
        CfgExpr::Is(_) => None,
    }
}

/// An attribute: an engine attribute with its path and arguments, or a `cfg`.
#[derive(Debug)]
pub enum Attribute {
    Ecs(Vec<String>, Vec<String>),
    Cfg(CfgExpr),
}

impl Attribute {
    /// The attribute with path `value`: `cfg` (its predicate still to be read),
    /// or an engine attribute without arguments yet.
    pub fn from(value: Vec<String>) -> (a: Attribute)
        ensures
            join(value.deep_view(), "::"@) == "cfg"@ ==> (a matches Attribute::Cfg(CfgExpr::Is(s)) && s@.len() == 0),
            join(value.deep_view(), "::"@) != "cfg"@ ==> (a matches Attribute::Ecs(p, args) && p == value && args@.len() == 0),
    {
        let joined = join_strings(&value, "::");
        if str_eq(joined.as_str(), "cfg") {
            Attribute::Cfg(CfgExpr::Is(String::new()))
        } else {
            Attribute::Ecs(value, Vec::new())
        }
    }
}

/// Whether the attributes leave their item active: the last `cfg` among them
/// decides, and it does not rule the item out unless it is known to fail.
pub open spec fn attrs_active(attrs: Seq<Attribute>, features: Seq<Seq<char>>) -> bool
    decreases attrs.len(),
{
    if attrs.len() == 0 {
        true
    } else {
        match attrs.last() {
            Attribute::Cfg(c) => cfg_value(c, features) != Some(false),
            Attribute::Ecs(_, _) => attrs_active(attrs.drop_last(), features),
        }
    }
}

/// The engine attributes among `attrs`, in order.
pub open spec fn ecs_attrs(attrs: Seq<Attribute>) -> Seq<(Vec<String>, Vec<String>)>
    decreases attrs.len(),
{
    if attrs.len() == 0 {
        seq![]
    } else {
        match attrs.last() {
            Attribute::Cfg(_) => ecs_attrs(attrs.drop_last()),
            Attribute::Ecs(p, a) => ecs_attrs(attrs.drop_last()).push((p, a)),
        }
    }
}

/// The engine attributes among `attrs`, or none when their `cfg` attributes
/// leave the item out for `features`.
pub fn active_attributes(attrs: Vec<Attribute>, features: &Vec<String>) -> (r: Option<Vec<(Vec<String>, Vec<String>)>>)
    ensures
        attrs_active(attrs@, features.deep_view()) ==> r is Some && (r->0)@ == ecs_attrs(attrs@),
        !attrs_active(attrs@, features.deep_view()) ==> r is None,
{
    let mut is_active = true;
    let mut new_attrs: Vec<(Vec<String>, Vec<String>)> = Vec::new();
    let mut i: usize = 0;
    let n = attrs.len();
    let ghost all = attrs@;
    let mut rest = attrs;
    while i < n
        invariant
            n == all.len(),
            i <= n,
            rest@ == all.skip(i as int),
            is_active == attrs_active(all.take(i as int), features.deep_view()),
            new_attrs@ == ecs_attrs(all.take(i as int)),
        decreases n - i,
    {
        proof {
            assert(all.take(i + 1).drop_last() =~= all.take(i as int));
            assert(rest@.len() == n - i);
            assert(rest@[0] == all[i as int]);
        }
        let a = rest.remove(0);
        match a {
            Attribute::Ecs(ty, args) => {
                new_attrs.push((ty, args));
            },
            Attribute::Cfg(cfg) => {
                let v = eval_cfg_args(&cfg, features);
                is_active = match v {
                    Some(b) => b,
                    None => true,
                };
            },
        }
        proof {
            assert(rest@ =~= all.skip(i + 1));
        }
        i = i + 1;
    }
    proof {
        assert(all.take(n as int) =~= all);
    }
    if is_active {
        Some(new_attrs)
    } else {
        None
    }
}


/// What the attribute logic reads of an attribute in the source: the
/// segments of its path, whether it takes a list (`name(...)`), the
/// identifiers in each bracketed group of that list in order, and the `cfg`
/// predicate that the list's text reads as, where it reads as one.
#[derive(Debug)]
pub struct RawAttr {
    pub path: Vec<String>,
    pub is_list: bool,
    pub groups: Vec<Vec<String>>,
    pub cfg: Option<CfgExpr>,
}

/// The attribute path of `raw` written in the module at `path`, joined with
/// `::`, is `cfg`.
pub open spec fn is_cfg(raw: RawAttr, path: Seq<Seq<char>>) -> bool {
    join(vec_path(path, raw.path.deep_view()), "::"@) == "cfg"@
}

/// The arguments of an engine attribute: the identifiers of the last group of
/// its list, none without one.
pub open spec fn raw_args(raw: RawAttr) -> Seq<Seq<char>> {
    if raw.is_list && raw.groups@.len() > 0 { raw.groups@.last().deep_view() } else { seq![] }
}

/// `a` is what attribute `raw`, written in the module at `path`, reads as.
pub open spec fn attr_from(a: Attribute, raw: RawAttr, path: Seq<Seq<char>>) -> bool {
    if is_cfg(raw, path) {
        if raw.is_list {
            a == Attribute::Cfg(raw.cfg->0)
        } else {
            a matches Attribute::Cfg(CfgExpr::Is(s)) && s@.len() == 0
        }
    } else {
        a matches Attribute::Ecs(q, v) && q.deep_view() == vec_path(path, raw.path.deep_view())
            && v.deep_view() == raw_args(raw)
    }
}

/// Every `cfg` attribute with a list among `raws` carries its predicate.
pub open spec fn cfgs_read(raws: Seq<RawAttr>, path: Seq<Seq<char>>) -> bool {
    forall|i: int| 0 <= i < raws.len() && is_cfg(#[trigger] raws[i], path) && raws[i].is_list ==> raws[i].cfg is Some
}

/// Whether the attributes `raws` leave their item active: the last `cfg`
/// among them decides, and it leaves the item out only when it is known to
/// fail for `features`.
pub open spec fn raw_active(raws: Seq<RawAttr>, path: Seq<Seq<char>>, features: Seq<Seq<char>>) -> bool
    decreases raws.len(),
{
    if raws.len() == 0 {
        true
    } else if is_cfg(raws.last(), path) {
        raws.last().is_list ==> cfg_value(raws.last().cfg->0, features) != Some(false)
    } else {
        raw_active(raws.drop_last(), path, features)
    }
}

/// The engine attributes among `raws`: their paths and arguments, in order.
pub open spec fn raw_ecs(raws: Seq<RawAttr>, path: Seq<Seq<char>>) -> Seq<(Seq<Seq<char>>, Seq<Seq<char>>)>
    decreases raws.len(),
{
    if raws.len() == 0 {
        seq![]
    } else if is_cfg(raws.last(), path) {
        raw_ecs(raws.drop_last(), path)
    } else {
        raw_ecs(raws.drop_last(), path).push((vec_path(path, raws.last().path.deep_view()), raw_args(raws.last())))
    }
}

/// Engine attributes as paths and arguments.
pub open spec fn ecs_views(v: Seq<(Vec<String>, Vec<String>)>) -> Seq<(Seq<Seq<char>>, Seq<Seq<char>>)> {
    v.map_values(|x: (Vec<String>, Vec<String>)| (x.0.deep_view(), x.1.deep_view()))
}

/// Gives attribute `attr_type` the arguments of `attr`: an engine attribute
/// takes the identifiers of the last group of the list, a `cfg` the predicate
/// the list reads as; without a list nothing changes.
pub fn parse_attr_args(attr_type: Attribute, attr: RawAttr) -> (r: Attribute)
    requires
        (attr_type is Cfg && attr.is_list) ==> attr.cfg is Some,
    ensures
        match attr_type {
            Attribute::Ecs(p, v) => r matches Attribute::Ecs(q, w) && q == p
                && w.deep_view() == (if attr.is_list && attr.groups@.len() > 0 { attr.groups@.last().deep_view() } else { v.deep_view() }),
            Attribute::Cfg(c) => if attr.is_list { r == Attribute::Cfg(attr.cfg->0) } else { r == Attribute::Cfg(c) },
        },
{
    match attr_type {
        Attribute::Ecs(p, v) => {
            if attr.is_list && attr.groups.len() > 0 {
                let mut groups = attr.groups;
                let last = groups.pop().unwrap();
                Attribute::Ecs(p, last)
            } else {
                Attribute::Ecs(p, v)
            }
        },
        Attribute::Cfg(c) => {
            if attr.is_list {
                match attr.cfg {
                    Some(x) => Attribute::Cfg(x),
                    None => Attribute::Cfg(c),
                }
            } else {
                Attribute::Cfg(c)
            }
        },
    }
}

/// The attributes `attrs` of an item in the module at `path`, read: each
/// path resolved against the module (`super`), `cfg` or an engine attribute,
/// with its arguments (see `attr_from`).
pub fn get_attributes(attrs: Vec<RawAttr>, path: &Vec<String>) -> (r: Vec<Attribute>)
    requires
        cfgs_read(attrs@, path.deep_view()),
    ensures
        r@.len() == attrs@.len(),
        forall|i: int| 0 <= i < r@.len() ==> attr_from(#[trigger] r@[i], attrs@[i], path.deep_view()),
{
    let ghost all = attrs@;
    let n = attrs.len();
    let mut rest = attrs;
    let mut r: Vec<Attribute> = Vec::new();
    let mut i: usize = 0;
    while i < n
        invariant
            n == all.len(),
            i <= n,
            rest@ == all.skip(i as int),
            cfgs_read(all, path.deep_view()),
            r@.len() == i,
            forall|j: int| 0 <= j < i ==> attr_from(#[trigger] r@[j], all[j], path.deep_view()),
        decreases n - i,
    {
        proof {
            assert(rest@[0] == all[i as int]);
        }
        let raw = rest.remove(0);
        let full = parse_vec_path(path, &raw.path);
        let ghost fv = full.deep_view();
        let a = Attribute::from(full);
        let ghost ag = a;
        proof {
            if ag is Ecs {
                assert(ag->Ecs_1.deep_view() =~= Seq::<Seq<char>>::empty());
            }
            assert(is_cfg(raw, path.deep_view()) == (join(fv, "::"@) == "cfg"@));
            assert(is_cfg(all[i as int], path.deep_view()) && all[i as int].is_list ==> all[i as int].cfg is Some);
        }
        let b = parse_attr_args(a, raw);
        r.push(b);
        proof {
            assert(rest@ =~= all.skip(i + 1));
            assert(attr_from(r@[i as int], all[i as int], path.deep_view()));
        }
        i = i + 1;
    }
    r
}

proof fn lemma_raw_attrs(a: Seq<Attribute>, raws: Seq<RawAttr>, path: Seq<Seq<char>>, features: Seq<Seq<char>>)
    requires
        a.len() == raws.len(),
        forall|i: int| 0 <= i < a.len() ==> attr_from(#[trigger] a[i], raws[i], path),
    ensures
        attrs_active(a, features) == raw_active(raws, path, features),
        ecs_views(ecs_attrs(a)) == raw_ecs(raws, path),
    decreases a.len(),
{
    if a.len() > 0 {
        let n = a.len() - 1;
        assert(attr_from(a[n], raws[n], path));
        assert forall|i: int| 0 <= i < a.drop_last().len() implies attr_from(#[trigger] a.drop_last()[i], raws.drop_last()[i], path) by {
            assert(attr_from(a[i], raws[i], path));
        }
        lemma_raw_attrs(a.drop_last(), raws.drop_last(), path, features);
        if !is_cfg(raws.last(), path) {
            assert(ecs_views(ecs_attrs(a)) =~= ecs_views(ecs_attrs(a.drop_last())).push(
                (vec_path(path, raws.last().path.deep_view()), raw_args(raws.last()))));
        }
    } else {
        assert(ecs_views(ecs_attrs(a)) =~= Seq::<(Seq<Seq<char>>, Seq<Seq<char>>)>::empty());
    }
}

/// The engine attributes of an item in the module at `path`, or none when its
/// `cfg` attributes leave it out for `features` (see `raw_active`).
pub fn get_attributes_if_active(attrs: Vec<RawAttr>, path: &Vec<String>, features: &Vec<String>) -> (r: Option<Vec<(Vec<String>, Vec<String>)>>)
    requires
        cfgs_read(attrs@, path.deep_view()),
    ensures
        raw_active(attrs@, path.deep_view(), features.deep_view()) ==> r is Some && ecs_views((r->0)@) == raw_ecs(attrs@, path.deep_view()),
        !raw_active(attrs@, path.deep_view(), features.deep_view()) ==> r is None,
{
    let ghost raws = attrs@;
    let a = get_attributes(attrs, path);
    proof {
        lemma_raw_attrs(a@, raws, path.deep_view(), features.deep_view());
    }
    active_attributes(a, features)
}

} // verus!
