use vstd::prelude::*;
use crate::ast_fn_arg::FnArg;
use crate::ast_resolve::Path;
use crate::text::contains_string;

verus! {

/// The arguments of a `component` attribute.
#[derive(Clone, Copy, Debug)]
pub struct ComponentMacroArgs {
    pub is_dummy: bool,
}

/// The arguments of a `global` attribute.
#[derive(Clone, Copy, Debug)]
pub struct GlobalMacroArgs {
    pub is_dummy: bool,
    pub is_const: bool,
    pub is_trait: bool,
}

/// The arguments of a `system` attribute.
#[derive(Clone, Copy, Debug)]
pub struct SystemMacroArgs {
    pub is_init: bool,
}

/// A struct marked as a component.
#[derive(Clone, Debug)]
pub struct Component {
    pub path: Path,
    pub args: ComponentMacroArgs,
}

/// A struct marked as a global.
#[derive(Clone, Debug)]
pub struct Global {
    pub path: Path,
    pub args: GlobalMacroArgs,
}

/// An engine trait that systems may take, and the global that implements it.
#[derive(Clone, Debug)]
pub struct Trait {
    pub path: Path,
    pub cr_idx: usize,
    pub g_idx: usize,
}

/// A struct marked as an event.
#[derive(Clone, Debug)]
pub struct Event {
    pub path: Path,
}

/// A function marked as a system: its path, its arguments and its attribute
/// arguments.
#[derive(Debug)]
pub struct System {
    pub path: Path,
    pub args: Vec<FnArg>,
    pub attr_args: SystemMacroArgs,
}

/// A dependency of a crate: the crate's index and the name it goes by.
#[derive(Clone, Debug)]
pub struct Dependency {
    pub cr_idx: usize,
    pub cr_alias: String,
}

/// The engine items that one crate declares.
#[derive(Debug)]
pub struct ItemsCrate {
    pub dir: String,
    pub cr_name: String,
    pub cr_idx: usize,
    pub components: Vec<Component>,
    pub globals: Vec<Global>,
    pub events: Vec<Event>,
    pub systems: Vec<System>,
    pub dependencies: Vec<Dependency>,
}

impl ItemsCrate {
    /// No items yet.
    pub fn new() -> (ic: Self)
        ensures
            ic.dir@.len() == 0,
            ic.cr_name@.len() == 0,
            ic.cr_idx == 0,
            ic.components@.len() == 0,
            ic.globals@.len() == 0,
            ic.events@.len() == 0,
            ic.systems@.len() == 0,
            ic.dependencies@.len() == 0,
    {
        ItemsCrate {
            dir: String::new(),
            cr_name: String::new(),
            cr_idx: 0,
            components: Vec::new(),
            globals: Vec::new(),
            events: Vec::new(),
            systems: Vec::new(),
            dependencies: Vec::new(),
        }
    }
}


impl ComponentMacroArgs {
    /// The arguments named in the attribute: `Dummy` marks a placeholder.
    pub open spec fn from_spec(args: Seq<Seq<char>>) -> ComponentMacroArgs {
        ComponentMacroArgs { is_dummy: args.contains("Dummy"@) }
    }

    /// The arguments named in the attribute.
    pub fn from(args: &Vec<String>) -> (r: ComponentMacroArgs)
        ensures
            r == Self::from_spec(args.deep_view()),
    {
        ComponentMacroArgs { is_dummy: contains_string(args, &String::from_str("Dummy")) }
    }
}

impl GlobalMacroArgs {
    /// The arguments named in the attribute: `Dummy` marks a placeholder,
    /// `Const` a global that systems only read, `Trait` an engine trait.
    pub open spec fn from_spec(args: Seq<Seq<char>>) -> GlobalMacroArgs {
        GlobalMacroArgs {
            is_dummy: args.contains("Dummy"@),
            is_const: args.contains("Const"@),
            is_trait: args.contains("Trait"@),
        }
    }

    /// The arguments named in the attribute.
    pub fn from(args: &Vec<String>) -> (r: GlobalMacroArgs)
        ensures
            r == Self::from_spec(args.deep_view()),
    {
        GlobalMacroArgs {
            is_dummy: contains_string(args, &String::from_str("Dummy")),
            is_const: contains_string(args, &String::from_str("Const")),
            is_trait: contains_string(args, &String::from_str("Trait")),
        }
    }
}

impl SystemMacroArgs {
    /// The arguments named in the attribute: `Init` marks a system that runs
    /// once at start.
    pub open spec fn from_spec(args: Seq<Seq<char>>) -> SystemMacroArgs {
        SystemMacroArgs { is_init: args.contains("Init"@) }
    }

    /// The arguments named in the attribute.
    pub fn from(args: &Vec<String>) -> (r: SystemMacroArgs)
        ensures
            r == Self::from_spec(args.deep_view()),
    {
        SystemMacroArgs { is_init: contains_string(args, &String::from_str("Init")) }
    }
}

} // verus!
