use vstd::prelude::*;
use vstd::string::*;
use crate::ast_resolve::{Path, PathView};
use crate::constants::NAMESPACE;

verus! {

/// `["crate"] + middle + [ident]` as strings.
pub open spec fn crate_rooted(middle: Seq<Seq<char>>, ident: Seq<char>) -> Seq<Seq<char>> {
    seq!["crate"@] + middle + seq![ident]
}

/// The path `crate::<middle>::<ident>` in crate `cr_idx`.
fn rooted_path(cr_idx: usize, middle: &str, has_middle: bool, ident: &str) -> (p: Path)
    ensures
        p@ == (PathView {
            cr_idx,
            path: crate_rooted(if has_middle { seq![middle@] } else { seq![] }, ident@),
        }),
{
    let mut v: Vec<String> = Vec::new();
    v.push(String::from_str("crate"));
    if has_middle {
        v.push(String::from_str(middle));
    }
    v.push(String::from_str(ident));
    proof {
        assert(v.deep_view() =~= crate_rooted(if has_middle { seq![middle@] } else { seq![] }, ident@));
    }
    Path { cr_idx, path: v }
}

/// The attribute macros that mark engine items.
#[derive(Clone, Copy, Debug, PartialEq, Eq)]
pub enum MacroPaths {
    Component,
    Global,
    Event,
    System,
}

impl MacroPaths {
    /// The macro's name.
    pub open spec fn ident_view(self) -> Seq<char> {
        match self {
            MacroPaths::Component => "component"@,
            MacroPaths::Global => "global"@,
            MacroPaths::Event => "event"@,
            MacroPaths::System => "system"@,
        }
    }

    /// The macro's name.
    pub fn as_ident(&self) -> (s: &'static str)
        ensures
            s@ == self.ident_view(),
    {
        match self {
            MacroPaths::Component => "component",
            MacroPaths::Global => "global",
            MacroPaths::Event => "event",
            MacroPaths::System => "system",
        }
    }

    /// The position of the macro in `Paths::macros`.
    pub open spec fn pos(self) -> int {
        match self {
            MacroPaths::Component => 0,
            MacroPaths::Global => 1,
            MacroPaths::Event => 2,
            MacroPaths::System => 3,
        }
    }

    /// The path `crate::<name>` of the macro in crate `cr_idx`.
    pub fn crate_path(&self, cr_idx: usize) -> (p: Path)
        ensures
            p@ == (PathView { cr_idx, path: crate_rooted(seq![], self.ident_view()) }),
    {
        rooted_path(cr_idx, "", false, self.as_ident())
    }
}

/// The traits that generated code implements for every crate.
#[derive(Clone, Copy, Debug, PartialEq, Eq)]
pub enum EngineTraits {
    AddComponent,
    AddEvent,
}

impl EngineTraits {
    /// The trait's name.
    pub open spec fn ident_view(self) -> Seq<char> {
        match self {
            EngineTraits::AddComponent => "AddComponent"@,
            EngineTraits::AddEvent => "AddEvent"@,
        }
    }

    /// The trait's name.
    pub fn as_ident(&self) -> (s: &'static str)
        ensures
            s@ == self.ident_view(),
    {
        match self {
            EngineTraits::AddComponent => "AddComponent",
            EngineTraits::AddEvent => "AddEvent",
        }
    }

    /// The position of the trait in `Paths::traits`.
    pub open spec fn pos(self) -> int {
        match self {
            EngineTraits::AddComponent => 0,
            EngineTraits::AddEvent => 1,
        }
    }

    /// The global that implements the trait.
    pub fn get_global(&self) -> (g: EngineGlobals)
        ensures
            g == match self {
                EngineTraits::AddComponent => EngineGlobals::CFoo,
                EngineTraits::AddEvent => EngineGlobals::EFoo,
            },
    {
        match self {
            EngineTraits::AddComponent => EngineGlobals::CFoo,
            EngineTraits::AddEvent => EngineGlobals::EFoo,
        }
    }

    /// The path `crate::_engine::<name>` of the trait in crate `cr_idx`.
    pub fn crate_path(&self, cr_idx: usize) -> (p: Path)
        ensures
            p@ == (PathView { cr_idx, path: crate_rooted(seq![NAMESPACE@], self.ident_view()) }),
    {
        rooted_path(cr_idx, NAMESPACE, true, self.as_ident())
    }
}

/// The globals that the engine provides.
#[derive(Clone, Copy, Debug, PartialEq, Eq)]
pub enum EngineGlobals {
    CFoo,
    EFoo,
    Entity,
    EntityTrash,
    Event,
    RenderSystem,
    Camera,
    Screen,
}

impl EngineGlobals {
    /// The global's name.
    pub open spec fn ident_view(self) -> Seq<char> {
        match self {
            EngineGlobals::CFoo => "CFoo"@,
            EngineGlobals::EFoo => "EFoo"@,
            EngineGlobals::Entity => "Entity"@,
            EngineGlobals::EntityTrash => "EntityTrash"@,
            EngineGlobals::Event => "Event"@,
            EngineGlobals::RenderSystem => "RenderSystem"@,
            EngineGlobals::Camera => "Camera"@,
            EngineGlobals::Screen => "Screen"@,
        }
    }

    /// The global's name.
    pub fn as_ident(&self) -> (s: &'static str)
        ensures
            s@ == self.ident_view(),
    {
        match self {
            EngineGlobals::CFoo => "CFoo",
            EngineGlobals::EFoo => "EFoo",
            EngineGlobals::Entity => "Entity",
            EngineGlobals::EntityTrash => "EntityTrash",
            EngineGlobals::Event => "Event",
            EngineGlobals::RenderSystem => "RenderSystem",
            EngineGlobals::Camera => "Camera",
            EngineGlobals::Screen => "Screen",
        }
    }

    /// The component and event managers live in the generated namespace.
    pub open spec fn in_namespace(self) -> bool {
        self == EngineGlobals::CFoo || self == EngineGlobals::EFoo
    }

    /// The position of the global in `Paths::globals`.
    pub open spec fn pos(self) -> int {
        match self {
            EngineGlobals::CFoo => 0,
            EngineGlobals::EFoo => 1,
            EngineGlobals::Entity => 2,
            EngineGlobals::EntityTrash => 3,
            EngineGlobals::Event => 4,
            EngineGlobals::RenderSystem => 5,
            EngineGlobals::Camera => 6,
            EngineGlobals::Screen => 7,
        }
    }

    /// The position of the global in `Paths::globals`.
    pub fn index_of(&self) -> (i: usize)
        ensures
            i == self.pos(),
    {
        match self {
            EngineGlobals::CFoo => 0,
            EngineGlobals::EFoo => 1,
            EngineGlobals::Entity => 2,
            EngineGlobals::EntityTrash => 3,
            EngineGlobals::Event => 4,
            EngineGlobals::RenderSystem => 5,
            EngineGlobals::Camera => 6,
            EngineGlobals::Screen => 7,
        }
    }

    /// The module path between `crate` and the global's name.
    pub open spec fn middle(self) -> Seq<Seq<char>> {
        if self.in_namespace() { seq![NAMESPACE@] } else { seq![] }
    }

    /// The path of the global: the managers are in the entry crate's namespace,
    /// the others at the root of crate `cr_idx`.
    pub fn crate_path(&self, cr_idx: usize) -> (p: Path)
        ensures
            p@ == (PathView {
                cr_idx: if self.in_namespace() { 0 } else { cr_idx },
                path: crate_rooted(self.middle(), self.ident_view()),
            }),
    {
        match self {
            EngineGlobals::CFoo | EngineGlobals::EFoo => rooted_path(0, NAMESPACE, true, self.as_ident()),
            _ => rooted_path(cr_idx, "", false, self.as_ident()),
        }
    }
}

/// The container and label types that systems take.
#[derive(Clone, Copy, Debug, PartialEq, Eq)]
pub enum EngineContainers {
    Container,
    Label,
    AndLabels,
    OrLabels,
    NandLabels,
    NorLabels,
}

impl EngineContainers {
    /// The type's name.
    pub open spec fn ident_view(self) -> Seq<char> {
        match self {
            EngineContainers::Container => "Container"@,
            EngineContainers::Label => "Label"@,
            EngineContainers::AndLabels => "AndLabels"@,
            EngineContainers::OrLabels => "OrLabels"@,
            EngineContainers::NandLabels => "NandLabels"@,
            EngineContainers::NorLabels => "NorLabels"@,
        }
    }

    /// The type's name.
    pub fn as_ident(&self) -> (s: &'static str)
        ensures
            s@ == self.ident_view(),
    {
        match self {
            EngineContainers::Container => "Container",
            EngineContainers::Label => "Label",
            EngineContainers::AndLabels => "AndLabels",
            EngineContainers::OrLabels => "OrLabels",
            EngineContainers::NandLabels => "NandLabels",
            EngineContainers::NorLabels => "NorLabels",
        }
    }

    /// The position of the type in `Paths::containers`.
    pub open spec fn pos(self) -> int {
        match self {
            EngineContainers::Container => 0,
            EngineContainers::Label => 1,
            EngineContainers::AndLabels => 2,
            EngineContainers::OrLabels => 3,
            EngineContainers::NandLabels => 4,
            EngineContainers::NorLabels => 5,
        }
    }

    /// The path `crate::<name>` of the type in crate `cr_idx`.
    pub fn crate_path(&self, cr_idx: usize) -> (p: Path)
        ensures
            p@ == (PathView { cr_idx, path: crate_rooted(seq![], self.ident_view()) }),
    {
        rooted_path(cr_idx, "", false, self.as_ident())
    }
}

/// The paths of everything the engine provides.
#[derive(Clone, Debug)]
pub struct Paths {
    pub macros: [Path; 4],
    pub traits: [Path; 2],
    pub globals: [Path; 8],
    pub containers: [Path; 6],
}

impl Paths {
    /// The paths, with the macros in crate `macros_cr_idx` and the rest in the
    /// engine crate `engine_cr_idx` (the managers in the entry crate).
    pub fn new(engine_cr_idx: usize, macros_cr_idx: usize) -> (p: Self)
        ensures
            forall|m: MacroPaths| #[trigger] p.macros@[m.pos()]@ == (PathView { cr_idx: macros_cr_idx, path: crate_rooted(seq![], m.ident_view()) }),
            forall|t: EngineTraits| #[trigger] p.traits@[t.pos()]@ == (PathView { cr_idx: engine_cr_idx, path: crate_rooted(seq![NAMESPACE@], t.ident_view()) }),
            forall|g: EngineGlobals| #[trigger] p.globals@[g.pos()]@ == (PathView {
                cr_idx: if g.in_namespace() { 0 } else { engine_cr_idx },
                path: crate_rooted(g.middle(), g.ident_view()),
            }),
            forall|c: EngineContainers| #[trigger] p.containers@[c.pos()]@ == (PathView { cr_idx: engine_cr_idx, path: crate_rooted(seq![], c.ident_view()) }),
    {
        let p = Paths {
            macros: [
                MacroPaths::Component.crate_path(macros_cr_idx),
                MacroPaths::Global.crate_path(macros_cr_idx),
                MacroPaths::Event.crate_path(macros_cr_idx),
                MacroPaths::System.crate_path(macros_cr_idx),
            ],
            traits: [
                EngineTraits::AddComponent.crate_path(engine_cr_idx),
                EngineTraits::AddEvent.crate_path(engine_cr_idx),
            ],
            globals: [
                EngineGlobals::CFoo.crate_path(engine_cr_idx),
                EngineGlobals::EFoo.crate_path(engine_cr_idx),
                EngineGlobals::Entity.crate_path(engine_cr_idx),
                EngineGlobals::EntityTrash.crate_path(engine_cr_idx),
                EngineGlobals::Event.crate_path(engine_cr_idx),
                EngineGlobals::RenderSystem.crate_path(engine_cr_idx),
                EngineGlobals::Camera.crate_path(engine_cr_idx),
                EngineGlobals::Screen.crate_path(engine_cr_idx),
            ],
            containers: [
                EngineContainers::Container.crate_path(engine_cr_idx),
                EngineContainers::Label.crate_path(engine_cr_idx),
                EngineContainers::AndLabels.crate_path(engine_cr_idx),
                EngineContainers::OrLabels.crate_path(engine_cr_idx),
                EngineContainers::NandLabels.crate_path(engine_cr_idx),
                EngineContainers::NorLabels.crate_path(engine_cr_idx),
            ],
        };
        p
    }

    /// The path of macro `i`.
    pub fn get_macro(&self, i: MacroPaths) -> (p: &Path)
        ensures
            *p == self.macros@[i.pos()],
    {
        match i {
            MacroPaths::Component => &self.macros[0],
            MacroPaths::Global => &self.macros[1],
            MacroPaths::Event => &self.macros[2],
            MacroPaths::System => &self.macros[3],
        }
    }

    /// The path of trait `i`.
    pub fn get_trait(&self, i: EngineTraits) -> (p: &Path)
        ensures
            *p == self.traits@[i.pos()],
    {
        match i {
            EngineTraits::AddComponent => &self.traits[0],
            EngineTraits::AddEvent => &self.traits[1],
        }
    }

    /// The path of global `i`.
    pub fn get_global(&self, i: EngineGlobals) -> (p: &Path)
        ensures
            *p == self.globals@[i.pos()],
    {
        match i {
            EngineGlobals::CFoo => &self.globals[0],
            EngineGlobals::EFoo => &self.globals[1],
            EngineGlobals::Entity => &self.globals[2],
            EngineGlobals::EntityTrash => &self.globals[3],
            EngineGlobals::Event => &self.globals[4],
            EngineGlobals::RenderSystem => &self.globals[5],
            EngineGlobals::Camera => &self.globals[6],
            EngineGlobals::Screen => &self.globals[7],
        }
    }

    /// The path of container type `i`.
    pub fn get_container(&self, i: EngineContainers) -> (p: &Path)
        ensures
            *p == self.containers@[i.pos()],
    {
        match i {
            EngineContainers::Container => &self.containers[0],
            EngineContainers::Label => &self.containers[1],
            EngineContainers::AndLabels => &self.containers[2],
            EngineContainers::OrLabels => &self.containers[3],
            EngineContainers::NandLabels => &self.containers[4],
            EngineContainers::NorLabels => &self.containers[5],
        }
    }
}

} // verus!
