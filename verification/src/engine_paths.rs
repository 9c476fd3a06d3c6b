use vstd::prelude::*;
use vstd::string::*;
use crate::ast_resolve::{pv, Path, PathView};

verus! {

/// Engine items that are looked up by a fixed path in the engine crate.
#[derive(Clone, Copy, Debug, PartialEq, Eq)]
pub enum EnginePaths {
    AddComponent,
    AddEvent,
    Entity,
}

/// The number of engine paths.
pub const NUM_ENGINE_PATHS: usize = 3;

impl EnginePaths {
    /// The type name of the item.
    pub open spec fn type_view(self) -> Seq<char> {
        match self {
            EnginePaths::AddComponent => "AddComponent"@,
            EnginePaths::AddEvent => "AddEvent"@,
            EnginePaths::Entity => "Entity"@,
        }
    }

    /// All the engine paths, in order.
    pub fn get_variants() -> (v: [EnginePaths; 3])
        ensures
            v@ == seq![EnginePaths::AddComponent, EnginePaths::AddEvent, EnginePaths::Entity],
    {
        let v = [EnginePaths::AddComponent, EnginePaths::AddEvent, EnginePaths::Entity];
        proof {
            assert(v@ =~= seq![EnginePaths::AddComponent, EnginePaths::AddEvent, EnginePaths::Entity]);
        }
        v
    }

    /// The type name of the item.
    pub fn get_type(&self) -> (s: String)
        ensures
            s@ == self.type_view(),
    {
        match self {
            EnginePaths::AddComponent => String::from_str("AddComponent"),
            EnginePaths::AddEvent => String::from_str("AddEvent"),
            EnginePaths::Entity => String::from_str("Entity"),
        }
    }

    /// The path of the item in the engine crate: `crate::<type>`.
    pub fn get_path(&self) -> (v: Vec<String>)
        ensures
            v.deep_view() == seq!["crate"@, self.type_view()],
    {
        let mut v: Vec<String> = Vec::new();
        v.push(String::from_str("crate"));
        v.push(self.get_type());
        proof {
            assert(v.deep_view() =~= seq!["crate"@, self.type_view()]);
        }
        v
    }
}

/// The path `crate::<name>` in crate `cr_idx`.
pub open spec fn crate_item(cr_idx: usize, name: Seq<char>) -> PathView {
    pv(cr_idx, seq!["crate"@, name])
}

/// The path `crate::<name>` in crate `cr_idx`.
fn crate_item_path(cr_idx: usize, name: &str) -> (p: Path)
    ensures
        p@ == crate_item(cr_idx, name@),
{
    let mut path: Vec<String> = Vec::new();
    path.push(String::from_str("crate"));
    path.push(name.to_string());
    proof {
        reveal_strlit("crate");
        assert(path.deep_view() =~= seq!["crate"@, name@]);
    }
    Path { cr_idx, path }
}

/// The engine items that parsing and validation look for: the four item
/// macros, the entity, container and label types, and the engine paths.
pub struct Paths {
    pub component: Path,
    pub global: Path,
    pub event: Path,
    pub system: Path,
    pub eid: Path,
    pub container: Path,
    pub label: Path,
    pub and_labels: Path,
    pub or_labels: Path,
    pub nand_labels: Path,
    pub nor_labels: Path,
    pub engine_paths: [Path; 3],
}

impl Paths {
    /// Each item at `crate::<name>` in the engine crate `engine_cr_idx`; the
    /// engine paths in the order of `EnginePaths::get_variants`.
    pub fn new(engine_cr_idx: usize) -> (p: Self)
        ensures
            p.component@ == crate_item(engine_cr_idx, "component"@),
            p.global@ == crate_item(engine_cr_idx, "global"@),
            p.event@ == crate_item(engine_cr_idx, "event"@),
            p.system@ == crate_item(engine_cr_idx, "system"@),
            p.eid@ == crate_item(engine_cr_idx, "Entity"@),
            p.container@ == crate_item(engine_cr_idx, "Container"@),
            p.label@ == crate_item(engine_cr_idx, "Label"@),
            p.and_labels@ == crate_item(engine_cr_idx, "AndLabels"@),
            p.or_labels@ == crate_item(engine_cr_idx, "OrLabels"@),
            p.nand_labels@ == crate_item(engine_cr_idx, "NandLabels"@),
            p.nor_labels@ == crate_item(engine_cr_idx, "NorLabels"@),
            p.engine_paths@.len() == 3,
            p.engine_paths@[0]@ == crate_item(engine_cr_idx, EnginePaths::AddComponent.type_view()),
            p.engine_paths@[1]@ == crate_item(engine_cr_idx, EnginePaths::AddEvent.type_view()),
            p.engine_paths@[2]@ == crate_item(engine_cr_idx, EnginePaths::Entity.type_view()),
    {
        let vs = EnginePaths::get_variants();
        let e0 = Path { cr_idx: engine_cr_idx, path: vs[0].get_path() };
        let e1 = Path { cr_idx: engine_cr_idx, path: vs[1].get_path() };
        let e2 = Path { cr_idx: engine_cr_idx, path: vs[2].get_path() };
        let engine_paths = [e0, e1, e2];
        Paths {
            component: crate_item_path(engine_cr_idx, "component"),
            global: crate_item_path(engine_cr_idx, "global"),
            event: crate_item_path(engine_cr_idx, "event"),
            system: crate_item_path(engine_cr_idx, "system"),
            eid: crate_item_path(engine_cr_idx, "Entity"),
            container: crate_item_path(engine_cr_idx, "Container"),
            label: crate_item_path(engine_cr_idx, "Label"),
            and_labels: crate_item_path(engine_cr_idx, "AndLabels"),
            or_labels: crate_item_path(engine_cr_idx, "OrLabels"),
            nand_labels: crate_item_path(engine_cr_idx, "NandLabels"),
            nor_labels: crate_item_path(engine_cr_idx, "NorLabels"),
            engine_paths,
        }
    }
}

} // verus!
