//! Saving and loading whole programs: what a saved block holds, and which
//! blocks a program asks the engine to schedule.

use vstd::prelude::*;

use crate::engine::{BlockHandle, BlockHandleView, EngineError, EngineErrorView};
use crate::ids::{parse_id, uuid_parse};
use crate::pins::{BlockDefinition, InputSnapshot, OutputSnapshot};
use crate::registry::{BlockEntry, BlockEntryView, BlockRegistry, RegistryError, RegistryErrorView, get_block, lookup};

verus! {

/// A pin as a saved program holds it: its value and whether a link feeds
/// it.
pub struct SavedPin<'a, V> {
    pub name: String,
    pub value: Option<&'a V>,
    pub is_connected: bool,
}

/// A block as a saved program holds it: its identity, its UI metadata and
/// the values on its pins.
pub struct SavedBlock<'a, V, P> {
    pub id: u128,
    pub name: String,
    pub lib: String,
    pub label: Option<String>,
    pub position: Option<&'a P>,
    pub inputs: Vec<SavedPin<'a, V>>,
    pub outputs: Vec<SavedPin<'a, V>>,
}

/// The saved pin shows the input as the inspection did.
pub open spec fn saved_input<'a, V>(p: SavedPin<'a, V>, s: InputSnapshot<'a, V>) -> bool {
    p.name@ == s.name@ && p.value == s.val && p.is_connected == s.is_connected
}

/// The saved pin shows the output's value; outputs are never marked as
/// fed by a link.
pub open spec fn saved_output<'a, V>(p: SavedPin<'a, V>, s: OutputSnapshot<'a, V>) -> bool {
    p.name@ == s.name@ && p.value == Some(s.val) && !p.is_connected
}

/// The saved form of one scheduled block: the identity and metadata of its
/// engine record, and the pin values of an inspection of it.
pub fn save_block<'a, V, P>(handle: &'a BlockHandle<P>, def: &BlockDefinition<'a, V>) -> (b: SavedBlock<'a, V, P>)
    ensures
        b.id == handle@.id,
        b.name@ == handle@.name,
        b.lib@ == handle@.library,
        match handle@.label {
            Some(l) => b.label matches Some(s) && s@ == l,
            None => b.label is None,
        },
        match handle@.position {
            Some(p) => b.position == Some(&p),
            None => b.position is None,
        },
        b.inputs@.len() == def.inputs@.len(),
        forall|i: int| 0 <= i < b.inputs@.len() ==> saved_input(#[trigger] b.inputs@[i], def.inputs@[i]),
        b.outputs@.len() == def.outputs@.len(),
        forall|i: int|
            0 <= i < b.outputs@.len() ==> saved_output(#[trigger] b.outputs@[i], def.outputs@[i]),
{
    let mut inputs: Vec<SavedPin<'a, V>> = Vec::new();
    let mut i: usize = 0;
    while i < def.inputs.len()
        invariant
            i <= def.inputs@.len(),
            inputs@.len() == i,
            forall|k: int| 0 <= k < i ==> saved_input(#[trigger] inputs@[k], def.inputs@[k]),
        decreases def.inputs.len() - i,
    {
        let s = &def.inputs[i];
        inputs.push(SavedPin { name: s.name.clone(), value: s.val, is_connected: s.is_connected });
        i += 1;
    }
    let mut outputs: Vec<SavedPin<'a, V>> = Vec::new();
    let mut i: usize = 0;
    while i < def.outputs.len()
        invariant
            i <= def.outputs@.len(),
            outputs@.len() == i,
            forall|k: int| 0 <= k < i ==> saved_output(#[trigger] outputs@[k], def.outputs@[k]),
        decreases def.outputs.len() - i,
    {
        let s = &def.outputs[i];
        outputs.push(SavedPin { name: s.name.clone(), value: Some(s.val), is_connected: false });
        i += 1;
    }
    let label = match handle.label() {
        Some(l) => Some(String::from_str(l)),
        None => None,
    };
    SavedBlock {
        id: handle.id(),
        name: String::from_str(handle.name()),
        lib: String::from_str(handle.library()),
        label,
        position: handle.position(),
        inputs,
        outputs,
    }
}

/// A block of a program to load: its id as text, its type name and its
/// library.
pub struct ProgramBlockRef {
    pub id: String,
    pub name: String,
    pub lib: String,
}

/// Why a program cannot be loaded.
#[derive(Debug)]
pub enum LoadError {
    Engine(EngineError),
    Registry(RegistryError),
}

pub enum LoadErrorView {
    Engine(EngineErrorView),
    Registry(RegistryErrorView),
}

impl View for LoadError {
    type V = LoadErrorView;

    open spec fn view(&self) -> LoadErrorView {
        match self {
            LoadError::Engine(e) => LoadErrorView::Engine(e@),
            LoadError::Registry(e) => LoadErrorView::Registry(e@),
        }
    }
}

/// What loading a program block with id text `text` (read as `parsed`),
/// type `name` and library `lib` resolves to: its id and registry entry, or
/// the error.
pub open spec fn resolution(
    entries: Seq<BlockEntryView>,
    text: Seq<char>,
    parsed: Option<u128>,
    name: Seq<char>,
    lib: Seq<char>,
) -> Result<(u128, BlockEntryView), LoadErrorView> {
    match parsed {
        None => Err(LoadErrorView::Engine(EngineErrorView::InvalidBlockId { text })),
        Some(id) => match lookup(entries, lib, name) {
            Some(e) => Ok((id, e)),
            None => Err(
                LoadErrorView::Registry(RegistryErrorView::BlockNotFound { library: lib, name }),
            ),
        },
    }
}

/// What loading the program block `b` resolves to, its id read as a UUID.
pub open spec fn block_resolution(entries: Seq<BlockEntryView>, b: ProgramBlockRef) -> Result<(u128, BlockEntryView), LoadErrorView> {
    resolution(entries, b.id@, uuid_parse(b.id@), b.name@, b.lib@)
}

/// `step` is what the program block `b` resolves to.
pub open spec fn planned(entries: Seq<BlockEntryView>, b: ProgramBlockRef, step: (u128, BlockEntry)) -> bool {
    block_resolution(entries, b) matches Ok(found) && step.0 == found.0 && step.1@ == found.1
}

/// Resolves one program block, given its id as `parse_id` read it.
pub fn resolve_program_block(registry: &BlockRegistry, block: &ProgramBlockRef, parsed: Option<u128>) -> (r: Result<(u128, BlockEntry), LoadError>)
    ensures
        match resolution(registry@, block.id@, parsed, block.name@, block.lib@) {
            Ok(found) => r matches Ok(got) && got.0 == found.0 && got.1@ == found.1,
            Err(e) => r matches Err(got) && got@ == e,
        },
{
    let id = match parsed {
        Some(id) => id,
        None => {
            return Err(LoadError::Engine(EngineError::InvalidBlockId { text: block.id.clone() }));
        },
    };
    match get_block(registry, block.name.as_str(), Some(block.lib.as_str())) {
        Some(e) => Ok((id, e)),
        None => Err(
            LoadError::Registry(
                RegistryError::BlockNotFound { library: block.lib.clone(), name: block.name.clone() },
            ),
        ),
    }
}

/// The ids and registry entries of every block of a program, in order, or
/// the error of the first block that cannot be scheduled (its id does not
/// read as a UUID, or its library has no such block).
pub fn plan_program_blocks(registry: &BlockRegistry, blocks: &Vec<ProgramBlockRef>) -> (r: Result<Vec<(u128, BlockEntry)>, LoadError>)
    ensures
        match r {
            Ok(plan) => plan@.len() == blocks@.len() && forall|i: int|
                0 <= i < blocks@.len() ==> planned(registry@, #[trigger] blocks@[i], plan@[i]),
            Err(e) => exists|i: int|
                0 <= i < blocks@.len() && (forall|k: int|
                    0 <= k < i ==> block_resolution(registry@, #[trigger] blocks@[k]) is Ok)
                    && block_resolution(registry@, blocks@[i]) == Err::<
                    (u128, BlockEntryView),
                    LoadErrorView,
                >(e@),
        },
{
    let mut plan: Vec<(u128, BlockEntry)> = Vec::new();
    let mut i: usize = 0;
    while i < blocks.len()
        invariant
            i <= blocks@.len(),
            plan@.len() == i,
            forall|k: int| 0 <= k < i ==> planned(registry@, #[trigger] blocks@[k], plan@[k]),
        decreases blocks.len() - i,
    {
        let b = &blocks[i];
        let parsed = parse_id(b.id.as_str());
        match resolve_program_block(registry, b, parsed) {
            Ok(found) => {
                let ghost before = plan@;
                plan.push(found);
                assert forall|k: int| 0 <= k < i + 1 implies planned(registry@, #[trigger] blocks@[k], plan@[k]) by {
                    if k < i {
                        assert(plan@[k] == before[k]);
                    }
                }
            },
            Err(e) => {
                assert forall|k: int| 0 <= k < i implies block_resolution(registry@, #[trigger] blocks@[k]) is Ok by {
                    assert(planned(registry@, blocks@[k], plan@[k]));
                }
                return Err(e);
            },
        }
        i += 1;
    }
    Ok(plan)
}

} // verus!
