//! Block descriptors: a block's name, library, category and pins.

use vstd::prelude::*;

verus! {

/// The library name of the built-in blocks.
pub open spec fn core_lib() -> Seq<char> {
    "core"@
}

/// How a block is executed.
#[derive(Clone, Copy, Debug, PartialEq, Eq, Structural)]
pub enum BlockImplementation {
    /// Compiled into the engine.
    Native,
    /// Supplied and executed by a host environment.
    External,
}

/// A pin of a block: its name and the kind of value it carries.
#[derive(Clone, Debug)]
pub struct PinDesc {
    pub name: String,
    pub kind: String,
}

pub struct PinDescView {
    pub name: Seq<char>,
    pub kind: Seq<char>,
}

impl View for PinDesc {
    type V = PinDescView;

    open spec fn view(&self) -> PinDescView {
        PinDescView { name: self.name@, kind: self.kind@ }
    }
}

/// Describes a kind of block.
#[derive(Clone, Debug)]
pub struct BlockDesc {
    pub name: String,
    pub dis: String,
    pub library: String,
    pub category: String,
    pub ver: String,
    pub implementation: BlockImplementation,
    pub inputs: Vec<PinDesc>,
    pub outputs: Vec<PinDesc>,
}

pub struct BlockDescView {
    pub name: Seq<char>,
    pub dis: Seq<char>,
    pub library: Seq<char>,
    pub category: Seq<char>,
    pub ver: Seq<char>,
    pub implementation: BlockImplementation,
    pub inputs: Seq<PinDescView>,
    pub outputs: Seq<PinDescView>,
}

impl View for BlockDesc {
    type V = BlockDescView;

    open spec fn view(&self) -> BlockDescView {
        BlockDescView {
            name: self.name@,
            dis: self.dis@,
            library: self.library@,
            category: self.category@,
            ver: self.ver@,
            implementation: self.implementation,
            inputs: self.inputs@.map_values(|p: PinDesc| p@),
            outputs: self.outputs@.map_values(|p: PinDesc| p@),
        }
    }
}

impl PinDesc {
    /// A pin named `name` carrying values of kind `kind`.
    pub fn new(name: &str, kind: &str) -> (p: Self)
        ensures
            p@ == (PinDescView { name: name@, kind: kind@ }),
    {
        PinDesc { name: String::from_str(name), kind: String::from_str(kind) }
    }

    /// A copy of the pin.
    pub fn duplicate(&self) -> (p: Self)
        ensures
            p@ == self@,
    {
        PinDesc { name: self.name.clone(), kind: self.kind.clone() }
    }
}

/// A copy of a list of pins.
pub fn duplicate_pins(pins: &Vec<PinDesc>) -> (r: Vec<PinDesc>)
    ensures
        r@.map_values(|p: PinDesc| p@) == pins@.map_values(|p: PinDesc| p@),
{
    let mut r: Vec<PinDesc> = Vec::new();
    let mut i: usize = 0;
    while i < pins.len()
        invariant
            i <= pins.len(),
            r@.map_values(|p: PinDesc| p@) == pins@.subrange(0, i as int).map_values(
                |p: PinDesc| p@,
            ),
        decreases pins.len() - i,
    {
        r.push(pins[i].duplicate());
        assert(pins@.subrange(0, i + 1).map_values(|p: PinDesc| p@) =~= pins@.subrange(
            0,
            i as int,
        ).map_values(|p: PinDesc| p@).push(pins@[i as int]@));
        i += 1;
    }
    assert(pins@.subrange(0, pins.len() as int) =~= pins@);
    r
}

impl BlockDesc {
    /// A copy of the descriptor.
    pub fn duplicate(&self) -> (d: Self)
        ensures
            d@ == self@,
    {
        BlockDesc {
            name: self.name.clone(),
            dis: self.dis.clone(),
            library: self.library.clone(),
            category: self.category.clone(),
            ver: self.ver.clone(),
            implementation: self.implementation,
            inputs: duplicate_pins(&self.inputs),
            outputs: duplicate_pins(&self.outputs),
        }
    }

    /// Whether the block has an input pin named `name`.
    pub fn has_input(&self, name: &str) -> (r: bool)
        ensures
            r == pins_have(self@.inputs, name@),
    {
        has_pin(&self.inputs, name)
    }

    /// Whether the block has an output pin named `name`.
    pub fn has_output(&self, name: &str) -> (r: bool)
        ensures
            r == pins_have(self@.outputs, name@),
    {
        has_pin(&self.outputs, name)
    }
}

/// Some pin of `pins` is named `name`.
pub open spec fn pins_have(pins: Seq<PinDescView>, name: Seq<char>) -> bool {
    exists|i: int| 0 <= i < pins.len() && #[trigger] pins[i].name == name
}

fn has_pin(pins: &Vec<PinDesc>, name: &str) -> (r: bool)
    ensures
        r == pins_have(pins@.map_values(|p: PinDesc| p@), name@),
{
    let target = String::from_str(name);
    let ghost views = pins@.map_values(|p: PinDesc| p@);
    let mut i: usize = 0;
    while i < pins.len()
        invariant
            i <= pins.len(),
            target@ == name@,
            views == pins@.map_values(|p: PinDesc| p@),
            forall|k: int| 0 <= k < i ==> pins@[k].name@ != name@,
        decreases pins.len() - i,
    {
        if pins[i].name == target {
            assert(views[i as int].name == name@);
            return true;
        }
        i += 1;
    }
    assert forall|k: int| 0 <= k < views.len() implies views[k].name != name@ by {
        assert(views[k] == pins@[k]@);
    }
    false
}

/// A kind of block whose descriptor is known statically.
pub trait RegisterableBlock {
    /// The descriptor of every block of this kind. Each kind of this crate
    /// states its own; the default says nothing.
    open spec fn static_desc() -> BlockDescView {
        arbitrary()
    }

    /// Builds the descriptor.
    fn block_desc() -> (desc: BlockDesc)
        ensures
            desc@ == Self::static_desc(),
    ;
}

} // verus!
