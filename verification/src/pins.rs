//! A running block's pins and links: the per-block state that engine
//! commands read and rewire (write a pin, add or drop a link, count input
//! connections, snapshot the block).
//!
//! Pin values are of a type `V` and link writers of a type `W`, both chosen
//! by the engine; this module only stores and moves them.

use vstd::prelude::*;

use crate::desc::{BlockDesc, BlockDescView, PinDescView};
use crate::registry::BlockEntry;
use crate::ids::new_id;
use crate::text::str_equal;

verus! {

/// Quality of a value travelling on a link.
#[derive(Clone, Copy, Debug, PartialEq, Eq, Structural)]
pub enum Status {
    /// The producer vouches for the value.
    Good,
    /// The producer is faulted; the value is not to be trusted.
    Fault,
}

/// Whether a link has been wired to its target's writer.
#[derive(Clone, Copy, Debug, PartialEq, Eq, Structural)]
pub enum LinkState {
    Disconnected,
    Connected,
}

/// Lifecycle state of a block.
#[derive(Debug)]
pub enum BlockState {
    Running,
    Fault(String),
    Terminated,
}

pub enum BlockStateView {
    Running,
    Fault(Seq<char>),
    Terminated,
}

impl View for BlockState {
    type V = BlockStateView;

    open spec fn view(&self) -> BlockStateView {
        match self {
            BlockState::Running => BlockStateView::Running,
            BlockState::Fault(reason) => BlockStateView::Fault(reason@),
            BlockState::Terminated => BlockStateView::Terminated,
        }
    }
}

impl BlockState {
    /// Whether the block is faulted.
    pub fn is_fault(&self) -> (r: bool)
        ensures
            r == self@ is Fault,
    {
        match self {
            BlockState::Fault(_) => true,
            _ => false,
        }
    }
}

/// A link from a pin to an input of another block.
pub struct Link<W> {
    pub id: u128,
    pub target_block_id: u128,
    pub target_input: String,
    pub tx: Option<W>,
    pub state: LinkState,
}

pub struct LinkView<W> {
    pub id: u128,
    pub target_block_id: u128,
    pub target_input: Seq<char>,
    pub tx: Option<W>,
    pub state: LinkState,
}

impl<W> View for Link<W> {
    type V = LinkView<W>;

    open spec fn view(&self) -> LinkView<W> {
        LinkView {
            id: self.id,
            target_block_id: self.target_block_id,
            target_input: self.target_input@,
            tx: self.tx,
            state: self.state,
        }
    }
}

pub open spec fn link_views<W>(links: Seq<Link<W>>) -> Seq<LinkView<W>> {
    links.map_values(|l: Link<W>| l@)
}

/// An input pin: its cached value and status, how many links feed it, and
/// the links that chain it on to other inputs.
pub struct InputPin<V, W> {
    pub name: String,
    pub kind: String,
    pub connection_count: usize,
    pub value: Option<V>,
    pub status: Status,
    pub links: Vec<Link<W>>,
}

pub struct InputPinView<V, W> {
    pub name: Seq<char>,
    pub kind: Seq<char>,
    pub connection_count: usize,
    pub value: Option<V>,
    pub status: Status,
    pub links: Seq<LinkView<W>>,
}

impl<V, W> View for InputPin<V, W> {
    type V = InputPinView<V, W>;

    open spec fn view(&self) -> InputPinView<V, W> {
        InputPinView {
            name: self.name@,
            kind: self.kind@,
            connection_count: self.connection_count,
            value: self.value,
            status: self.status,
            links: link_views(self.links@),
        }
    }
}

/// An output pin: its current value, the status it is emitted with, and
/// its links.
pub struct OutputPin<V, W> {
    pub name: String,
    pub kind: String,
    pub value: V,
    pub effective_status: Status,
    pub links: Vec<Link<W>>,
}

pub struct OutputPinView<V, W> {
    pub name: Seq<char>,
    pub kind: Seq<char>,
    pub value: V,
    pub effective_status: Status,
    pub links: Seq<LinkView<W>>,
}

impl<V, W> View for OutputPin<V, W> {
    type V = OutputPinView<V, W>;

    open spec fn view(&self) -> OutputPinView<V, W> {
        OutputPinView {
            name: self.name@,
            kind: self.kind@,
            value: self.value,
            effective_status: self.effective_status,
            links: link_views(self.links@),
        }
    }
}

/// A block instance: identity, descriptor, state and pins.
pub struct BlockPins<V, W> {
    pub id: u128,
    pub name: String,
    pub desc: BlockDesc,
    pub state: BlockState,
    pub inputs: Vec<InputPin<V, W>>,
    pub outputs: Vec<OutputPin<V, W>>,
}

pub struct BlockPinsView<V, W> {
    pub id: u128,
    pub name: Seq<char>,
    pub desc: BlockDescView,
    pub state: BlockStateView,
    pub inputs: Seq<InputPinView<V, W>>,
    pub outputs: Seq<OutputPinView<V, W>>,
}

impl<V, W> View for BlockPins<V, W> {
    type V = BlockPinsView<V, W>;

    open spec fn view(&self) -> BlockPinsView<V, W> {
        BlockPinsView {
            id: self.id,
            name: self.name@,
            desc: self.desc@,
            state: self.state@,
            inputs: self.inputs@.map_values(|p: InputPin<V, W>| p@),
            outputs: self.outputs@.map_values(|p: OutputPin<V, W>| p@),
        }
    }
}

/// Index of the first name equal to `name`.
pub open spec fn first_named(names: Seq<Seq<char>>, name: Seq<char>) -> Option<int> {
    if exists|i: int| 0 <= i < names.len() && names[i] == name {
        Some(
            choose|i: int|
                0 <= i < names.len() && names[i] == name && forall|j: int|
                    0 <= j < i ==> names[j] != name,
        )
    } else {
        None
    }
}

pub open spec fn input_names<V, W>(pins: Seq<InputPinView<V, W>>) -> Seq<Seq<char>> {
    pins.map_values(|p: InputPinView<V, W>| p.name)
}

pub open spec fn output_names<V, W>(pins: Seq<OutputPinView<V, W>>) -> Seq<Seq<char>> {
    pins.map_values(|p: OutputPinView<V, W>| p.name)
}

/// The links in `links`, less those whose id is `id` (when `by_id`) or whose
/// target block is `id` (otherwise).
pub open spec fn links_without<W>(links: Seq<LinkView<W>>, by_id: bool, id: u128) -> Seq<LinkView<W>>
    decreases links.len(),
{
    if links.len() == 0 {
        seq![]
    } else {
        let rest = links_without(links.drop_last(), by_id, id);
        let l = links.last();
        if (if by_id {
            l.id
        } else {
            l.target_block_id
        }) == id {
            rest
        } else {
            rest.push(l)
        }
    }
}

/// The links in `links` whose target is block `block` and input `input`.
pub open spec fn links_to<W>(links: Seq<LinkView<W>>, block: u128, input: Seq<char>) -> bool {
    exists|k: int|
        0 <= k < links.len() && (#[trigger] links[k]).target_block_id == block
            && links[k].target_input == input
}


/// Removes from `links` those whose id is `id` (when `by_id`) or whose
/// target block is `id` (otherwise), keeping the order of the rest.
fn drop_links<W>(links: &mut Vec<Link<W>>, by_id: bool, id: u128)
    ensures
        link_views(final(links)@) == links_without(link_views(old(links)@), by_id, id),
{
    let ghost all_links = link_views(links@);
    let mut kept: Vec<Link<W>> = Vec::new();
    let mut rest: Vec<Link<W>> = Vec::new();
    std::mem::swap(&mut rest, links);
    let ghost total = rest@;
    let total_len = rest.len();
    let mut i: usize = 0;
    while rest.len() > 0
        invariant
            all_links == link_views(total),
            i + rest@.len() == total.len(),
            total.len() == total_len,
            rest@ == total.subrange(i as int, total.len() as int),
            link_views(kept@) == links_without(all_links.subrange(0, i as int), by_id, id),
        decreases rest.len(),
    {
        let l = rest.remove(0);
        assert(l == total[i as int]);
        assert(rest@ =~= total.subrange(i + 1, total.len() as int));
        let ghost prefix = all_links.subrange(0, i + 1);
        assert(prefix.drop_last() =~= all_links.subrange(0, i as int));
        assert(prefix.last() == l@);
        let matched = if by_id {
            l.id == id
        } else {
            l.target_block_id == id
        };
        if !matched {
            kept.push(l);
            assert(link_views(kept@) =~= links_without(all_links.subrange(0, i as int), by_id, id).push(
                l@,
            ));
        }
        i += 1;
    }
    assert(all_links.subrange(0, total.len() as int) =~= all_links);
    *links = kept;
}

/// `(pin name, link)` for every link of the given output pins, pin by pin.
pub open spec fn output_records<V, W>(outputs: Seq<OutputPinView<V, W>>) -> Seq<(Seq<char>, LinkView<W>)>
    decreases outputs.len(),
{
    if outputs.len() == 0 {
        seq![]
    } else {
        let p = outputs.last();
        output_records(outputs.drop_last()) + p.links.map_values(|l: LinkView<W>| (p.name, l))
    }
}

/// `(pin name, link)` for every link of the given input pins, pin by pin.
pub open spec fn input_records<V, W>(inputs: Seq<InputPinView<V, W>>) -> Seq<(Seq<char>, LinkView<W>)>
    decreases inputs.len(),
{
    if inputs.len() == 0 {
        seq![]
    } else {
        let p = inputs.last();
        input_records(inputs.drop_last()) + p.links.map_values(|l: LinkView<W>| (p.name, l))
    }
}

/// Every link of the block with the name of its source pin: the outputs'
/// links first, then the inputs' links.
pub open spec fn link_records<V, W>(b: BlockPinsView<V, W>) -> Seq<(Seq<char>, LinkView<W>)> {
    output_records(b.outputs) + input_records(b.inputs)
}

/// `(target block, target input)` of each record.
pub open spec fn record_targets<W>(records: Seq<(Seq<char>, LinkView<W>)>) -> Seq<(u128, Seq<char>)> {
    records.map_values(|r: (Seq<char>, LinkView<W>)| (r.1.target_block_id, r.1.target_input))
}

/// The records whose link has id `id`.
pub open spec fn records_with_id<W>(records: Seq<(Seq<char>, LinkView<W>)>, id: u128) -> Seq<(Seq<char>, LinkView<W>)>
    decreases records.len(),
{
    if records.len() == 0 {
        seq![]
    } else {
        let rest = records_with_id(records.drop_last(), id);
        if records.last().1.id == id {
            rest.push(records.last())
        } else {
            rest
        }
    }
}

/// The pin with its value replaced and its status good.
pub open spec fn input_written<V, W>(p: InputPinView<V, W>, value: V) -> InputPinView<V, W> {
    InputPinView { value: Some(value), status: Status::Good, ..p }
}

/// The pin with its connection count replaced.
pub open spec fn input_counted<V, W>(p: InputPinView<V, W>, count: usize) -> InputPinView<V, W> {
    InputPinView { connection_count: count, ..p }
}

/// The pin with one more link.
pub open spec fn input_linked<V, W>(p: InputPinView<V, W>, l: LinkView<W>) -> InputPinView<V, W> {
    InputPinView { links: p.links.push(l), ..p }
}

/// The pin with its links filtered by `links_without`.
pub open spec fn input_unlinked<V, W>(p: InputPinView<V, W>, by_id: bool, id: u128) -> InputPinView<V, W> {
    InputPinView { links: links_without(p.links, by_id, id), ..p }
}

/// The pin with its value replaced.
pub open spec fn output_written<V, W>(p: OutputPinView<V, W>, value: V) -> OutputPinView<V, W> {
    OutputPinView { value, ..p }
}

/// The pin with one more link.
pub open spec fn output_linked<V, W>(p: OutputPinView<V, W>, l: LinkView<W>) -> OutputPinView<V, W> {
    OutputPinView { links: p.links.push(l), ..p }
}

/// The pin with its links filtered by `links_without`.
pub open spec fn output_unlinked<V, W>(p: OutputPinView<V, W>, by_id: bool, id: u128) -> OutputPinView<V, W> {
    OutputPinView { links: links_without(p.links, by_id, id), ..p }
}

/// The pin emitting with status `status`.
pub open spec fn output_with_status<V, W>(p: OutputPinView<V, W>, status: Status) -> OutputPinView<V, W> {
    OutputPinView { effective_status: status, ..p }
}

/// A newly wired link.
pub open spec fn new_link<W>(id: u128, block: u128, input: Seq<char>, tx: W) -> LinkView<W> {
    LinkView { id, target_block_id: block, target_input: input, tx: Some(tx), state: LinkState::Connected }
}

/// When `name` occurs in `names`, `first_named` gives its first position.
pub proof fn lemma_first_named_found(names: Seq<Seq<char>>, name: Seq<char>, k: int)
    requires
        0 <= k < names.len(),
        names[k] == name,
    ensures
        first_named(names, name) matches Some(i) && 0 <= i <= k && names[i] == name && forall|j: int|
            0 <= j < i ==> names[j] != name,
    decreases k,
{
    if exists|j: int| 0 <= j < k && names[j] == name {
        let j = choose|j: int| 0 <= j < k && names[j] == name;
        lemma_first_named_found(names, name, j);
    } else {
        lemma_first_named_at(names, name, k);
    }
}

pub proof fn lemma_first_named_at(names: Seq<Seq<char>>, name: Seq<char>, i: int)
    requires
        0 <= i < names.len(),
        names[i] == name,
        forall|j: int| 0 <= j < i ==> names[j] != name,
    ensures
        first_named(names, name) == Some(i),
{
    let k = choose|k: int|
        0 <= k < names.len() && names[k] == name && forall|j: int| 0 <= j < k ==> names[j] != name;
    if k < i {
        assert(names[k] != name);
    } else if k > i {
        assert(names[i] != name);
    }
}

/// Position of the first input pin named `name`.
fn find_input<V, W>(pins: &Vec<InputPin<V, W>>, name: &str) -> (r: Option<usize>)
    ensures
        match r {
            Some(i) => i < pins@.len() && first_named(
                input_names(pins@.map_values(|p: InputPin<V, W>| p@)),
                name@,
            ) == Some(i as int),
            None => first_named(input_names(pins@.map_values(|p: InputPin<V, W>| p@)), name@) is None,
        },
{
    let ghost names = input_names(pins@.map_values(|p: InputPin<V, W>| p@));
    let mut i: usize = 0;
    while i < pins.len()
        invariant
            i <= pins@.len(),
            names == input_names(pins@.map_values(|p: InputPin<V, W>| p@)),
            forall|j: int| 0 <= j < i ==> names[j] != name@,
        decreases pins.len() - i,
    {
        assert(names[i as int] == pins@[i as int].name@);
        if str_equal(pins[i].name.as_str(), name) {
            proof {
                lemma_first_named_at(names, name@, i as int);
            }
            return Some(i);
        }
        i += 1;
    }
    None
}

/// Position of the first output pin named `name`.
fn find_output<V, W>(pins: &Vec<OutputPin<V, W>>, name: &str) -> (r: Option<usize>)
    ensures
        match r {
            Some(i) => i < pins@.len() && first_named(
                output_names(pins@.map_values(|p: OutputPin<V, W>| p@)),
                name@,
            ) == Some(i as int),
            None => first_named(output_names(pins@.map_values(|p: OutputPin<V, W>| p@)), name@) is None,
        },
{
    let ghost names = output_names(pins@.map_values(|p: OutputPin<V, W>| p@));
    let mut i: usize = 0;
    while i < pins.len()
        invariant
            i <= pins@.len(),
            names == output_names(pins@.map_values(|p: OutputPin<V, W>| p@)),
            forall|j: int| 0 <= j < i ==> names[j] != name@,
        decreases pins.len() - i,
    {
        assert(names[i as int] == pins@[i as int].name@);
        if str_equal(pins[i].name.as_str(), name) {
            proof {
                lemma_first_named_at(names, name@, i as int);
            }
            return Some(i);
        }
        i += 1;
    }
    None
}

/// Whether some link goes to input `input` of block `block`.
fn has_link_to<W>(links: &Vec<Link<W>>, block: u128, input: &str) -> (r: bool)
    ensures
        r == links_to(link_views(links@), block, input@),
{
    let mut i: usize = 0;
    while i < links.len()
        invariant
            i <= links@.len(),
            forall|k: int|
                0 <= k < i ==> !((#[trigger] link_views(links@)[k]).target_block_id == block
                    && link_views(links@)[k].target_input == input@),
        decreases links.len() - i,
    {
        assert(link_views(links@)[i as int] == links@[i as int]@);
        if links[i].target_block_id == block && str_equal(links[i].target_input.as_str(), input) {
            return true;
        }
        i += 1;
    }
    false
}

impl<V, W> BlockPins<V, W> {
    /// Sets the input `name` to `value` with a good status, returning the
    /// value it held. Fails with `"Input not found"`, changing nothing, when
    /// there is no such input.
    pub fn write_input(&mut self, name: &str, value: V) -> (r: Result<Option<V>, String>)
        ensures
            match first_named(input_names(old(self)@.inputs), name@) {
                None => (r matches Err(e) && e@ == "Input not found"@) && final(self)@ == old(self)@,
                Some(i) => r == Ok::<Option<V>, String>(old(self)@.inputs[i].value) && final(self)@
                    == (BlockPinsView {
                    inputs: old(self)@.inputs.update(i, input_written(old(self)@.inputs[i], value)),
                    ..old(self)@
                }),
            },
    {
        match find_input(&self.inputs, name) {
            Some(i) => {
                let mut pin = self.inputs.remove(i);
                let prev = pin.value.take();
                pin.value = Some(value);
                pin.status = Status::Good;
                self.inputs.insert(i, pin);
                assert(self@.inputs =~= old(self)@.inputs.update(
                    i as int,
                    input_written(old(self)@.inputs[i as int], value),
                ));
                Ok(prev)
            },
            None => Err(String::from_str("Input not found")),
        }
    }

    /// Sets the output `name` to `value`, returning the value it held. Fails
    /// with `"Output not found"`, changing nothing, when there is no such
    /// output.
    pub fn write_output(&mut self, name: &str, value: V) -> (r: Result<V, String>)
        ensures
            match first_named(output_names(old(self)@.outputs), name@) {
                None => (r matches Err(e) && e@ == "Output not found"@) && final(self)@ == old(self)@,
                Some(i) => r == Ok::<V, String>(old(self)@.outputs[i].value) && final(self)@
                    == (BlockPinsView {
                    outputs: old(self)@.outputs.update(i, output_written(old(self)@.outputs[i], value)),
                    ..old(self)@
                }),
            },
    {
        match find_output(&self.outputs, name) {
            Some(i) => {
                let mut pin = self.outputs.remove(i);
                let mut v = value;
                std::mem::swap(&mut pin.value, &mut v);
                self.outputs.insert(i, pin);
                assert(self@.outputs =~= old(self)@.outputs.update(
                    i as int,
                    output_written(old(self)@.outputs[i as int], value),
                ));
                Ok(v)
            },
            None => Err(String::from_str("Output not found")),
        }
    }

    /// The cached value of input `name`, if the input exists and holds one.
    pub fn input_value(&self, name: &str) -> (r: Option<&V>)
        ensures
            match first_named(input_names(self@.inputs), name@) {
                None => r is None,
                Some(i) => match self@.inputs[i].value {
                    Some(v) => r == Some(&v),
                    None => r is None,
                },
            },
    {
        match find_input(&self.inputs, name) {
            Some(i) => match &self.inputs[i].value {
                Some(v) => Some(v),
                None => None,
            },
            None => None,
        }
    }

    /// The value of output `name`, if the output exists.
    pub fn output_value(&self, name: &str) -> (r: Option<&V>)
        ensures
            match first_named(output_names(self@.outputs), name@) {
                None => r is None,
                Some(i) => r == Some(&self@.outputs[i].value),
            },
    {
        match find_output(&self.outputs, name) {
            Some(i) => Some(&self.outputs[i].value),
            None => None,
        }
    }

    /// Whether the block has an output named `name`.
    pub fn has_output(&self, name: &str) -> (r: bool)
        ensures
            r == first_named(output_names(self@.outputs), name@) is Some,
    {
        find_output(&self.outputs, name).is_some()
    }

    /// Counts one more link feeding input `name` (saturating); returns the
    /// new count, or `None` when there is no such input.
    pub fn increment_input(&mut self, name: &str) -> (r: Option<usize>)
        ensures
            match first_named(input_names(old(self)@.inputs), name@) {
                None => r is None && final(self)@ == old(self)@,
                Some(i) => {
                    let c = old(self)@.inputs[i].connection_count;
                    let n = if c == usize::MAX {
                        c
                    } else {
                        (c + 1) as usize
                    };
                    &&& r == Some(n)
                    &&& final(self)@ == (BlockPinsView {
                        inputs: old(self)@.inputs.update(i, input_counted(old(self)@.inputs[i], n)),
                        ..old(self)@
                    })
                },
            },
    {
        match find_input(&self.inputs, name) {
            Some(i) => {
                let mut pin = self.inputs.remove(i);
                if pin.connection_count < usize::MAX {
                    pin.connection_count = pin.connection_count + 1;
                }
                let n = pin.connection_count;
                self.inputs.insert(i, pin);
                assert(self@.inputs =~= old(self)@.inputs.update(
                    i as int,
                    input_counted(old(self)@.inputs[i as int], n),
                ));
                Some(n)
            },
            None => None,
        }
    }

    /// Counts one link fewer feeding input `name` (not below zero); returns
    /// the new count, or `None` when there is no such input.
    pub fn decrement_input(&mut self, name: &str) -> (r: Option<usize>)
        ensures
            match first_named(input_names(old(self)@.inputs), name@) {
                None => r is None && final(self)@ == old(self)@,
                Some(i) => {
                    let c = old(self)@.inputs[i].connection_count;
                    let n = if c == 0 {
                        0
                    } else {
                        (c - 1) as usize
                    };
                    &&& r == Some(n)
                    &&& final(self)@ == (BlockPinsView {
                        inputs: old(self)@.inputs.update(i, input_counted(old(self)@.inputs[i], n)),
                        ..old(self)@
                    })
                },
            },
    {
        match find_input(&self.inputs, name) {
            Some(i) => {
                let mut pin = self.inputs.remove(i);
                if pin.connection_count > 0 {
                    pin.connection_count = pin.connection_count - 1;
                }
                let n = pin.connection_count;
                self.inputs.insert(i, pin);
                assert(self@.inputs =~= old(self)@.inputs.update(
                    i as int,
                    input_counted(old(self)@.inputs[i as int], n),
                ));
                Some(n)
            },
            None => None,
        }
    }

    /// Links output `output_name` to input `target_input_name` of block
    /// `target_block_id`, sending through `target_writer`; returns the new
    /// link's (fresh, random) id. Fails, changing nothing, with
    /// `"Output not found"` or, when that output already links to that
    /// input, `"Already connected"`.
    pub fn add_output_link(
        &mut self,
        output_name: &str,
        target_block_id: u128,
        target_input_name: String,
        target_writer: W,
    ) -> (r: Result<u128, String>)
        ensures
            match first_named(output_names(old(self)@.outputs), output_name@) {
                None => (r matches Err(e) && e@ == "Output not found"@) && final(self)@ == old(self)@,
                Some(i) => if links_to(old(self)@.outputs[i].links, target_block_id, target_input_name@) {
                    (r matches Err(e) && e@ == "Already connected"@) && final(self)@ == old(self)@
                } else {
                    r matches Ok(id) && final(self)@ == (BlockPinsView {
                        outputs: old(self)@.outputs.update(
                            i,
                            output_linked(
                                old(self)@.outputs[i],
                                new_link(id, target_block_id, target_input_name@, target_writer),
                            ),
                        ),
                        ..old(self)@
                    })
                },
            },
    {
        let i = match find_output(&self.outputs, output_name) {
            Some(i) => i,
            None => return Err(String::from_str("Output not found")),
        };
        if has_link_to(&self.outputs[i].links, target_block_id, target_input_name.as_str()) {
            return Err(String::from_str("Already connected"));
        }
        let id = new_id();
        let link = Link {
            id,
            target_block_id,
            target_input: target_input_name,
            tx: Some(target_writer),
            state: LinkState::Connected,
        };
        let mut pin = self.outputs.remove(i);
        pin.links.push(link);
        self.outputs.insert(i, pin);
        assert(self@.outputs[i as int].links =~= old(self)@.outputs[i as int].links.push(link@));
        assert(self@.outputs =~= old(self)@.outputs.update(
            i as int,
            output_linked(old(self)@.outputs[i as int], link@),
        ));
        Ok(id)
    }

    /// Chains input `input_name` on to input `target_input_name` of block
    /// `target_block_id`; returns the new link's (fresh, random) id. Fails,
    /// changing nothing, with `"Cannot connect to the same block"`,
    /// `"Input not found"` or `"Already connected"`.
    pub fn add_input_link(
        &mut self,
        input_name: &str,
        target_block_id: u128,
        target_input_name: String,
        target_writer: W,
    ) -> (r: Result<u128, String>)
        ensures
            old(self)@.id == target_block_id ==> (r matches Err(e) && e@
                == "Cannot connect to the same block"@) && final(self)@ == old(self)@,
            old(self)@.id != target_block_id ==> match first_named(
                input_names(old(self)@.inputs),
                input_name@,
            ) {
                None => (r matches Err(e) && e@ == "Input not found"@) && final(self)@ == old(self)@,
                Some(i) => if links_to(old(self)@.inputs[i].links, target_block_id, target_input_name@) {
                    (r matches Err(e) && e@ == "Already connected"@) && final(self)@ == old(self)@
                } else {
                    r matches Ok(id) && final(self)@ == (BlockPinsView {
                        inputs: old(self)@.inputs.update(
                            i,
                            input_linked(
                                old(self)@.inputs[i],
                                new_link(id, target_block_id, target_input_name@, target_writer),
                            ),
                        ),
                        ..old(self)@
                    })
                },
            },
    {
        if self.id == target_block_id {
            return Err(String::from_str("Cannot connect to the same block"));
        }
        let i = match find_input(&self.inputs, input_name) {
            Some(i) => i,
            None => return Err(String::from_str("Input not found")),
        };
        if has_link_to(&self.inputs[i].links, target_block_id, target_input_name.as_str()) {
            return Err(String::from_str("Already connected"));
        }
        let id = new_id();
        let link = Link {
            id,
            target_block_id,
            target_input: target_input_name,
            tx: Some(target_writer),
            state: LinkState::Connected,
        };
        let mut pin = self.inputs.remove(i);
        pin.links.push(link);
        self.inputs.insert(i, pin);
        assert(self@.inputs[i as int].links =~= old(self)@.inputs[i as int].links.push(link@));
        assert(self@.inputs =~= old(self)@.inputs.update(
            i as int,
            input_linked(old(self)@.inputs[i as int], link@),
        ));
        Ok(id)
    }
}

/// A link of a block as a program stores it.
pub struct LinkRecord {
    pub id: u128,
    pub source_block_pin_name: String,
    pub source_block_uuid: u128,
    pub target_block_pin_name: String,
    pub target_block_uuid: u128,
}

pub struct LinkRecordView {
    pub id: u128,
    pub source_block_pin_name: Seq<char>,
    pub source_block_uuid: u128,
    pub target_block_pin_name: Seq<char>,
    pub target_block_uuid: u128,
}

impl View for LinkRecord {
    type V = LinkRecordView;

    open spec fn view(&self) -> LinkRecordView {
        LinkRecordView {
            id: self.id,
            source_block_pin_name: self.source_block_pin_name@,
            source_block_uuid: self.source_block_uuid,
            target_block_pin_name: self.target_block_pin_name@,
            target_block_uuid: self.target_block_uuid,
        }
    }
}

/// A block's identity as a program stores it.
pub struct BlockData {
    pub id: u128,
    pub name: String,
    pub dis: String,
    pub lib: String,
    pub category: String,
    pub ver: String,
}

pub struct BlockDataView {
    pub id: u128,
    pub name: Seq<char>,
    pub dis: Seq<char>,
    pub lib: Seq<char>,
    pub category: Seq<char>,
    pub ver: Seq<char>,
}

impl View for BlockData {
    type V = BlockDataView;

    open spec fn view(&self) -> BlockDataView {
        BlockDataView {
            id: self.id,
            name: self.name@,
            dis: self.dis@,
            lib: self.lib@,
            category: self.category@,
            ver: self.ver@,
        }
    }
}

/// The program record of a link leaving pin `pin` of block `block`.
pub open spec fn record_of<W>(block: u128, pin: Seq<char>, l: LinkView<W>) -> LinkRecordView {
    LinkRecordView {
        id: l.id,
        source_block_pin_name: pin,
        source_block_uuid: block,
        target_block_pin_name: l.target_input,
        target_block_uuid: l.target_block_id,
    }
}

/// Views of a table of `(pin name, link)` borrows.
pub open spec fn table_views<'a, W>(t: Seq<(&'a str, &'a Link<W>)>) -> Seq<(Seq<char>, LinkView<W>)> {
    t.map_values(|e: (&'a str, &'a Link<W>)| (e.0@, e.1@))
}

impl<V, W> BlockPins<V, W> {
    /// Every link of the block with the name of its source pin: the
    /// outputs' links first, then the inputs' links.
    pub fn link_table(&self) -> (t: Vec<(&str, &Link<W>)>)
        ensures
            table_views(t@) == link_records(self@),
    {
        let mut t: Vec<(&str, &Link<W>)> = Vec::new();
        let ghost outs = self@.outputs;
        let ghost ins = self@.inputs;
        let mut i: usize = 0;
        while i < self.outputs.len()
            invariant
                i <= self.outputs@.len(),
                outs == self@.outputs,
                table_views(t@) == output_records(outs.subrange(0, i as int)),
            decreases self.outputs.len() - i,
        {
            let pin = &self.outputs[i];
            let ghost before = table_views(t@);
            let mut j: usize = 0;
            while j < pin.links.len()
                invariant
                    j <= pin.links@.len(),
                    pin@ == outs[i as int],
                    table_views(t@) == before + outs[i as int].links.subrange(0, j as int).map_values(
                        |l: LinkView<W>| (outs[i as int].name, l),
                    ),
                decreases pin.links.len() - j,
            {
                let ghost prev = table_views(t@);
                t.push((pin.name.as_str(), &pin.links[j]));
                assert(outs[i as int].links[j as int] == pin.links@[j as int]@);
                assert(table_views(t@) =~= prev.push((outs[i as int].name, outs[i as int].links[j as int])));
                assert(outs[i as int].links.subrange(0, j + 1).map_values(
                    |l: LinkView<W>| (outs[i as int].name, l),
                ) =~= outs[i as int].links.subrange(0, j as int).map_values(
                    |l: LinkView<W>| (outs[i as int].name, l),
                ).push((outs[i as int].name, outs[i as int].links[j as int])));
                assert(table_views(t@) =~= before + outs[i as int].links.subrange(0, j + 1).map_values(
                    |l: LinkView<W>| (outs[i as int].name, l),
                ));
                j += 1;
            }
            assert(outs.subrange(0, i + 1).drop_last() =~= outs.subrange(0, i as int));
            assert(outs[i as int].links.subrange(0, j as int) =~= outs[i as int].links);
            i += 1;
        }
        assert(outs.subrange(0, i as int) =~= outs);
        let ghost out_part = table_views(t@);
        let mut i: usize = 0;
        while i < self.inputs.len()
            invariant
                i <= self.inputs@.len(),
                ins == self@.inputs,
                out_part == output_records(outs),
                table_views(t@) == out_part + input_records(ins.subrange(0, i as int)),
            decreases self.inputs.len() - i,
        {
            let pin = &self.inputs[i];
            let ghost before = table_views(t@);
            let mut j: usize = 0;
            while j < pin.links.len()
                invariant
                    j <= pin.links@.len(),
                    pin@ == ins[i as int],
                    table_views(t@) == before + ins[i as int].links.subrange(0, j as int).map_values(
                        |l: LinkView<W>| (ins[i as int].name, l),
                    ),
                decreases pin.links.len() - j,
            {
                let ghost prev = table_views(t@);
                t.push((pin.name.as_str(), &pin.links[j]));
                assert(ins[i as int].links[j as int] == pin.links@[j as int]@);
                assert(table_views(t@) =~= prev.push((ins[i as int].name, ins[i as int].links[j as int])));
                assert(ins[i as int].links.subrange(0, j + 1).map_values(
                    |l: LinkView<W>| (ins[i as int].name, l),
                ) =~= ins[i as int].links.subrange(0, j as int).map_values(
                    |l: LinkView<W>| (ins[i as int].name, l),
                ).push((ins[i as int].name, ins[i as int].links[j as int])));
                assert(table_views(t@) =~= before + ins[i as int].links.subrange(0, j + 1).map_values(
                    |l: LinkView<W>| (ins[i as int].name, l),
                ));
                j += 1;
            }
            assert(ins.subrange(0, i + 1).drop_last() =~= ins.subrange(0, i as int));
            assert(ins[i as int].links.subrange(0, j as int) =~= ins[i as int].links);
            assert(table_views(t@) =~= out_part + input_records(ins.subrange(0, i + 1)));
            i += 1;
        }
        assert(ins.subrange(0, i as int) =~= ins);
        t
    }

    /// The targets of every link whose id is `link_id`.
    pub fn collect_targets_for_link(&self, link_id: u128) -> (targets: Vec<(u128, String)>)
        ensures
            targets@.map_values(|t: (u128, String)| (t.0, t.1@)) == record_targets(
                records_with_id(link_records(self@), link_id),
            ),
    {
        let table = self.link_table();
        let ghost all = table_views(table@);
        let mut targets: Vec<(u128, String)> = Vec::new();
        let mut k: usize = 0;
        while k < table.len()
            invariant
                k <= table@.len(),
                all == table_views(table@),
                targets@.map_values(|t: (u128, String)| (t.0, t.1@)) == record_targets(
                    records_with_id(all.subrange(0, k as int), link_id),
                ),
            decreases table.len() - k,
        {
            let link = table[k].1;
            assert(all.subrange(0, k + 1).drop_last() =~= all.subrange(0, k as int));
            assert(all[k as int].1 == link@);
            assert(all.subrange(0, k + 1).last() == all[k as int]);
            if link.id == link_id {
                let ghost prev = targets@.map_values(|t: (u128, String)| (t.0, t.1@));
                targets.push((link.target_block_id, link.target_input.clone()));
                assert(targets@.map_values(|t: (u128, String)| (t.0, t.1@)) =~= prev.push(
                    (link.target_block_id, link.target_input@),
                ));
                assert(records_with_id(all.subrange(0, k + 1), link_id) == records_with_id(
                    all.subrange(0, k as int),
                    link_id,
                ).push(all[k as int]));
                assert(targets@.map_values(|t: (u128, String)| (t.0, t.1@)) =~= record_targets(
                    records_with_id(all.subrange(0, k + 1), link_id),
                ));
            } else {
                assert(records_with_id(all.subrange(0, k + 1), link_id) == records_with_id(
                    all.subrange(0, k as int),
                    link_id,
                ));
            }
            k += 1;
        }
        assert(all.subrange(0, k as int) =~= all);
        targets
    }

    /// The targets of every link of the block.
    pub fn collect_all_targets(&self) -> (targets: Vec<(u128, String)>)
        ensures
            targets@.map_values(|t: (u128, String)| (t.0, t.1@)) == record_targets(
                link_records(self@),
            ),
    {
        let table = self.link_table();
        let ghost all = table_views(table@);
        let mut targets: Vec<(u128, String)> = Vec::new();
        let mut k: usize = 0;
        while k < table.len()
            invariant
                k <= table@.len(),
                all == table_views(table@),
                targets@.map_values(|t: (u128, String)| (t.0, t.1@)) == record_targets(
                    all.subrange(0, k as int),
                ),
            decreases table.len() - k,
        {
            let link = table[k].1;
            assert(all[k as int].1 == link@);
            let ghost prev = targets@.map_values(|t: (u128, String)| (t.0, t.1@));
            targets.push((link.target_block_id, link.target_input.clone()));
            assert(targets@.map_values(|t: (u128, String)| (t.0, t.1@)) =~= prev.push(
                (link.target_block_id, link.target_input@),
            ));
            assert(record_targets(all.subrange(0, k + 1)) =~= record_targets(all.subrange(0, k as int)).push(
                (link.target_block_id, link.target_input@),
            ));
            k += 1;
        }
        assert(all.subrange(0, k as int) =~= all);
        targets
    }

    /// Drops, from every pin, the links whose id is `id` (when `by_id`) or
    /// whose target block is `id` (otherwise).
    fn drop_links_everywhere(&mut self, by_id: bool, id: u128)
        ensures
            final(self)@ == (BlockPinsView {
                outputs: old(self)@.outputs.map_values(
                    |p: OutputPinView<V, W>| output_unlinked(p, by_id, id),
                ),
                inputs: old(self)@.inputs.map_values(
                    |p: InputPinView<V, W>| input_unlinked(p, by_id, id),
                ),
                ..old(self)@
            }),
    {
        let ghost outs = old(self)@.outputs;
        let ghost ins = old(self)@.inputs;
        let mut i: usize = 0;
        while i < self.outputs.len()
            invariant
                i <= self.outputs@.len(),
                self.outputs@.len() == outs.len(),
                self@.inputs == ins,
                self@.id == old(self)@.id,
                self@.name == old(self)@.name,
                self@.desc == old(self)@.desc,
                self@.state == old(self)@.state,
                forall|k: int|
                    0 <= k < outs.len() ==> #[trigger] self@.outputs[k] == if k < i {
                        output_unlinked(outs[k], by_id, id)
                    } else {
                        outs[k]
                    },
            decreases self.outputs.len() - i,
        {
            let ghost prev = self.outputs@;
            let ghost head = self@.outputs;
            assert(forall|k: int| 0 <= k < prev.len() ==> head[k] == #[trigger] prev[k]@);
            let mut pin = self.outputs.remove(i);
            drop_links(&mut pin.links, by_id, id);
            self.outputs.insert(i, pin);
            assert(self.outputs@ =~= prev.update(i as int, self.outputs@[i as int]));
            assert forall|k: int| 0 <= k < outs.len() implies #[trigger] self@.outputs[k] == if k < i + 1 {
                output_unlinked(outs[k], by_id, id)
            } else {
                outs[k]
            } by {
                if k != i {
                    assert(self@.outputs[k] == prev[k]@);
                } else {
                    assert(head[k] == outs[k]);
                }
            }
            i += 1;
        }
        let mut i: usize = 0;
        while i < self.inputs.len()
            invariant
                i <= self.inputs@.len(),
                self.inputs@.len() == ins.len(),
                self@.outputs =~= outs.map_values(
                    |p: OutputPinView<V, W>| output_unlinked(p, by_id, id),
                ),
                self@.id == old(self)@.id,
                self@.name == old(self)@.name,
                self@.desc == old(self)@.desc,
                self@.state == old(self)@.state,
                forall|k: int|
                    0 <= k < ins.len() ==> #[trigger] self@.inputs[k] == if k < i {
                        input_unlinked(ins[k], by_id, id)
                    } else {
                        ins[k]
                    },
            decreases self.inputs.len() - i,
        {
            let ghost prev = self.inputs@;
            let ghost head = self@.inputs;
            assert(forall|k: int| 0 <= k < prev.len() ==> head[k] == #[trigger] prev[k]@);
            let mut pin = self.inputs.remove(i);
            drop_links(&mut pin.links, by_id, id);
            self.inputs.insert(i, pin);
            assert(self.inputs@ =~= prev.update(i as int, self.inputs@[i as int]));
            assert forall|k: int| 0 <= k < ins.len() implies #[trigger] self@.inputs[k] == if k < i + 1 {
                input_unlinked(ins[k], by_id, id)
            } else {
                ins[k]
            } by {
                if k != i {
                    assert(self@.inputs[k] == prev[k]@);
                }
            }
            i += 1;
        }
        assert(self@.inputs =~= ins.map_values(|p: InputPinView<V, W>| input_unlinked(p, by_id, id)));
    }

    /// Removes every link whose id is `link_id`.
    pub fn remove_link_by_id(&mut self, link_id: u128)
        ensures
            final(self)@ == (BlockPinsView {
                outputs: old(self)@.outputs.map_values(
                    |p: OutputPinView<V, W>| output_unlinked(p, true, link_id),
                ),
                inputs: old(self)@.inputs.map_values(
                    |p: InputPinView<V, W>| input_unlinked(p, true, link_id),
                ),
                ..old(self)@
            }),
    {
        self.drop_links_everywhere(true, link_id)
    }

    /// Removes every link that targets block `target_block_id`.
    pub fn remove_target_block_links(&mut self, target_block_id: u128)
        ensures
            final(self)@ == (BlockPinsView {
                outputs: old(self)@.outputs.map_values(
                    |p: OutputPinView<V, W>| output_unlinked(p, false, target_block_id),
                ),
                inputs: old(self)@.inputs.map_values(
                    |p: InputPinView<V, W>| input_unlinked(p, false, target_block_id),
                ),
                ..old(self)@
            }),
    {
        self.drop_links_everywhere(false, target_block_id)
    }

    /// Removes every link of the block.
    pub fn remove_all_links(&mut self)
        ensures
            final(self)@ == (BlockPinsView {
                outputs: old(self)@.outputs.map_values(
                    |p: OutputPinView<V, W>| OutputPinView { links: Seq::empty(), ..p },
                ),
                inputs: old(self)@.inputs.map_values(
                    |p: InputPinView<V, W>| InputPinView { links: Seq::empty(), ..p },
                ),
                ..old(self)@
            }),
    {
        let ghost outs = old(self)@.outputs;
        let ghost ins = old(self)@.inputs;
        let mut i: usize = 0;
        while i < self.outputs.len()
            invariant
                i <= self.outputs@.len(),
                self.outputs@.len() == outs.len(),
                self@.inputs == ins,
                self@.id == old(self)@.id,
                self@.name == old(self)@.name,
                self@.desc == old(self)@.desc,
                self@.state == old(self)@.state,
                forall|k: int|
                    0 <= k < outs.len() ==> #[trigger] self@.outputs[k] == if k < i {
                        OutputPinView { links: Seq::empty(), ..outs[k] }
                    } else {
                        outs[k]
                    },
            decreases self.outputs.len() - i,
        {
            let ghost prev = self.outputs@;
            let ghost head = self@.outputs;
            assert(forall|k: int| 0 <= k < prev.len() ==> head[k] == #[trigger] prev[k]@);
            let mut pin = self.outputs.remove(i);
            pin.links = Vec::new();
            self.outputs.insert(i, pin);
            assert(self.outputs@ =~= prev.update(i as int, self.outputs@[i as int]));
            assert(self@.outputs[i as int].links =~= Seq::empty());
            assert forall|k: int| 0 <= k < outs.len() implies #[trigger] self@.outputs[k] == if k < i + 1 {
                OutputPinView { links: Seq::empty(), ..outs[k] }
            } else {
                outs[k]
            } by {
                if k != i {
                    assert(self@.outputs[k] == prev[k]@);
                }
            }
            i += 1;
        }
        let mut i: usize = 0;
        while i < self.inputs.len()
            invariant
                i <= self.inputs@.len(),
                self.inputs@.len() == ins.len(),
                self@.outputs =~= outs.map_values(
                    |p: OutputPinView<V, W>| OutputPinView { links: Seq::empty(), ..p },
                ),
                self@.id == old(self)@.id,
                self@.name == old(self)@.name,
                self@.desc == old(self)@.desc,
                self@.state == old(self)@.state,
                forall|k: int|
                    0 <= k < ins.len() ==> #[trigger] self@.inputs[k] == if k < i {
                        InputPinView { links: Seq::empty(), ..ins[k] }
                    } else {
                        ins[k]
                    },
            decreases self.inputs.len() - i,
        {
            let ghost prev = self.inputs@;
            let ghost head = self@.inputs;
            assert(forall|k: int| 0 <= k < prev.len() ==> head[k] == #[trigger] prev[k]@);
            let mut pin = self.inputs.remove(i);
            pin.links = Vec::new();
            self.inputs.insert(i, pin);
            assert(self.inputs@ =~= prev.update(i as int, self.inputs@[i as int]));
            assert(self@.inputs[i as int].links =~= Seq::empty());
            assert forall|k: int| 0 <= k < ins.len() implies #[trigger] self@.inputs[k] == if k < i + 1 {
                InputPinView { links: Seq::empty(), ..ins[k] }
            } else {
                ins[k]
            } by {
                if k != i {
                    assert(self@.inputs[k] == prev[k]@);
                }
            }
            i += 1;
        }
        assert(self@.inputs =~= ins.map_values(
            |p: InputPinView<V, W>| InputPinView { links: Seq::empty(), ..p },
        ));
    }
}

/// The label of a state.
pub open spec fn state_label(s: BlockStateView) -> Seq<char> {
    match s {
        BlockStateView::Running => "Running"@,
        BlockStateView::Fault(_) => "Fault"@,
        BlockStateView::Terminated => "Terminated"@,
    }
}

/// An input as an inspection shows it.
pub struct InputSnapshot<'a, V> {
    pub name: String,
    pub kind: String,
    pub val: Option<&'a V>,
    pub is_connected: bool,
}

/// An output as an inspection shows it.
pub struct OutputSnapshot<'a, V> {
    pub name: String,
    pub kind: String,
    pub val: &'a V,
}

/// What an inspection of a block shows.
pub struct BlockDefinition<'a, V> {
    pub id: u128,
    pub name: String,
    pub library: String,
    pub inputs: Vec<InputSnapshot<'a, V>>,
    pub outputs: Vec<OutputSnapshot<'a, V>>,
    pub fault_reason: Option<String>,
    pub state: String,
}

/// The snapshot shows the pin as it is.
pub open spec fn input_shown<'a, V, W>(s: InputSnapshot<'a, V>, p: InputPinView<V, W>) -> bool {
    &&& s.name@ == p.name
    &&& s.kind@ == p.kind
    &&& s.is_connected == (p.connection_count > 0)
    &&& match s.val {
        Some(v) => p.value == Some(*v),
        None => p.value is None,
    }
}

/// The snapshot shows the pin as it is.
pub open spec fn output_shown<'a, V, W>(s: OutputSnapshot<'a, V>, p: OutputPinView<V, W>) -> bool {
    s.name@ == p.name && s.kind@ == p.kind && *s.val == p.value
}

/// Inspection snapshot of a block: identity, state, and every pin with its
/// current value.
pub fn snapshot_block_definition<'a, V, W>(block: &'a BlockPins<V, W>) -> (d: BlockDefinition<'a, V>)
    ensures
        d.id == block@.id,
        d.name@ == block@.name,
        d.library@ == block@.desc.library,
        d.state@ == state_label(block@.state),
        match block@.state {
            BlockStateView::Fault(reason) => d.fault_reason matches Some(r) && r@ == reason,
            _ => d.fault_reason is None,
        },
        d.inputs@.len() == block@.inputs.len(),
        forall|i: int| 0 <= i < d.inputs@.len() ==> input_shown(#[trigger] d.inputs@[i], block@.inputs[i]),
        d.outputs@.len() == block@.outputs.len(),
        forall|i: int|
            0 <= i < d.outputs@.len() ==> output_shown(#[trigger] d.outputs@[i], block@.outputs[i]),
{
    let mut inputs: Vec<InputSnapshot<'a, V>> = Vec::new();
    let mut i: usize = 0;
    while i < block.inputs.len()
        invariant
            i <= block.inputs@.len(),
            inputs@.len() == i,
            forall|k: int| 0 <= k < i ==> input_shown(#[trigger] inputs@[k], block@.inputs[k]),
        decreases block.inputs.len() - i,
    {
        let pin = &block.inputs[i];
        let val = match &pin.value {
            Some(v) => Some(v),
            None => None,
        };
        inputs.push(
            InputSnapshot {
                name: pin.name.clone(),
                kind: pin.kind.clone(),
                val,
                is_connected: pin.connection_count > 0,
            },
        );
        assert(block@.inputs[i as int] == pin@);
        i += 1;
    }
    let mut outputs: Vec<OutputSnapshot<'a, V>> = Vec::new();
    let mut i: usize = 0;
    while i < block.outputs.len()
        invariant
            i <= block.outputs@.len(),
            outputs@.len() == i,
            forall|k: int| 0 <= k < i ==> output_shown(#[trigger] outputs@[k], block@.outputs[k]),
        decreases block.outputs.len() - i,
    {
        let pin = &block.outputs[i];
        outputs.push(OutputSnapshot { name: pin.name.clone(), kind: pin.kind.clone(), val: &pin.value });
        assert(block@.outputs[i as int] == pin@);
        i += 1;
    }
    let (fault_reason, state) = match &block.state {
        BlockState::Running => (None, String::from_str("Running")),
        BlockState::Fault(reason) => (Some(reason.clone()), String::from_str("Fault")),
        BlockState::Terminated => (None, String::from_str("Terminated")),
    };
    BlockDefinition {
        id: block.id,
        name: block.name.clone(),
        library: block.desc.library.clone(),
        inputs,
        outputs,
        fault_reason,
        state,
    }
}

/// Program snapshot of a block: its identity and the records of all its
/// links (outputs' links first, then inputs' links).
pub fn snapshot_block_data<V, W>(block: &BlockPins<V, W>) -> (r: (BlockData, Vec<LinkRecord>))
    ensures
        r.0@ == (BlockDataView {
            id: block@.id,
            name: block@.name,
            dis: block@.desc.dis,
            lib: block@.desc.library,
            category: block@.desc.category,
            ver: block@.desc.ver,
        }),
        r.1@.map_values(|l: LinkRecord| l@) == link_records(block@).map_values(
            |e: (Seq<char>, LinkView<W>)| record_of(block@.id, e.0, e.1),
        ),
{
    let data = BlockData {
        id: block.id,
        name: block.name.clone(),
        dis: block.desc.dis.clone(),
        lib: block.desc.library.clone(),
        category: block.desc.category.clone(),
        ver: block.desc.ver.clone(),
    };
    let table = block.link_table();
    let ghost all = table_views(table@);
    let mut links: Vec<LinkRecord> = Vec::new();
    let mut k: usize = 0;
    while k < table.len()
        invariant
            k <= table@.len(),
            all == table_views(table@),
            links@.map_values(|l: LinkRecord| l@) == all.subrange(0, k as int).map_values(
                |e: (Seq<char>, LinkView<W>)| record_of(block@.id, e.0, e.1),
            ),
        decreases table.len() - k,
    {
        let (pin, link) = table[k];
        assert(all[k as int] == (pin@, link@));
        let ghost prev = links@.map_values(|l: LinkRecord| l@);
        links.push(
            LinkRecord {
                id: link.id,
                source_block_pin_name: String::from_str(pin),
                source_block_uuid: block.id,
                target_block_pin_name: link.target_input.clone(),
                target_block_uuid: link.target_block_id,
            },
        );
        assert(links@.map_values(|l: LinkRecord| l@) =~= prev.push(record_of(block@.id, pin@, link@)));
        assert(all.subrange(0, k + 1).map_values(
            |e: (Seq<char>, LinkView<W>)| record_of(block@.id, e.0, e.1),
        ) =~= all.subrange(0, k as int).map_values(
            |e: (Seq<char>, LinkView<W>)| record_of(block@.id, e.0, e.1),
        ).push(record_of(block@.id, pin@, link@)));
        k += 1;
    }
    assert(all.subrange(0, k as int) =~= all);
    (data, links)
}

/// A fresh input for the descriptor's pin: no links, no connection, no
/// value, good status.
pub open spec fn fresh_input<V, W>(d: PinDescView) -> InputPinView<V, W> {
    InputPinView {
        name: d.name,
        kind: d.kind,
        connection_count: 0,
        value: None,
        status: Status::Good,
        links: Seq::empty(),
    }
}

/// A fresh output for the descriptor's pin, holding a copy of `blank`: no
/// links, good status.
pub open spec fn fresh_output<V: Clone, W>(p: OutputPinView<V, W>, d: PinDescView, blank: V) -> bool {
    &&& p.name == d.name
    &&& p.kind == d.kind
    &&& p.effective_status == Status::Good
    &&& p.links == Seq::<LinkView<W>>::empty()
    &&& cloned(blank, p.value)
}

impl<V: Clone, W> BlockPins<V, W> {
    /// A new, running block of the kind `entry` registers, with id `id`:
    /// one pin per pin of its descriptor, nothing linked or connected, the
    /// inputs empty and each output holding a copy of `blank`.
    pub fn instantiate(entry: &BlockEntry, id: u128, blank: &V) -> (b: Self)
        ensures
            b@.id == id,
            b@.name == entry@.desc.name,
            b@.desc == entry@.desc,
            b@.state == BlockStateView::Running,
            b@.inputs.len() == entry@.desc.inputs.len(),
            forall|i: int|
                0 <= i < b@.inputs.len() ==> #[trigger] b@.inputs[i] == fresh_input::<V, W>(
                    entry@.desc.inputs[i],
                ),
            b@.outputs.len() == entry@.desc.outputs.len(),
            forall|i: int|
                0 <= i < b@.outputs.len() ==> fresh_output(#[trigger] b@.outputs[i], entry@.desc.outputs[i], *blank),
    {
        let desc = entry.desc.duplicate();
        let ghost dv = desc@;
        let mut inputs: Vec<InputPin<V, W>> = Vec::new();
        let mut i: usize = 0;
        while i < desc.inputs.len()
            invariant
                dv == desc@,
                i <= desc.inputs@.len(),
                inputs@.len() == i,
                forall|k: int| 0 <= k < i ==> #[trigger] inputs@[k]@ == fresh_input::<V, W>(dv.inputs[k]),
            decreases desc.inputs.len() - i,
        {
            let p = &desc.inputs[i];
            assert(dv.inputs[i as int] == p@);
            let pin = InputPin {
                name: p.name.clone(),
                kind: p.kind.clone(),
                connection_count: 0,
                value: None,
                status: Status::Good,
                links: Vec::new(),
            };
            assert(pin@.links =~= Seq::<LinkView<W>>::empty());
            inputs.push(pin);
            i += 1;
        }
        let mut outputs: Vec<OutputPin<V, W>> = Vec::new();
        let mut i: usize = 0;
        while i < desc.outputs.len()
            invariant
                dv == desc@,
                i <= desc.outputs@.len(),
                outputs@.len() == i,
                forall|k: int| 0 <= k < i ==> fresh_output(#[trigger] outputs@[k]@, dv.outputs[k], *blank),
            decreases desc.outputs.len() - i,
        {
            let p = &desc.outputs[i];
            assert(dv.outputs[i as int] == p@);
            let pin = OutputPin {
                name: p.name.clone(),
                kind: p.kind.clone(),
                value: blank.clone(),
                effective_status: Status::Good,
                links: Vec::new(),
            };
            assert(pin@.links =~= Seq::<LinkView<W>>::empty());
            outputs.push(pin);
            i += 1;
        }
        let name = desc.name.clone();
        let b = BlockPins { id, name, desc, state: BlockState::Running, inputs, outputs };
        assert(forall|k: int| 0 <= k < b@.inputs.len() ==> b@.inputs[k] == b.inputs@[k]@);
        assert(forall|k: int| 0 <= k < b@.outputs.len() ==> b@.outputs[k] == b.outputs@[k]@);
        b
    }
}

impl<V, W> BlockPins<V, W> {
    /// Stores a value drained from input `i`'s channel, with the status its
    /// producer sent.
    pub fn deliver_input(&mut self, i: usize, value: V, status: Status)
        requires
            i < old(self)@.inputs.len(),
        ensures
            final(self)@ == (BlockPinsView {
                inputs: old(self)@.inputs.update(
                    i as int,
                    InputPinView { value: Some(value), status, ..old(self)@.inputs[i as int] },
                ),
                ..old(self)@
            }),
    {
        let mut pin = self.inputs.remove(i);
        pin.value = Some(value);
        pin.status = status;
        self.inputs.insert(i, pin);
        assert(self@.inputs =~= old(self)@.inputs.update(
            i as int,
            InputPinView { value: Some(value), status, ..old(self)@.inputs[i as int] },
        ));
    }
}

/// The input as a one-off evaluation feeds it: one more connection
/// (saturating) and the value, with a good status.
pub open spec fn input_fed<V, W>(p: InputPinView<V, W>, value: V) -> InputPinView<V, W> {
    InputPinView {
        connection_count: if p.connection_count == usize::MAX {
            p.connection_count
        } else {
            (p.connection_count + 1) as usize
        },
        value: Some(value),
        status: Status::Good,
        ..p
    }
}

impl<V, W> BlockPins<V, W> {
    /// Feeds `values` to the inputs in order, for a one-off evaluation of
    /// the block: input `i` takes `values[i]`. When more values are given
    /// than the block has inputs, every input is fed and the call fails.
    pub fn feed_inputs(&mut self, values: Vec<V>) -> (r: Result<(), crate::registry::RegistryError>)
        ensures
            values@.len() > old(self)@.inputs.len() ==> (r matches Err(e) && e@
                == (crate::registry::RegistryErrorView::TooManyInputs {
                declared: old(self)@.inputs.len() as usize,
                supplied: values@.len() as usize,
            })),
            values@.len() <= old(self)@.inputs.len() ==> r is Ok,
            final(self)@ == (BlockPinsView {
                inputs: Seq::new(
                    old(self)@.inputs.len(),
                    |i: int|
                        if i < values@.len() {
                            input_fed(old(self)@.inputs[i], values@[i])
                        } else {
                            old(self)@.inputs[i]
                        },
                ),
                ..old(self)@
            }),
    {
        let supplied = values.len();
        let ghost ins = old(self)@.inputs;
        let ghost vals = values@;
        let n = self.inputs.len();
        let mut rest = values;
        let mut i: usize = 0;
        while rest.len() > 0 && i < n
            invariant
                ins.len() == n,
                supplied == vals.len(),
                i + rest@.len() == vals.len(),
                i <= n,
                rest@ == vals.subrange(i as int, vals.len() as int),
                self.inputs@.len() == ins.len(),
                self@.id == old(self)@.id,
                self@.name == old(self)@.name,
                self@.desc == old(self)@.desc,
                self@.state == old(self)@.state,
                self@.outputs == old(self)@.outputs,
                forall|k: int|
                    0 <= k < ins.len() ==> #[trigger] self@.inputs[k] == if k < i {
                        input_fed(ins[k], vals[k])
                    } else {
                        ins[k]
                    },
            decreases rest.len(),
        {
            let v = rest.remove(0);
            assert(v == vals[i as int]);
            assert(rest@ =~= vals.subrange(i + 1, vals.len() as int));
            let ghost prev = self@.inputs;
            assert(prev[i as int] == ins[i as int]);
            let mut pin = self.inputs.remove(i);
            if pin.connection_count < usize::MAX {
                pin.connection_count = pin.connection_count + 1;
            }
            pin.value = Some(v);
            pin.status = Status::Good;
            self.inputs.insert(i, pin);
            assert(self@.inputs =~= prev.update(i as int, input_fed(prev[i as int], v)));
            assert forall|k: int| 0 <= k < ins.len() implies #[trigger] self@.inputs[k] == if k < i + 1 {
                input_fed(ins[k], vals[k])
            } else {
                ins[k]
            } by {
                if k != i {
                    assert(self@.inputs[k] == prev[k]);
                }
            }
            i += 1;
        }
        assert(self@.inputs =~= Seq::new(
            ins.len(),
            |k: int|
                if k < vals.len() {
                    input_fed(ins[k], vals[k])
                } else {
                    ins[k]
                },
        ));
        if supplied > n {
            return Err(crate::registry::RegistryError::TooManyInputs { declared: n, supplied });
        }
        Ok(())
    }
}

/// After a cycle in state `current` (the previous one ended in
/// `previous`): while faulted every output emits with a fault status, and
/// on recovery every output emits with a good status again. Returns the
/// status the outputs now emit with, or `None` when nothing changes.
pub fn propagate_status<V, W>(current: &BlockState, previous: &BlockState, block: &mut BlockPins<V, W>) -> (r: Option<Status>)
    ensures
        r == if current@ is Fault {
            Some(Status::Fault)
        } else if previous@ is Fault {
            Some(Status::Good)
        } else {
            None::<Status>
        },
        match r {
            Some(st) => final(block)@ == (BlockPinsView {
                outputs: old(block)@.outputs.map_values(
                    |p: OutputPinView<V, W>| output_with_status(p, st),
                ),
                ..old(block)@
            }),
            None => final(block)@ == old(block)@,
        },
{
    let status = if current.is_fault() {
        Status::Fault
    } else if previous.is_fault() {
        Status::Good
    } else {
        return None;
    };
    let ghost outs = old(block)@.outputs;
    let mut i: usize = 0;
    while i < block.outputs.len()
        invariant
            i <= block.outputs@.len(),
            block.outputs@.len() == outs.len(),
            block@.inputs == old(block)@.inputs,
            block@.id == old(block)@.id,
            block@.name == old(block)@.name,
            block@.desc == old(block)@.desc,
            block@.state == old(block)@.state,
            forall|k: int|
                0 <= k < outs.len() ==> #[trigger] block@.outputs[k] == if k < i {
                    output_with_status(outs[k], status)
                } else {
                    outs[k]
                },
        decreases block.outputs.len() - i,
    {
        let ghost prev = block.outputs@;
        let ghost head = block@.outputs;
        assert(forall|k: int| 0 <= k < prev.len() ==> head[k] == #[trigger] prev[k]@);
        let mut pin = block.outputs.remove(i);
        pin.effective_status = status;
        block.outputs.insert(i, pin);
        assert(block.outputs@ =~= prev.update(i as int, block.outputs@[i as int]));
        assert forall|k: int| 0 <= k < outs.len() implies #[trigger] block@.outputs[k] == if k < i + 1 {
            output_with_status(outs[k], status)
        } else {
            outs[k]
        } by {
            if k != i {
                assert(block@.outputs[k] == prev[k]@);
            } else {
                assert(head[k] == outs[k]);
            }
        }
        i += 1;
    }
    assert(block@.outputs =~= outs.map_values(|p: OutputPinView<V, W>| output_with_status(p, status)));
    Some(status)
}

} // verus!
