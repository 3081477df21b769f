//! The engine's table of scheduled blocks and the checks it makes before a
//! link is queued. Mailboxes, tasks and the wiring round-trips belong to the
//! engine itself; the table keeps each block's identity, descriptor and UI
//! metadata, in block-id order.

use vstd::prelude::*;

use crate::desc::{BlockDesc, BlockDescView, pins_have};
use crate::ids::{format_id, new_id, parse_id, uuid_parse};
use crate::pins::InputSnapshot;
use crate::text::str_equal;

verus! {

/// Which end of a link an error is about.
#[derive(Clone, Copy, Debug, PartialEq, Eq, Structural)]
pub enum LinkEnd {
    Source,
    Target,
}

/// What an engine operation can fail with.
#[derive(Debug)]
pub enum EngineError {
    /// The text is not a block id.
    InvalidBlockId { text: String },
    /// No block with this id is scheduled.
    BlockInstanceNotFound { id: u128 },
    /// The block at one end of a link has no such pin.
    PinNotFound { end: LinkEnd, block: u128, pin: String },
    /// The block refused the request, with its reason.
    BlockRequestRejected(String),
    /// The block's task is gone.
    BlockTaskGone { id: u128 },
    /// The block dropped its reply.
    BlockDroppedReply { id: u128 },
}

pub enum EngineErrorView {
    InvalidBlockId { text: Seq<char> },
    BlockInstanceNotFound { id: u128 },
    PinNotFound { end: LinkEnd, block: u128, pin: Seq<char> },
    BlockRequestRejected(Seq<char>),
    BlockTaskGone { id: u128 },
    BlockDroppedReply { id: u128 },
}

impl View for EngineError {
    type V = EngineErrorView;

    open spec fn view(&self) -> EngineErrorView {
        match self {
            EngineError::InvalidBlockId { text } => EngineErrorView::InvalidBlockId { text: text@ },
            EngineError::BlockInstanceNotFound { id } => EngineErrorView::BlockInstanceNotFound {
                id: *id,
            },
            EngineError::PinNotFound { end, block, pin } => EngineErrorView::PinNotFound {
                end: *end,
                block: *block,
                pin: pin@,
            },
            EngineError::BlockRequestRejected(m) => EngineErrorView::BlockRequestRejected(m@),
            EngineError::BlockTaskGone { id } => EngineErrorView::BlockTaskGone { id: *id },
            EngineError::BlockDroppedReply { id } => EngineErrorView::BlockDroppedReply { id: *id },
        }
    }
}

/// A link between two blocks as programs and requests carry it: block ids
/// as text, pins by name, and the link's own id once it has one.
#[derive(Debug)]
pub struct LinkData {
    pub id: Option<String>,
    pub source_block_uuid: String,
    pub target_block_uuid: String,
    pub source_block_pin_name: String,
    pub target_block_pin_name: String,
}

pub struct LinkDataView {
    pub id: Option<Seq<char>>,
    pub source_block_uuid: Seq<char>,
    pub target_block_uuid: Seq<char>,
    pub source_block_pin_name: Seq<char>,
    pub target_block_pin_name: Seq<char>,
}

impl View for LinkData {
    type V = LinkDataView;

    open spec fn view(&self) -> LinkDataView {
        LinkDataView {
            id: match self.id {
                Some(t) => Some(t@),
                None => None,
            },
            source_block_uuid: self.source_block_uuid@,
            target_block_uuid: self.target_block_uuid@,
            source_block_pin_name: self.source_block_pin_name@,
            target_block_pin_name: self.target_block_pin_name@,
        }
    }
}

/// The engine's record of a scheduled block: its id, type name, library,
/// descriptor, and the UI label and position it round-trips.
pub struct BlockHandle<P> {
    id: u128,
    name: String,
    library: String,
    desc: BlockDesc,
    label: Option<String>,
    position: Option<P>,
}

pub struct BlockHandleView<P> {
    pub id: u128,
    pub name: Seq<char>,
    pub library: Seq<char>,
    pub desc: BlockDescView,
    pub label: Option<Seq<char>>,
    pub position: Option<P>,
}

impl<P> View for BlockHandle<P> {
    type V = BlockHandleView<P>;

    closed spec fn view(&self) -> BlockHandleView<P> {
        BlockHandleView {
            id: self.id,
            name: self.name@,
            library: self.library@,
            desc: self.desc@,
            label: match self.label {
                Some(l) => Some(l@),
                None => None,
            },
            position: self.position,
        }
    }
}

impl<P> BlockHandle<P> {
    /// The record of a block just scheduled: no label, no position.
    pub fn new(id: u128, name: String, library: String, desc: BlockDesc) -> (h: Self)
        ensures
            h@ == (BlockHandleView::<P> {
                id,
                name: name@,
                library: library@,
                desc: desc@,
                label: None,
                position: None,
            }),
    {
        BlockHandle { id, name, library, desc, label: None, position: None }
    }

    /// The block's unique id.
    pub fn id(&self) -> (r: u128)
        ensures
            r == self@.id,
    {
        self.id
    }

    /// The block's type name.
    pub fn name(&self) -> (r: &str)
        ensures
            r@ == self@.name,
    {
        self.name.as_str()
    }

    /// The block's library.
    pub fn library(&self) -> (r: &str)
        ensures
            r@ == self@.library,
    {
        self.library.as_str()
    }

    /// The block's descriptor.
    pub fn desc(&self) -> (r: &BlockDesc)
        ensures
            r@ == self@.desc,
    {
        &self.desc
    }

    /// The display label, if any.
    pub fn label(&self) -> (r: Option<&str>)
        ensures
            match self@.label {
                Some(l) => r matches Some(s) && s@ == l,
                None => r is None,
            },
    {
        match &self.label {
            Some(l) => Some(l.as_str()),
            None => None,
        }
    }

    /// The UI position, if any.
    pub fn position(&self) -> (r: Option<&P>)
        ensures
            match self@.position {
                Some(p) => r == Some(&p),
                None => r is None,
            },
    {
        match &self.position {
            Some(p) => Some(p),
            None => None,
        }
    }
}

/// Ids strictly increase along the sequence.
pub open spec fn ids_increasing<P>(s: Seq<BlockHandleView<P>>) -> bool {
    forall|i: int, j: int| 0 <= i < j < s.len() ==> (#[trigger] s[i]).id < (#[trigger] s[j]).id
}

/// The handles of a sequence, by id.
pub open spec fn handle_map<P>(s: Seq<BlockHandleView<P>>) -> Map<u128, BlockHandleView<P>> {
    Map::new(
        |id: u128| exists|i: int| 0 <= i < s.len() && (#[trigger] s[i]).id == id,
        |id: u128| s[choose|i: int| 0 <= i < s.len() && (#[trigger] s[i]).id == id],
    )
}

proof fn lemma_map_at<P>(s: Seq<BlockHandleView<P>>, i: int)
    requires
        ids_increasing(s),
        0 <= i < s.len(),
    ensures
        handle_map(s).dom().contains(s[i].id),
        handle_map(s)[s[i].id] == s[i],
{
    let id = s[i].id;
    assert(handle_map(s).dom().contains(id));
    let k = choose|k: int| 0 <= k < s.len() && (#[trigger] s[k]).id == id;
    if k < i {
        assert(s[k].id < s[i].id);
    } else if i < k {
        assert(s[i].id < s[k].id);
    }
}

proof fn lemma_map_absent<P>(s: Seq<BlockHandleView<P>>, id: u128)
    requires
        forall|i: int| 0 <= i < s.len() ==> (#[trigger] s[i]).id != id,
    ensures
        !handle_map(s).dom().contains(id),
{
}

/// An increasing sequence whose handles are exactly those of `m`, each at
/// its id, maps to `m`.
proof fn lemma_map_same<P>(s: Seq<BlockHandleView<P>>, m: Map<u128, BlockHandleView<P>>)
    requires
        ids_increasing(s),
        forall|i: int| 0 <= i < s.len() ==> m.dom().contains((#[trigger] s[i]).id) && m[s[i].id] == s[i],
        forall|id: u128| #[trigger] m.dom().contains(id) ==> exists|i: int| 0 <= i < s.len() && (#[trigger] s[i]).id == id,
    ensures
        handle_map(s) == m,
{
    assert forall|id: u128| #[trigger] handle_map(s).dom().contains(id) == m.dom().contains(id) by {
        if handle_map(s).dom().contains(id) {
            let i = choose|i: int| 0 <= i < s.len() && (#[trigger] s[i]).id == id;
            assert(m.dom().contains(s[i].id));
        }
    }
    assert forall|id: u128| #[trigger] handle_map(s).dom().contains(id) implies handle_map(s)[id] == m[id] by {
        let i = choose|i: int| 0 <= i < s.len() && (#[trigger] s[i]).id == id;
        lemma_map_at(s, i);
    }
    assert(handle_map(s) =~= m);
}

/// The scheduled blocks, by id.
pub struct BlockTable<P> {
    handles: Vec<BlockHandle<P>>,
}

impl<P> View for BlockTable<P> {
    type V = Map<u128, BlockHandleView<P>>;

    closed spec fn view(&self) -> Map<u128, BlockHandleView<P>> {
        handle_map(self.handles@.map_values(|h: BlockHandle<P>| h@))
    }
}

impl<P> BlockTable<P> {
    spec fn rows(&self) -> Seq<BlockHandleView<P>> {
        self.handles@.map_values(|h: BlockHandle<P>| h@)
    }

    #[verifier::type_invariant]
    spec fn wf(&self) -> bool {
        ids_increasing(self.rows())
    }

    /// An empty table.
    pub fn new() -> (t: Self)
        ensures
            t@ == Map::<u128, BlockHandleView<P>>::empty(),
    {
        let t = BlockTable { handles: Vec::new() };
        assert(t@ =~= Map::<u128, BlockHandleView<P>>::empty());
        t
    }

    /// The first position whose id is at least `id`.
    fn position_of(&self, id: u128) -> (p: usize)
        requires
            ids_increasing(self.rows()),
        ensures
            p <= self.rows().len(),
            forall|k: int| 0 <= k < p ==> (#[trigger] self.rows()[k]).id < id,
            forall|k: int| p <= k < self.rows().len() ==> (#[trigger] self.rows()[k]).id >= id,
    {
        let ghost rows = self.rows();
        let mut p: usize = 0;
        while p < self.handles.len() && self.handles[p].id < id
            invariant
                p <= self.handles@.len(),
                rows == self.rows(),
                ids_increasing(rows),
                forall|k: int| 0 <= k < p ==> (#[trigger] rows[k]).id < id,
            decreases self.handles.len() - p,
        {
            assert(rows[p as int].id == self.handles@[p as int].id);
            p += 1;
        }
        proof {
            if p < rows.len() {
                assert(rows[p as int].id == self.handles@[p as int].id);
                assert forall|k: int| p <= k < rows.len() implies (#[trigger] rows[k]).id >= id by {
                    if k > p {
                        assert(rows[p as int].id < rows[k].id);
                    }
                }
            }
        }
        p
    }

    fn index_of(&self, id: u128) -> (r: Option<usize>)
        ensures
            match r {
                Some(i) => i < self.rows().len() && self.rows()[i as int].id == id && self@.dom().contains(id)
                    && self@[id] == self.rows()[i as int],
                None => !self@.dom().contains(id),
            },
    {
        proof {
            use_type_invariant(self);
        }
        let p = self.position_of(id);
        if p < self.handles.len() && self.handles[p].id == id {
            proof {
                assert(self.rows()[p as int].id == id);
                lemma_map_at(self.rows(), p as int);
            }
            Some(p)
        } else {
            proof {
                if p < self.rows().len() {
                    assert(self.rows()[p as int].id == self.handles@[p as int].id);
                    assert forall|k: int| 0 <= k < self.rows().len() implies (
                    #[trigger] self.rows()[k]).id != id by {
                        if k > p {
                            assert(self.rows()[p as int].id < self.rows()[k].id);
                        }
                    }
                }
                lemma_map_absent(self.rows(), id);
            }
            None
        }
    }

    /// The handle of block `id`, if it is scheduled.
    pub fn block_handle(&self, id: u128) -> (r: Option<&BlockHandle<P>>)
        ensures
            match r {
                Some(h) => self@.dom().contains(id) && h@ == self@[id],
                None => !self@.dom().contains(id),
            },
    {
        match self.index_of(id) {
            Some(i) => Some(&self.handles[i]),
            None => None,
        }
    }

    /// Every handle, in increasing id order.
    pub fn block_handles(&self) -> (r: Vec<&BlockHandle<P>>)
        ensures
            r@.len() == self@.len(),
            forall|i: int, j: int| 0 <= i < j < r@.len() ==> (#[trigger] r@[i])@.id < (#[trigger] r@[j])@.id,
            forall|i: int|
                0 <= i < r@.len() ==> self@.dom().contains((#[trigger] r@[i])@.id) && self@[r@[i]@.id]
                    == r@[i]@,
            forall|id: u128| #[trigger]
                self@.dom().contains(id) ==> exists|i: int| 0 <= i < r@.len() && (#[trigger] r@[i])@.id == id,
    {
        proof {
            use_type_invariant(self);
        }
        let ghost rows = self.rows();
        let mut r: Vec<&BlockHandle<P>> = Vec::new();
        let mut i: usize = 0;
        while i < self.handles.len()
            invariant
                i <= self.handles@.len(),
                rows == self.rows(),
                ids_increasing(rows),
                r@.len() == i,
                forall|k: int| 0 <= k < i ==> (#[trigger] r@[k])@ == rows[k],
            decreases self.handles.len() - i,
        {
            r.push(&self.handles[i]);
            i += 1;
        }
        proof {
            assert forall|a: int, b: int| 0 <= a < b < r@.len() implies (#[trigger] r@[a])@.id < (
            #[trigger] r@[b])@.id by {
                assert(r@[a]@ == rows[a] && r@[b]@ == rows[b]);
            }
            assert forall|k: int| 0 <= k < r@.len() implies self@.dom().contains((#[trigger] r@[k])@.id)
                && self@[r@[k]@.id] == r@[k]@ by {
                lemma_map_at(rows, k);
            }
            assert forall|id: u128| #[trigger] self@.dom().contains(id) implies exists|k: int|
                0 <= k < r@.len() && (#[trigger] r@[k])@.id == id by {
                let k = choose|k: int| 0 <= k < rows.len() && (#[trigger] rows[k]).id == id;
                assert(r@[k]@ == rows[k]);
            }
            assert(rows.len() == self.handles@.len());
            assert(handle_map(rows).dom().finite() && handle_map(rows).len() == rows.len()) by {
                lemma_map_len(rows);
            }
        }
        r
    }

    /// Records a scheduled block; a block already recorded under the same
    /// id is replaced.
    pub fn schedule(&mut self, handle: BlockHandle<P>)
        ensures
            final(self)@ == old(self)@.insert(handle@.id, handle@),
    {
        proof {
            use_type_invariant(&*self);
        }
        let id = handle.id;
        let ghost hv = handle@;
        let p = self.position_of(id);
        let ghost rows = self.rows();
        let ghost before = self@;
        let mut handles = Vec::new();
        std::mem::swap(&mut handles, &mut self.handles);
        if p < handles.len() && handles[p].id == id {
            assert(rows[p as int].id == id);
            handles.set(p, handle);
            let ghost t = handles@.map_values(|h: BlockHandle<P>| h@);
            assert(t =~= rows.update(p as int, hv));
            proof {
                lemma_map_update(rows, p as int, hv);
            }
        } else {
            proof {
                if p < rows.len() {
                    assert(rows[p as int].id == handles@[p as int].id);
                }
            }
            handles.insert(p, handle);
            let ghost t = handles@.map_values(|h: BlockHandle<P>| h@);
            assert(t =~= rows.insert(p as int, hv));
            proof {
                lemma_map_insert(rows, p as int, hv);
            }
        }
        self.handles = handles;
    }

    /// Drops the record of block `id` and returns it.
    pub fn remove(&mut self, id: u128) -> (r: Option<BlockHandle<P>>)
        ensures
            match r {
                Some(h) => old(self)@.dom().contains(id) && h@ == old(self)@[id],
                None => !old(self)@.dom().contains(id),
            },
            final(self)@ == old(self)@.remove(id),
    {
        proof {
            use_type_invariant(&*self);
        }
        match self.index_of(id) {
            Some(i) => {
                let ghost rows = self.rows();
                let mut handles = Vec::new();
                std::mem::swap(&mut handles, &mut self.handles);
                let h = handles.remove(i);
                let ghost t = handles@.map_values(|h: BlockHandle<P>| h@);
                assert(t =~= rows.remove(i as int));
                proof {
                    lemma_map_remove(rows, i as int);
                }
                self.handles = handles;
                Some(h)
            },
            None => {
                assert(self@.remove(id) =~= self@);
                None
            },
        }
    }

    /// Sets the label and the position of block `id`, each only where a new
    /// one is given; an unknown id changes nothing.
    pub fn set_block_metadata(&mut self, id: u128, label: Option<String>, position: Option<P>)
        ensures
            !old(self)@.dom().contains(id) ==> final(self)@ == old(self)@,
            old(self)@.dom().contains(id) ==> final(self)@ == old(self)@.insert(
                id,
                BlockHandleView {
                    label: match label {
                        Some(l) => Some(l@),
                        None => old(self)@[id].label,
                    },
                    position: match position {
                        Some(p) => Some(p),
                        None => old(self)@[id].position,
                    },
                    ..old(self)@[id]
                },
            ),
    {
        proof {
            use_type_invariant(&*self);
        }
        match self.index_of(id) {
            Some(i) => {
                let ghost rows = self.rows();
                let mut handles = Vec::new();
                std::mem::swap(&mut handles, &mut self.handles);
                let mut h = handles.remove(i);
                if let Some(l) = label {
                    h.label = Some(l);
                }
                if let Some(p) = position {
                    h.position = Some(p);
                }
                let ghost hv = h@;
                handles.insert(i, h);
                let ghost t = handles@.map_values(|h: BlockHandle<P>| h@);
                assert(t =~= rows.update(i as int, hv));
                proof {
                    lemma_map_update(rows, i as int, hv);
                }
                self.handles = handles;
            },
            None => {},
        }
    }

    /// The ids of every block but `except`, in increasing order.
    pub fn other_ids(&self, except: u128) -> (r: Vec<u128>)
        ensures
            forall|i: int, j: int| 0 <= i < j < r@.len() ==> r@[i] < r@[j],
            forall|id: u128| #[trigger] r@.contains(id) <==> (self@.dom().contains(id) && id != except),
    {
        proof {
            use_type_invariant(self);
        }
        let ghost rows = self.rows();
        let mut r: Vec<u128> = Vec::new();
        let mut i: usize = 0;
        while i < self.handles.len()
            invariant
                i <= self.handles@.len(),
                rows == self.rows(),
                ids_increasing(rows),
                forall|a: int, b: int| 0 <= a < b < r@.len() ==> r@[a] < r@[b],
                forall|k: int| 0 <= k < r@.len() ==> exists|j: int| 0 <= j < i && (#[trigger] rows[j]).id == #[trigger] r@[k],
                forall|id: u128| #[trigger] r@.contains(id) <==> (exists|j: int|
                    0 <= j < i && (#[trigger] rows[j]).id == id) && id != except,
            decreases self.handles.len() - i,
        {
            let id = self.handles[i].id;
            assert(rows[i as int].id == id);
            if id != except {
                proof {
                    assert forall|k: int| 0 <= k < r@.len() implies r@[k] < id by {
                        let j = choose|j: int| 0 <= j < i && (#[trigger] rows[j]).id == r@[k];
                        assert(rows[j].id < rows[i as int].id);
                    }
                }
                let ghost before = r@;
                r.push(id);
                proof {
                    assert forall|x: u128| #[trigger] r@.contains(x) <==> (exists|j: int|
                        0 <= j < i + 1 && (#[trigger] rows[j]).id == x) && x != except by {
                        if r@.contains(x) && x != id {
                            let k = choose|k: int| 0 <= k < r@.len() && r@[k] == x;
                            assert(before[k] == x);
                            assert(before.contains(x));
                        }
                        if (exists|j: int| 0 <= j < i + 1 && (#[trigger] rows[j]).id == x) && x != except {
                            let j = choose|j: int| 0 <= j < i + 1 && (#[trigger] rows[j]).id == x;
                            if j < i {
                                assert(before.contains(x));
                                let k = choose|k: int| 0 <= k < before.len() && before[k] == x;
                                assert(r@[k] == x);
                            } else {
                                assert(r@[r@.len() - 1] == x);
                            }
                        }
                    }
                    assert forall|k: int| 0 <= k < r@.len() implies exists|j: int|
                        0 <= j < i + 1 && (#[trigger] rows[j]).id == #[trigger] r@[k] by {
                        if k < before.len() {
                            let j = choose|j: int| 0 <= j < i && (#[trigger] rows[j]).id == before[k];
                            assert(rows[j].id == r@[k]);
                        } else {
                            assert(rows[i as int].id == r@[k]);
                        }
                    }
                }
            } else {
                proof {
                    assert forall|x: u128| #[trigger] r@.contains(x) <==> (exists|j: int|
                        0 <= j < i + 1 && (#[trigger] rows[j]).id == x) && x != except by {
                        if (exists|j: int| 0 <= j < i + 1 && (#[trigger] rows[j]).id == x) && x != except {
                            let j = choose|j: int| 0 <= j < i + 1 && (#[trigger] rows[j]).id == x;
                            assert(j < i);
                        }
                    }
                }
            }
            i += 1;
        }
        proof {
            assert forall|id: u128| #[trigger] r@.contains(id) <==> (self@.dom().contains(id) && id
                != except) by {
                if self@.dom().contains(id) {
                    let j = choose|j: int| 0 <= j < rows.len() && (#[trigger] rows[j]).id == id;
                    assert(rows[j].id == id);
                }
            }
        }
        r
    }
}

/// The pin can be the source of a link: an output, or an input (fan-out).
pub open spec fn source_pin_ok(d: BlockDescView, pin: Seq<char>) -> bool {
    pins_have(d.outputs, pin) || pins_have(d.inputs, pin)
}

/// Why a link from pin `source_pin` of block `source` to input `target_pin`
/// of block `target` cannot be queued, or `None` when it can.
pub open spec fn link_fault<P>(
    table: Map<u128, BlockHandleView<P>>,
    source: u128,
    target: u128,
    source_pin: Seq<char>,
    target_pin: Seq<char>,
) -> Option<EngineErrorView> {
    if !table.dom().contains(source) {
        Some(EngineErrorView::BlockInstanceNotFound { id: source })
    } else if !table.dom().contains(target) {
        Some(EngineErrorView::BlockInstanceNotFound { id: target })
    } else if !source_pin_ok(table[source].desc, source_pin) {
        Some(EngineErrorView::PinNotFound { end: LinkEnd::Source, block: source, pin: source_pin })
    } else if !pins_have(table[target].desc.inputs, target_pin) {
        Some(EngineErrorView::PinNotFound { end: LinkEnd::Target, block: target, pin: target_pin })
    } else {
        None
    }
}

/// The ids of both ends of a link, read as UUIDs, or the error for the
/// first that does not read.
pub open spec fn parsed_ends(l: LinkDataView) -> Result<(u128, u128), EngineErrorView> {
    match uuid_parse(l.source_block_uuid) {
        None => Err(EngineErrorView::InvalidBlockId { text: l.source_block_uuid }),
        Some(s) => match uuid_parse(l.target_block_uuid) {
            None => Err(EngineErrorView::InvalidBlockId { text: l.target_block_uuid }),
            Some(t) => Ok((s, t)),
        },
    }
}

/// `queued` is `link` as the engine queues it: the same ends and pins, and
/// an id: the link's own where it has one, else a fresh one that reads as a
/// UUID.
pub open spec fn queued_as(link: LinkDataView, queued: LinkDataView) -> bool {
    &&& queued.source_block_uuid == link.source_block_uuid
    &&& queued.target_block_uuid == link.target_block_uuid
    &&& queued.source_block_pin_name == link.source_block_pin_name
    &&& queued.target_block_pin_name == link.target_block_pin_name
    &&& queued.id is Some
    &&& link.id is Some ==> queued.id == link.id
    &&& link.id is None ==> uuid_parse(queued.id->0) is Some
}

impl LinkData {
    /// A copy of the link.
    pub fn duplicate(&self) -> (l: Self)
        ensures
            l@ == self@,
    {
        LinkData {
            id: match &self.id {
                Some(t) => Some(t.clone()),
                None => None,
            },
            source_block_uuid: self.source_block_uuid.clone(),
            target_block_uuid: self.target_block_uuid.clone(),
            source_block_pin_name: self.source_block_pin_name.clone(),
            target_block_pin_name: self.target_block_pin_name.clone(),
        }
    }
}

impl<P> BlockTable<P> {
    /// Checks that both blocks are scheduled, that the source block has a
    /// pin (output or input) named `source_pin` and that the target block
    /// has an input named `target_pin`.
    pub fn check_link(&self, source: u128, target: u128, source_pin: &str, target_pin: &str) -> (r: Result<(), EngineError>)
        ensures
            match link_fault(self@, source, target, source_pin@, target_pin@) {
                Some(e) => r matches Err(x) && x@ == e,
                None => r is Ok,
            },
            r is Ok ==> self@.dom().contains(source) && self@.dom().contains(target),
            !self@.dom().contains(source) ==> (r matches Err(x) && x@ == (EngineErrorView::BlockInstanceNotFound {
                id: source,
            })),
            self@.dom().contains(source) && !self@.dom().contains(target) ==> (r matches Err(x) && x@
                == (EngineErrorView::BlockInstanceNotFound { id: target })),
    {
        let s = match self.block_handle(source) {
            Some(h) => h,
            None => {
                return Err(EngineError::BlockInstanceNotFound { id: source });
            },
        };
        let t = match self.block_handle(target) {
            Some(h) => h,
            None => {
                return Err(EngineError::BlockInstanceNotFound { id: target });
            },
        };
        let sd = s.desc();
        if !sd.has_output(source_pin) && !sd.has_input(source_pin) {
            return Err(
                EngineError::PinNotFound {
                    end: LinkEnd::Source,
                    block: source,
                    pin: String::from_str(source_pin),
                },
            );
        }
        if !t.desc().has_input(target_pin) {
            return Err(
                EngineError::PinNotFound {
                    end: LinkEnd::Target,
                    block: target,
                    pin: String::from_str(target_pin),
                },
            );
        }
        Ok(())
    }

    /// Validates a link while the engine is being configured and queues it
    /// for wiring when the engine runs: both ids must read as UUIDs, both
    /// blocks be scheduled and both pins exist. A link without an id gets
    /// a fresh one. The queued link is returned; a refused link leaves the
    /// queue as it was.
    pub fn connect_blocks_sync(&self, pending: &mut Vec<LinkData>, link: &LinkData) -> (r: Result<LinkData, EngineError>)
        ensures
            match parsed_ends(link@) {
                Err(e) => r matches Err(x) && x@ == e && final(pending)@ == old(pending)@,
                Ok(ends) => match link_fault(
                    self@,
                    ends.0,
                    ends.1,
                    link@.source_block_pin_name,
                    link@.target_block_pin_name,
                ) {
                    Some(e) => r matches Err(x) && x@ == e && final(pending)@ == old(pending)@,
                    None => r matches Ok(l) && queued_as(link@, l@) && final(pending)@.len() == old(
                        pending,
                    )@.len() + 1 && final(pending)@.drop_last() == old(pending)@ && final(pending)@.last()@
                        == l@,
                },
            },
            r is Err ==> final(pending)@ == old(pending)@,
            r is Ok ==> parsed_ends(link@) is Ok && self@.dom().contains(parsed_ends(link@)->Ok_0.0)
                && self@.dom().contains(parsed_ends(link@)->Ok_0.1),
    {
        let source = match parse_id(link.source_block_uuid.as_str()) {
            Some(id) => id,
            None => {
                return Err(EngineError::InvalidBlockId { text: link.source_block_uuid.clone() });
            },
        };
        let target = match parse_id(link.target_block_uuid.as_str()) {
            Some(id) => id,
            None => {
                return Err(EngineError::InvalidBlockId { text: link.target_block_uuid.clone() });
            },
        };
        match self.check_link(
            source,
            target,
            link.source_block_pin_name.as_str(),
            link.target_block_pin_name.as_str(),
        ) {
            Err(e) => {
                return Err(e);
            },
            Ok(()) => {},
        }
        let id = match &link.id {
            Some(t) => t.clone(),
            None => format_id(new_id()),
        };
        let mut queued = link.duplicate();
        queued.id = Some(id);
        let answer = queued.duplicate();
        pending.push(queued);
        assert(pending@.drop_last() =~= old(pending)@);
        Ok(answer)
    }
}

/// The first input other than `ignore` that is connected, by position.
pub open spec fn refresh_candidate<'a, V>(inputs: Seq<InputSnapshot<'a, V>>, ignore: Seq<char>, i: int) -> bool {
    0 <= i < inputs.len() && inputs[i].name@ != ignore && inputs[i].is_connected
}

/// After a new link into input `ignore` of a block: which other connected
/// input to re-send so the block runs again with the new value (the first
/// one), or `None` when there is none.
pub fn input_to_refresh<'a, V>(inputs: &Vec<InputSnapshot<'a, V>>, ignore: &str) -> (r: Option<usize>)
    ensures
        match r {
            Some(i) => refresh_candidate(inputs@, ignore@, i as int) && forall|k: int|
                0 <= k < i ==> !refresh_candidate(inputs@, ignore@, k),
            None => forall|k: int| 0 <= k < inputs@.len() ==> !refresh_candidate(inputs@, ignore@, k),
        },
{
    let mut i: usize = 0;
    while i < inputs.len()
        invariant
            i <= inputs@.len(),
            forall|k: int| 0 <= k < i ==> !refresh_candidate(inputs@, ignore@, k),
        decreases inputs.len() - i,
    {
        if inputs[i].is_connected && !str_equal(inputs[i].name.as_str(), ignore) {
            return Some(i);
        }
        i += 1;
    }
    None
}

proof fn lemma_map_len<P>(s: Seq<BlockHandleView<P>>)
    requires
        ids_increasing(s),
    ensures
        handle_map(s).dom().finite(),
        handle_map(s).len() == s.len(),
    decreases s.len(),
{
    if s.len() == 0 {
        assert(handle_map(s).dom() =~= Set::<u128>::empty());
    } else {
        let t = s.drop_last();
        lemma_map_len(t);
        assert(handle_map(s).dom() =~= handle_map(t).dom().insert(s.last().id)) by {
            assert forall|id: u128| #[trigger] handle_map(s).dom().contains(id) implies handle_map(
                t,
            ).dom().insert(s.last().id).contains(id) by {
                let i = choose|i: int| 0 <= i < s.len() && (#[trigger] s[i]).id == id;
                if i < s.len() - 1 {
                    assert(t[i].id == id);
                }
            }
            assert forall|id: u128| #[trigger] handle_map(t).dom().contains(id) implies handle_map(
                s,
            ).dom().contains(id) by {
                let i = choose|i: int| 0 <= i < t.len() && (#[trigger] t[i]).id == id;
                assert(s[i].id == id);
            }
            assert(s[s.len() - 1].id == s.last().id);
        }
        assert(!handle_map(t).dom().contains(s.last().id)) by {
            assert forall|i: int| 0 <= i < t.len() implies (#[trigger] t[i]).id != s.last().id by {
                assert(s[i].id < s[s.len() - 1].id);
            }
        }
    }
}

proof fn lemma_map_update<P>(s: Seq<BlockHandleView<P>>, k: int, h: BlockHandleView<P>)
    requires
        ids_increasing(s),
        0 <= k < s.len(),
        s[k].id == h.id,
    ensures
        ids_increasing(s.update(k, h)),
        handle_map(s.update(k, h)) == handle_map(s).insert(h.id, h),
{
    let t = s.update(k, h);
    assert forall|i: int, j: int| 0 <= i < j < t.len() implies (#[trigger] t[i]).id < (#[trigger] t[j]).id by {
        assert(s[i].id < s[j].id);
    }
    let m = handle_map(s).insert(h.id, h);
    assert forall|i: int| 0 <= i < t.len() implies m.dom().contains((#[trigger] t[i]).id) && m[t[i].id] == t[i] by {
        lemma_map_at(s, i);
        if i != k {
            assert(s[i].id != s[k].id) by {
                if i < k {
                    assert(s[i].id < s[k].id);
                } else {
                    assert(s[k].id < s[i].id);
                }
            }
        }
    }
    assert forall|id: u128| #[trigger] m.dom().contains(id) implies exists|i: int| 0 <= i < t.len() && (#[trigger] t[i]).id == id by {
        if id == h.id {
            assert(t[k].id == id);
        } else {
            let i = choose|i: int| 0 <= i < s.len() && (#[trigger] s[i]).id == id;
            assert(t[i].id == id);
        }
    }
    lemma_map_same(t, m);
}

proof fn lemma_map_insert<P>(s: Seq<BlockHandleView<P>>, k: int, h: BlockHandleView<P>)
    requires
        ids_increasing(s),
        0 <= k <= s.len(),
        forall|i: int| 0 <= i < k ==> (#[trigger] s[i]).id < h.id,
        forall|i: int| k <= i < s.len() ==> (#[trigger] s[i]).id > h.id,
    ensures
        ids_increasing(s.insert(k, h)),
        handle_map(s.insert(k, h)) == handle_map(s).insert(h.id, h),
{
    let t = s.insert(k, h);
    assert forall|i: int, j: int| 0 <= i < j < t.len() implies (#[trigger] t[i]).id < (#[trigger] t[j]).id by {
        if j < k {
            assert(s[i].id < s[j].id);
        } else if j == k {
            assert(s[i].id < h.id);
        } else if i < k {
            assert(s[i].id < s[j - 1].id || i == j - 1);
        } else if i == k {
            assert(s[j - 1].id > h.id);
        } else {
            assert(s[i - 1].id < s[j - 1].id);
        }
    }
    let m = handle_map(s).insert(h.id, h);
    assert forall|i: int| 0 <= i < t.len() implies m.dom().contains((#[trigger] t[i]).id) && m[t[i].id] == t[i] by {
        if i < k {
            lemma_map_at(s, i);
        } else if i > k {
            lemma_map_at(s, i - 1);
        }
    }
    assert forall|id: u128| #[trigger] m.dom().contains(id) implies exists|i: int| 0 <= i < t.len() && (#[trigger] t[i]).id == id by {
        if id == h.id {
            assert(t[k].id == id);
        } else {
            let i = choose|i: int| 0 <= i < s.len() && (#[trigger] s[i]).id == id;
            if i < k {
                assert(t[i].id == id);
            } else {
                assert(t[i + 1].id == id);
            }
        }
    }
    lemma_map_same(t, m);
}

proof fn lemma_map_remove<P>(s: Seq<BlockHandleView<P>>, k: int)
    requires
        ids_increasing(s),
        0 <= k < s.len(),
    ensures
        ids_increasing(s.remove(k)),
        handle_map(s.remove(k)) == handle_map(s).remove(s[k].id),
{
    let t = s.remove(k);
    assert forall|i: int, j: int| 0 <= i < j < t.len() implies (#[trigger] t[i]).id < (#[trigger] t[j]).id by {
        if j < k {
            assert(s[i].id < s[j].id);
        } else if i < k {
            assert(s[i].id < s[j + 1].id);
        } else {
            assert(s[i + 1].id < s[j + 1].id);
        }
    }
    let m = handle_map(s).remove(s[k].id);
    assert forall|i: int| 0 <= i < t.len() implies m.dom().contains((#[trigger] t[i]).id) && m[t[i].id] == t[i] by {
        if i < k {
            lemma_map_at(s, i);
            assert(s[i].id < s[k].id);
        } else {
            lemma_map_at(s, i + 1);
            assert(s[k].id < s[i + 1].id);
        }
    }
    assert forall|id: u128| #[trigger] m.dom().contains(id) implies exists|i: int| 0 <= i < t.len() && (#[trigger] t[i]).id == id by {
        let i = choose|i: int| 0 <= i < s.len() && (#[trigger] s[i]).id == id;
        assert(i != k);
        if i < k {
            assert(t[i].id == id);
        } else {
            assert(t[i - 1].id == id);
        }
    }
    lemma_map_same(t, m);
}

} // verus!
