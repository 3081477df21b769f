//! Block registry: the descriptors of the block kinds the engine knows,
//! grouped by library, and name resolution over them.

use vstd::prelude::*;

use crate::desc::{BlockDesc, BlockDescView, RegisterableBlock, core_lib};
use crate::text::{
    decimal_text, lemma_lex_asymmetric, lemma_lex_irreflexive, lemma_lex_total,
    lemma_lex_transitive, lex_lt, push_decimal, str_equal, str_lex_lt,
};

verus! {

/// A registered block kind: its descriptor, and whether the registry can
/// also build instances of it (kinds registered from a type can; kinds
/// registered from a bare descriptor cannot).
#[derive(Debug)]
pub struct BlockEntry {
    pub desc: BlockDesc,
    pub constructible: bool,
}

pub struct BlockEntryView {
    pub desc: BlockDescView,
    pub constructible: bool,
}

impl View for BlockEntry {
    type V = BlockEntryView;

    open spec fn view(&self) -> BlockEntryView {
        BlockEntryView { desc: self.desc@, constructible: self.constructible }
    }
}

impl BlockEntry {
    /// A copy of the entry.
    pub fn duplicate(&self) -> (e: Self)
        ensures
            e@ == self@,
    {
        BlockEntry { desc: self.desc.duplicate(), constructible: self.constructible }
    }
}

/// Why a registry operation failed.
#[derive(Debug)]
pub enum RegistryError {
    /// A block with this name is already registered in this library.
    BlockAlreadyRegistered { library: String, name: String },
    /// The library has no constructible block of this name.
    BlockNotFound { library: String, name: String },
    /// No library has a constructible block of this name.
    BlockNotRegistered { name: String },
    /// Several libraries have a constructible block of this name; they are
    /// listed in sorted order.
    AmbiguousBlockName { name: String, libraries: Vec<String> },
    /// More input values were supplied than the block has inputs.
    TooManyInputs { declared: usize, supplied: usize },
}

pub enum RegistryErrorView {
    BlockAlreadyRegistered { library: Seq<char>, name: Seq<char> },
    BlockNotFound { library: Seq<char>, name: Seq<char> },
    BlockNotRegistered { name: Seq<char> },
    AmbiguousBlockName { name: Seq<char>, libraries: Seq<Seq<char>> },
    TooManyInputs { declared: usize, supplied: usize },
}

/// The views of a list of strings.
pub open spec fn string_views(v: Seq<String>) -> Seq<Seq<char>> {
    v.map_values(|s: String| s@)
}

impl View for RegistryError {
    type V = RegistryErrorView;

    open spec fn view(&self) -> RegistryErrorView {
        match self {
            RegistryError::BlockAlreadyRegistered { library, name } => {
                RegistryErrorView::BlockAlreadyRegistered { library: library@, name: name@ }
            },
            RegistryError::BlockNotFound { library, name } => RegistryErrorView::BlockNotFound {
                library: library@,
                name: name@,
            },
            RegistryError::BlockNotRegistered { name } => RegistryErrorView::BlockNotRegistered {
                name: name@,
            },
            RegistryError::AmbiguousBlockName { name, libraries } => {
                RegistryErrorView::AmbiguousBlockName {
                    name: name@,
                    libraries: string_views(libraries@),
                }
            },
            RegistryError::TooManyInputs { declared, supplied } => {
                RegistryErrorView::TooManyInputs { declared: *declared, supplied: *supplied }
            },
        }
    }
}

/// `'a', 'b', 'c'`: the names, each quoted, separated by `", "`.
pub open spec fn quoted_list(names: Seq<Seq<char>>) -> Seq<char>
    decreases names.len(),
{
    if names.len() == 0 {
        seq![]
    } else if names.len() == 1 {
        "'"@ + names[0] + "'"@
    } else {
        quoted_list(names.drop_last()) + ", '"@ + names.last() + "'"@
    }
}

/// The text of an error.
pub open spec fn error_message(e: RegistryErrorView) -> Seq<char> {
    match e {
        RegistryErrorView::BlockAlreadyRegistered { library, name } => "Block '"@ + name
            + "' is already registered in library '"@ + library + "'"@,
        RegistryErrorView::BlockNotFound { library, name } => "Block '"@ + name
            + "' not found in library '"@ + library + "'"@,
        RegistryErrorView::BlockNotRegistered { name } => "Block '"@ + name
            + "' is not registered"@,
        RegistryErrorView::AmbiguousBlockName { name, libraries } => "Block name '"@ + name
            + "' is ambiguous across libraries: "@ + quoted_list(libraries),
        RegistryErrorView::TooManyInputs { declared, supplied } => "Too many inputs: the block declares "@
            + decimal_text(declared as nat) + ", "@ + decimal_text(supplied as nat)
            + " were supplied"@,
    }
}

impl RegistryError {
    /// The error's text.
    pub fn to_string(&self) -> (s: String)
        ensures
            s@ == error_message(self@),
    {
        let mut s = String::new();
        proof {
            reveal_strlit("Block '");
            reveal_strlit("' is already registered in library '");
            reveal_strlit("'");
            reveal_strlit("' not found in library '");
            reveal_strlit("' is not registered");
            reveal_strlit("Block name '");
            reveal_strlit("' is ambiguous across libraries: ");
            reveal_strlit("Too many inputs: the block declares ");
            reveal_strlit(", ");
            reveal_strlit(" were supplied");
        }
        match self {
            RegistryError::BlockAlreadyRegistered { library, name } => {
                s.append("Block '");
                s.append(name.as_str());
                s.append("' is already registered in library '");
                s.append(library.as_str());
                s.append("'");
            },
            RegistryError::BlockNotFound { library, name } => {
                s.append("Block '");
                s.append(name.as_str());
                s.append("' not found in library '");
                s.append(library.as_str());
                s.append("'");
            },
            RegistryError::BlockNotRegistered { name } => {
                s.append("Block '");
                s.append(name.as_str());
                s.append("' is not registered");
            },
            RegistryError::AmbiguousBlockName { name, libraries } => {
                s.append("Block name '");
                s.append(name.as_str());
                s.append("' is ambiguous across libraries: ");
                push_quoted_list(&mut s, libraries);
            },
            RegistryError::TooManyInputs { declared, supplied } => {
                s.append("Too many inputs: the block declares ");
                push_decimal(&mut s, *declared as u64);
                s.append(", ");
                push_decimal(&mut s, *supplied as u64);
                s.append(" were supplied");
            },
        }
        assert(s@ =~= error_message(self@));
        s
    }
}

/// Appends the quoted, comma-separated names to `out`.
fn push_quoted_list(out: &mut String, names: &Vec<String>)
    ensures
        final(out)@ == old(out)@ + quoted_list(string_views(names@)),
{
    proof {
        reveal_strlit("'");
        reveal_strlit(", '");
    }
    let ghost start = out@;
    let mut i: usize = 0;
    while i < names.len()
        invariant
            i <= names.len(),
            out@ == start + quoted_list(string_views(names@.subrange(0, i as int))),
        decreases names.len() - i,
    {
        let ghost prefix = string_views(names@.subrange(0, i + 1));
        assert(prefix.drop_last() =~= string_views(names@.subrange(0, i as int)));
        assert(prefix.last() == names@[i as int]@);
        if i == 0 {
            out.append("'");
        } else {
            out.append(", '");
        }
        out.append(names[i].as_str());
        out.append("'");
        assert(out@ =~= start + quoted_list(prefix));
        i += 1;
    }
    assert(names@.subrange(0, names.len() as int) =~= names@);
}

/// The entry is the block `name` of library `library`.
pub open spec fn entry_is(e: BlockEntryView, library: Seq<char>, name: Seq<char>) -> bool {
    e.desc.library == library && e.desc.name == name
}

/// Some entry is the block `name` of library `library`.
pub open spec fn is_registered(entries: Seq<BlockEntryView>, library: Seq<char>, name: Seq<char>) -> bool {
    exists|i: int| 0 <= i < entries.len() && entry_is(#[trigger] entries[i], library, name)
}

/// The entry of block `name` in library `library`, if registered.
pub open spec fn lookup(entries: Seq<BlockEntryView>, library: Seq<char>, name: Seq<char>) -> Option<BlockEntryView> {
    if is_registered(entries, library, name) {
        Some(
            entries[choose|i: int|
                0 <= i < entries.len() && entry_is(#[trigger] entries[i], library, name)],
        )
    } else {
        None
    }
}

/// No two entries are the same block of the same library.
pub open spec fn unique_entries(entries: Seq<BlockEntryView>) -> bool {
    forall|i: int, j: int|
        0 <= i < j < entries.len() ==> !entry_is(
            #[trigger] entries[i],
            entries[j].desc.library,
            #[trigger] entries[j].desc.name,
        )
}

/// The constructible entries named `name`, in registration order.
pub open spec fn candidates(entries: Seq<BlockEntryView>, name: Seq<char>) -> Seq<BlockEntryView>
    decreases entries.len(),
{
    if entries.len() == 0 {
        seq![]
    } else {
        let rest = candidates(entries.drop_last(), name);
        let e = entries.last();
        if e.desc.name == name && e.constructible {
            rest.push(e)
        } else {
            rest
        }
    }
}

/// Strictly increasing in lexicographic order.
pub open spec fn strictly_sorted(s: Seq<Seq<char>>) -> bool {
    forall|i: int, j: int| 0 <= i < j < s.len() ==> lex_lt(#[trigger] s[i], #[trigger] s[j])
}

/// The libraries of a list of entries.
pub open spec fn libraries_of(entries: Seq<BlockEntryView>) -> Seq<Seq<char>> {
    entries.map_values(|e: BlockEntryView| e.desc.library)
}

/// The registry of block kinds.
pub struct BlockRegistry {
    entries: Vec<BlockEntry>,
}

impl View for BlockRegistry {
    type V = Seq<BlockEntryView>;

    closed spec fn view(&self) -> Seq<BlockEntryView> {
        self.entries@.map_values(|e: BlockEntry| e@)
    }
}

impl BlockRegistry {
    #[verifier::type_invariant]
    closed spec fn wf(self) -> bool {
        unique_entries(self@)
    }

    /// An empty registry.
    pub fn new() -> (r: Self)
        ensures
            r@ == Seq::<BlockEntryView>::empty(),
    {
        let r = BlockRegistry { entries: Vec::new() };
        assert(r@ =~= Seq::<BlockEntryView>::empty());
        r
    }

    /// Position of block `name` of library `library`.
    fn find(&self, library: &str, name: &str) -> (r: Option<usize>)
        ensures
            match r {
                Some(i) => i < self@.len() && entry_is(self@[i as int], library@, name@),
                None => !is_registered(self@, library@, name@),
            },
    {
        let mut i: usize = 0;
        while i < self.entries.len()
            invariant
                i <= self.entries@.len(),
                self@ == self.entries@.map_values(|e: BlockEntry| e@),
                forall|k: int| 0 <= k < i ==> !entry_is(#[trigger] self@[k], library@, name@),
            decreases self.entries.len() - i,
        {
            let e = &self.entries[i];
            assert(self@[i as int] == e@);
            if str_equal(e.desc.library.as_str(), library) && str_equal(e.desc.name.as_str(), name) {
                return Some(i);
            }
            i += 1;
        }
        None
    }

    /// Adds an entry for `desc` unless its library already has a block of
    /// that name.
    fn insert(&mut self, desc: BlockDesc, constructible: bool) -> (r: Result<(), RegistryError>)
        ensures
            is_registered(old(self)@, desc@.library, desc@.name) ==> {
                &&& final(self)@ == old(self)@
                &&& r matches Err(e) && e@ == RegistryErrorView::BlockAlreadyRegistered {
                    library: desc@.library,
                    name: desc@.name,
                }
            },
            !is_registered(old(self)@, desc@.library, desc@.name) ==> {
                &&& r is Ok
                &&& final(self)@ == old(self)@.push(
                    BlockEntryView { desc: desc@, constructible },
                )
            },
    {
        proof {
            use_type_invariant(&*self);
        }
        if self.find(desc.library.as_str(), desc.name.as_str()).is_some() {
            return Err(
                RegistryError::BlockAlreadyRegistered {
                    library: desc.library.clone(),
                    name: desc.name.clone(),
                },
            );
        }
        let ghost before = self@;
        let entry = BlockEntry { desc, constructible };
        let ghost new_entry = entry@;
        let mut entries = Vec::new();
        std::mem::swap(&mut entries, &mut self.entries);
        entries.push(entry);
        assert(entries@.map_values(|e: BlockEntry| e@) =~= before.push(new_entry));
        assert(unique_entries(before.push(new_entry)));
        self.entries = entries;
        Ok(())
    }
}

/// Returns the descriptors of all registered blocks, in registration order.
/// No library holds two blocks of one name, so each (library, name) pair
/// is listed once.
pub fn list_registered_blocks(registry: &BlockRegistry) -> (blocks: Vec<BlockDesc>)
    ensures
        blocks@.map_values(|d: BlockDesc| d@) == registry@.map_values(|e: BlockEntryView| e.desc),
        unique_entries(registry@),
{
    proof {
        use_type_invariant(registry);
    }
    let mut blocks: Vec<BlockDesc> = Vec::new();
    let mut i: usize = 0;
    while i < registry.entries.len()
        invariant
            i <= registry.entries@.len(),
            registry@ == registry.entries@.map_values(|e: BlockEntry| e@),
            blocks@.map_values(|d: BlockDesc| d@) == registry@.subrange(0, i as int).map_values(
                |e: BlockEntryView| e.desc,
            ),
        decreases registry.entries.len() - i,
    {
        blocks.push(registry.entries[i].desc.duplicate());
        assert(registry@.subrange(0, i + 1).map_values(|e: BlockEntryView| e.desc)
            =~= registry@.subrange(0, i as int).map_values(|e: BlockEntryView| e.desc).push(
            registry@[i as int].desc,
        ));
        assert(blocks@.map_values(|d: BlockDesc| d@) =~= registry@.subrange(
            0,
            i + 1,
        ).map_values(|e: BlockEntryView| e.desc));
        i += 1;
    }
    assert(registry@.subrange(0, registry.entries.len() as int) =~= registry@);
    blocks
}

/// Registers a block description (without a way to build instances).
///
/// Fails when the description's library already has a block of that name;
/// the registry is then unchanged.
pub fn register_block_desc(registry: &mut BlockRegistry, desc: &BlockDesc) -> (r: Result<(), RegistryError>)
    ensures
        unique_entries(final(registry)@),
        is_registered(old(registry)@, desc@.library, desc@.name) ==> {
            &&& final(registry)@ == old(registry)@
            &&& r matches Err(e) && e@ == RegistryErrorView::BlockAlreadyRegistered {
                library: desc@.library,
                name: desc@.name,
            }
        },
        !is_registered(old(registry)@, desc@.library, desc@.name) ==> {
            &&& r is Ok
            &&& final(registry)@ == old(registry)@.push(
                BlockEntryView { desc: desc@, constructible: false },
            )
        },
{
    let r = registry.insert(desc.duplicate(), false);
    proof {
        use_type_invariant(&*registry);
    }
    r
}

/// Registers the block kind `B`, whose instances the registry can build.
///
/// Fails when `B`'s library already has a block of that name; the registry
/// is then unchanged.
pub fn register<B: RegisterableBlock>(registry: &mut BlockRegistry) -> (r: Result<(), RegistryError>)
    ensures
        unique_entries(final(registry)@),
        is_registered(old(registry)@, B::static_desc().library, B::static_desc().name) ==> {
            &&& final(registry)@ == old(registry)@
            &&& r matches Err(e) && e@ == RegistryErrorView::BlockAlreadyRegistered {
                library: B::static_desc().library,
                name: B::static_desc().name,
            }
        },
        !is_registered(old(registry)@, B::static_desc().library, B::static_desc().name) ==> {
            &&& r is Ok
            &&& final(registry)@ == old(registry)@.push(
                BlockEntryView { desc: B::static_desc(), constructible: true },
            )
        },
{
    let r = registry.insert(B::block_desc(), true);
    proof {
        use_type_invariant(&*registry);
    }
    r
}

/// Returns the entry of block `name` in library `lib` (the core library when
/// `lib` is `None`).
pub fn get_block(registry: &BlockRegistry, name: &str, lib: Option<&str>) -> (r: Option<BlockEntry>)
    ensures
        ({
            let library = match lib {
                Some(l) => l@,
                None => core_lib(),
            };
            match r {
                Some(e) => lookup(registry@, library, name@) == Some(e@),
                None => lookup(registry@, library, name@) is None,
            }
        }),
{
    let library = match lib {
        Some(l) => l,
        None => "core",
    };
    match registry.find(library, name) {
        Some(i) => {
            proof {
                use_type_invariant(registry);
                lemma_lookup_at(registry@, library@, name@, i as int);
            }
            Some(registry.entries[i].duplicate())
        },
        None => None,
    }
}

/// Returns the entry of core block `name`.
pub fn get_core_block(registry: &BlockRegistry, name: &str) -> (r: Option<BlockEntry>)
    ensures
        match r {
            Some(e) => lookup(registry@, core_lib(), name@) == Some(e@),
            None => lookup(registry@, core_lib(), name@) is None,
        },
{
    get_block(registry, name, None)
}

/// In a registry without repeated blocks, the entry found at `i` is the one
/// `lookup` gives.
pub proof fn lemma_lookup_at(entries: Seq<BlockEntryView>, library: Seq<char>, name: Seq<char>, i: int)
    requires
        unique_entries(entries),
        0 <= i < entries.len(),
        entry_is(entries[i], library, name),
    ensures
        lookup(entries, library, name) == Some(entries[i]),
{
    let k = choose|k: int| 0 <= k < entries.len() && entry_is(#[trigger] entries[k], library, name);
    if k < i {
        assert(!entry_is(entries[k], entries[i].desc.library, entries[i].desc.name));
    } else if i < k {
        assert(!entry_is(entries[i], entries[k].desc.library, entries[k].desc.name));
    }
}

/// Every candidate is an entry of the list.
proof fn lemma_candidate_is_entry(entries: Seq<BlockEntryView>, name: Seq<char>, k: int)
    requires
        0 <= k < candidates(entries, name).len(),
    ensures
        exists|j: int| 0 <= j < entries.len() && entries[j] == candidates(entries, name)[k],
        candidates(entries, name)[k].desc.name == name,
        candidates(entries, name)[k].constructible,
    decreases entries.len(),
{
    let rest = candidates(entries.drop_last(), name);
    if k < rest.len() {
        lemma_candidate_is_entry(entries.drop_last(), name, k);
        let j = choose|j: int|
            0 <= j < entries.drop_last().len() && entries.drop_last()[j] == rest[k];
        assert(entries[j] == rest[k]);
    } else {
        assert(entries[entries.len() - 1] == candidates(entries, name)[k]);
    }
}

/// Appending an element adds it to the set of elements.
pub proof fn lemma_push_to_set<A>(s: Seq<A>, x: A)
    ensures
        s.push(x).to_set() == s.to_set().insert(x),
{
    assert forall|y: A| s.push(x).to_set().contains(y) <==> s.to_set().insert(x).contains(y) by {
        if s.push(x).contains(y) {
            let k = choose|k: int| 0 <= k < s.push(x).len() && s.push(x)[k] == y;
            if k < s.len() {
                assert(s[k] == y);
            }
        }
        if s.contains(y) {
            let k = choose|k: int| 0 <= k < s.len() && s[k] == y;
            assert(s.push(x)[k] == y);
        }
        if y == x {
            assert(s.push(x)[s.len() as int] == y);
        }
    }
    assert(s.push(x).to_set() =~= s.to_set().insert(x));
}

/// Inserts `x` into the strictly sorted list `v`, keeping it strictly sorted.
fn insert_sorted(v: &mut Vec<String>, x: String)
    requires
        strictly_sorted(string_views(old(v)@)),
        !string_views(old(v)@).contains(x@),
    ensures
        strictly_sorted(string_views(final(v)@)),
        string_views(final(v)@).to_set() == string_views(old(v)@).to_set().insert(x@),
{
    let ghost old_views = string_views(v@);
    let mut p: usize = 0;
    while p < v.len() && !str_lex_lt(x.as_str(), v[p].as_str())
        invariant
            p <= v.len(),
            v@ == old(v)@,
            old_views == string_views(v@),
            forall|k: int| 0 <= k < p ==> lex_lt(#[trigger] old_views[k], x@),
            !old_views.contains(x@),
        decreases v.len() - p,
    {
        proof {
            assert(old_views[p as int] == v@[p as int]@);
            assert(old_views[p as int] != x@);
            lemma_lex_total(old_views[p as int], x@);
        }
        p += 1;
    }
    v.insert(p, x);
    proof {
        let nv = string_views(v@);
        assert(nv =~= old_views.insert(p as int, x@));
        assert forall|i: int, j: int| 0 <= i < j < nv.len() implies lex_lt(
            #[trigger] nv[i],
            #[trigger] nv[j],
        ) by {
            if j < p {
                assert(lex_lt(old_views[i], old_views[j]));
            } else if j == p {
            } else if i < p {
                assert(lex_lt(old_views[i], x@));
                assert(lex_lt(x@, old_views[p as int]));
                if j - 1 > p {
                    assert(lex_lt(old_views[p as int], old_views[j - 1]));
                    lemma_lex_transitive(x@, old_views[p as int], old_views[j - 1]);
                }
                lemma_lex_transitive(old_views[i], x@, old_views[j - 1]);
            } else if i == p {
                if j - 1 > p {
                    assert(lex_lt(old_views[p as int], old_views[j - 1]));
                    lemma_lex_transitive(x@, old_views[p as int], old_views[j - 1]);
                }
            } else {
                assert(lex_lt(old_views[i - 1], old_views[j - 1]));
            }
        }
        assert(nv.to_set() =~= old_views.to_set().insert(x@)) by {
            assert forall|y: Seq<char>| nv.to_set().contains(y) <==> old_views.to_set().insert(
                x@,
            ).contains(y) by {
                if nv.contains(y) {
                    let k = choose|k: int| 0 <= k < nv.len() && nv[k] == y;
                    if k < p {
                        assert(old_views[k] == y);
                    } else if k > p {
                        assert(old_views[k - 1] == y);
                    }
                }
                if old_views.contains(y) {
                    let k = choose|k: int| 0 <= k < old_views.len() && old_views[k] == y;
                    if k < p {
                        assert(nv[k] == y);
                    } else {
                        assert(nv[k + 1] == y);
                    }
                }
                if y == x@ {
                    assert(nv[p as int] == y);
                }
            }
        }
    }
}

/// Resolves block `name` to a constructible entry. With a library, the
/// block must be in that library; without one, exactly one library may have
/// a constructible block of that name.
pub fn make_registered(registry: &BlockRegistry, name: &str, lib: Option<&str>) -> (r: Result<BlockEntry, RegistryError>)
    ensures
        lib is Some ==> {
            let library = lib->0@;
            match lookup(registry@, library, name@) {
                Some(e) if e.constructible => r matches Ok(found) && found@ == e,
                _ => r matches Err(err) && err@ == RegistryErrorView::BlockNotFound {
                    library,
                    name: name@,
                },
            }
        },
        lib is None ==> {
            let found = candidates(registry@, name@);
            &&& found.len() == 0 ==> (r matches Err(err) && err@
                == (RegistryErrorView::BlockNotRegistered { name: name@ }))
            &&& found.len() == 1 ==> (r matches Ok(e) && e@ == found[0])
            &&& found.len() > 1 ==> (r matches Err(err) && (err@ matches RegistryErrorView::AmbiguousBlockName {
                name: n,
                libraries,
            } && n == name@ && strictly_sorted(libraries) && libraries.to_set()
                == libraries_of(found).to_set()))
        },
{
    proof {
        use_type_invariant(registry);
    }
    match lib {
        Some(library) => {
            match registry.find(library, name) {
                Some(i) => {
                    proof {
                        lemma_lookup_at(registry@, library@, name@, i as int);
                    }
                    if registry.entries[i].constructible {
                        return Ok(registry.entries[i].duplicate());
                    }
                },
                None => {},
            }
            Err(
                RegistryError::BlockNotFound {
                    library: String::from_str(library),
                    name: String::from_str(name),
                },
            )
        },
        None => {
            let target = String::from_str(name);
            let mut first: Option<usize> = None;
            let mut count: usize = 0;
            let mut libraries: Vec<String> = Vec::new();
            let mut i: usize = 0;
            while i < registry.entries.len()
                invariant
                    i <= registry.entries@.len(),
                    target@ == name@,
                    registry@ == registry.entries@.map_values(|e: BlockEntry| e@),
                    unique_entries(registry@),
                    count == candidates(registry@.subrange(0, i as int), name@).len(),
                    count <= i,
                    count == 0 <==> first is None,
                    first matches Some(f) ==> f < i && registry@[f as int] == candidates(
                        registry@.subrange(0, i as int),
                        name@,
                    )[0],
                    strictly_sorted(string_views(libraries@)),
                    string_views(libraries@).to_set() == libraries_of(
                        candidates(registry@.subrange(0, i as int), name@),
                    ).to_set(),
                decreases registry.entries.len() - i,
            {
                let ghost prefix = registry@.subrange(0, i as int);
                let ghost next = registry@.subrange(0, i + 1);
                assert(next.drop_last() =~= prefix);
                assert(next.last() == registry@[i as int]);
                let e = &registry.entries[i];
                if e.constructible && e.desc.name == target {
                    proof {
                        assert(candidates(next, name@) == candidates(prefix, name@).push(
                            registry@[i as int],
                        ));
                        assert(libraries_of(candidates(next, name@)) =~= libraries_of(
                            candidates(prefix, name@),
                        ).push(registry@[i as int].desc.library));
                        if string_views(libraries@).contains(e.desc.library@) {
                            let lib_view = e.desc.library@;
                            assert(libraries_of(candidates(prefix, name@)).to_set().contains(
                                lib_view,
                            ));
                            let k = choose|k: int|
                                0 <= k < libraries_of(candidates(prefix, name@)).len()
                                    && libraries_of(candidates(prefix, name@))[k] == lib_view;
                            lemma_candidate_is_entry(prefix, name@, k);
                            let j = choose|j: int|
                                0 <= j < prefix.len() && prefix[j] == candidates(
                                    prefix,
                                    name@,
                                )[k];
                            assert(registry@[j] == prefix[j]);
                            assert(!entry_is(
                                registry@[j],
                                registry@[i as int].desc.library,
                                registry@[i as int].desc.name,
                            ));
                        }
                        lemma_push_to_set(
                            libraries_of(candidates(prefix, name@)),
                            registry@[i as int].desc.library,
                        );
                    }
                    insert_sorted(&mut libraries, e.desc.library.clone());
                    if first.is_none() {
                        first = Some(i);
                    }
                    count = count + 1;
                } else {
                    assert(candidates(next, name@) == candidates(prefix, name@));
                }
                i += 1;
            }
            assert(registry@.subrange(0, registry.entries.len() as int) =~= registry@);
            if count == 0 {
                Err(RegistryError::BlockNotRegistered { name: target })
            } else if count == 1 {
                let f = first.unwrap();
                Ok(registry.entries[f].duplicate())
            } else {
                Err(RegistryError::AmbiguousBlockName { name: target, libraries })
            }
        },
    }
}

/// Checks that `supplied` input values fit the `declared` inputs of a block
/// about to be evaluated.
pub fn check_input_count(declared: usize, supplied: usize) -> (r: Result<(), RegistryError>)
    ensures
        supplied <= declared ==> r is Ok,
        supplied > declared ==> (r matches Err(e) && e@ == (RegistryErrorView::TooManyInputs {
            declared,
            supplied,
        })),
{
    if supplied > declared {
        Err(RegistryError::TooManyInputs { declared, supplied })
    } else {
        Ok(())
    }
}

} // verus!
