//! Connectors: the registry of named connector handles, and the list of
//! connectors an engine manages (attach, detach, release on reset or drop).
//! Starting and stopping a connector is left to the engine; these functions
//! decide what to start or stop and keep the bookkeeping.

use vstd::prelude::*;

use crate::text::str_equal;

verus! {

/// `"Connector '" + name + rest`.
pub open spec fn connector_message(name: Seq<char>, rest: Seq<char>) -> Seq<char> {
    "Connector '"@ + name + rest
}

fn connector_error(name: &str, rest: &str) -> (s: String)
    ensures
        s@ == connector_message(name@, rest@),
{
    let mut s = String::from_str("Connector '");
    s.append(name);
    s.append(rest);
    s
}

/// The handle registered under `name`, if any.
pub open spec fn handle_of<H>(entries: Seq<(Seq<char>, H)>, name: Seq<char>) -> Option<H> {
    if exists|i: int| 0 <= i < entries.len() && (#[trigger] entries[i]).0 == name {
        Some(entries[choose|i: int| 0 <= i < entries.len() && (#[trigger] entries[i]).0 == name].1)
    } else {
        None
    }
}

/// The entries other than the one named `name`.
pub open spec fn without_name<H>(entries: Seq<(Seq<char>, H)>, name: Seq<char>) -> Seq<(Seq<char>, H)>
    decreases entries.len(),
{
    if entries.len() == 0 {
        seq![]
    } else {
        let rest = without_name(entries.drop_last(), name);
        if entries.last().0 == name {
            rest
        } else {
            rest.push(entries.last())
        }
    }
}

/// No name is registered twice.
pub open spec fn distinct_names<H>(entries: Seq<(Seq<char>, H)>) -> bool {
    forall|i: int, j: int|
        0 <= i < j < entries.len() ==> (#[trigger] entries[i]).0 != (#[trigger] entries[j]).0
}

/// The process-wide registry of connector handles, by name.
pub struct ConnectorRegistry<H> {
    entries: Vec<(String, H)>,
}

impl<H> View for ConnectorRegistry<H> {
    type V = Seq<(Seq<char>, H)>;

    closed spec fn view(&self) -> Seq<(Seq<char>, H)> {
        self.entries@.map_values(|e: (String, H)| (e.0@, e.1))
    }
}

proof fn lemma_handle_at<H>(entries: Seq<(Seq<char>, H)>, name: Seq<char>, i: int)
    requires
        distinct_names(entries),
        0 <= i < entries.len(),
        entries[i].0 == name,
    ensures
        handle_of(entries, name) == Some(entries[i].1),
{
    let k = choose|k: int| 0 <= k < entries.len() && (#[trigger] entries[k]).0 == name;
    if k != i {
        if k < i {
            assert(entries[k].0 != entries[i].0);
        } else {
            assert(entries[i].0 != entries[k].0);
        }
    }
}

proof fn lemma_without_absent<H>(entries: Seq<(Seq<char>, H)>, name: Seq<char>)
    requires
        forall|i: int| 0 <= i < entries.len() ==> (#[trigger] entries[i]).0 != name,
    ensures
        without_name(entries, name) == entries,
    decreases entries.len(),
{
    if entries.len() > 0 {
        lemma_without_absent(entries.drop_last(), name);
        assert(entries.drop_last().push(entries.last()) =~= entries);
    }
}

proof fn lemma_without_at<H>(entries: Seq<(Seq<char>, H)>, name: Seq<char>, i: int)
    requires
        distinct_names(entries),
        0 <= i < entries.len(),
        entries[i].0 == name,
    ensures
        without_name(entries, name) == entries.remove(i),
    decreases entries.len(),
{
    if i == entries.len() - 1 {
        assert forall|k: int| 0 <= k < entries.drop_last().len() implies (
        #[trigger] entries.drop_last()[k]).0 != name by {
            assert(entries[k].0 != entries[i].0);
        }
        lemma_without_absent(entries.drop_last(), name);
        assert(entries.remove(i) =~= entries.drop_last());
    } else {
        lemma_without_at(entries.drop_last(), name, i);
        assert(entries.last().0 != name) by {
            assert(entries[i].0 != entries[entries.len() - 1].0);
        }
        assert(entries.remove(i) =~= entries.drop_last().remove(i).push(entries.last()));
    }
}

impl<H> ConnectorRegistry<H> {
    #[verifier::type_invariant]
    closed spec fn wf(self) -> bool {
        distinct_names(self@)
    }

    /// An empty registry.
    pub fn new() -> (r: Self)
        ensures
            r@ == Seq::<(Seq<char>, H)>::empty(),
    {
        let r = ConnectorRegistry { entries: Vec::new() };
        assert(r@ =~= Seq::<(Seq<char>, H)>::empty());
        r
    }

    fn position(&self, name: &str) -> (r: Option<usize>)
        ensures
            match r {
                Some(i) => i < self@.len() && self@[i as int].0 == name@,
                None => forall|i: int| 0 <= i < self@.len() ==> (#[trigger] self@[i]).0 != name@,
            },
    {
        let mut i: usize = 0;
        while i < self.entries.len()
            invariant
                i <= self.entries@.len(),
                self@ == self.entries@.map_values(|e: (String, H)| (e.0@, e.1)),
                forall|k: int| 0 <= k < i ==> (#[trigger] self@[k]).0 != name@,
            decreases self.entries.len() - i,
        {
            assert(self@[i as int].0 == self.entries@[i as int].0@);
            if str_equal(self.entries[i].0.as_str(), name) {
                return Some(i);
            }
            i += 1;
        }
        None
    }

    /// Registers `handle` under `name`. Fails, changing nothing, when the
    /// name is taken.
    pub fn register(&mut self, name: String, handle: H) -> (r: Result<(), String>)
        ensures
            handle_of(old(self)@, name@) is Some ==> (r matches Err(e) && e@ == connector_message(
                name@,
                "' is already registered"@,
            )) && final(self)@ == old(self)@,
            handle_of(old(self)@, name@) is None ==> r is Ok && final(self)@ == old(self)@.push(
                (name@, handle),
            ),
    {
        proof {
            use_type_invariant(&*self);
        }
        match self.position(name.as_str()) {
            Some(i) => {
                proof {
                    lemma_handle_at(self@, name@, i as int);
                }
                Err(connector_error(name.as_str(), "' is already registered"))
            },
            None => {
                let ghost before = self@;
                let ghost n = name@;
                let mut entries = Vec::new();
                std::mem::swap(&mut entries, &mut self.entries);
                entries.push((name, handle));
                assert(entries@.map_values(|e: (String, H)| (e.0@, e.1)) =~= before.push((n, handle)));
                self.entries = entries;
                Ok(())
            },
        }
    }

    /// The handle registered under `name`.
    pub fn get(&self, name: &str) -> (r: Option<&H>)
        ensures
            match handle_of(self@, name@) {
                Some(h) => r == Some(&h),
                None => r is None,
            },
    {
        proof {
            use_type_invariant(self);
        }
        match self.position(name) {
            Some(i) => {
                proof {
                    lemma_handle_at(self@, name@, i as int);
                }
                Some(&self.entries[i].1)
            },
            None => None,
        }
    }

    /// Removes the handle registered under `name` and returns it.
    pub fn unregister(&mut self, name: &str) -> (r: Option<H>)
        ensures
            r == handle_of(old(self)@, name@),
            final(self)@ == without_name(old(self)@, name@),
    {
        proof {
            use_type_invariant(&*self);
        }
        match self.position(name) {
            Some(i) => {
                let ghost before = self@;
                proof {
                    lemma_handle_at(before, name@, i as int);
                    lemma_without_at(before, name@, i as int);
                }
                let mut entries = Vec::new();
                std::mem::swap(&mut entries, &mut self.entries);
                let (_, h) = entries.remove(i);
                assert(entries@.map_values(|e: (String, H)| (e.0@, e.1)) =~= before.remove(i as int));
                assert(distinct_names(before.remove(i as int)));
                self.entries = entries;
                Some(h)
            },
            None => {
                proof {
                    lemma_without_absent(self@, name@);
                }
                None
            },
        }
    }
}

/// The connectors managed by an engine.
pub open spec fn names_of(v: Seq<String>) -> Seq<Seq<char>> {
    v.map_values(|s: String| s@)
}

/// Before starting a connector on behalf of an engine: the handle of
/// `name`, or why it cannot be attached.
pub fn check_attach<'a, H>(connectors: &Vec<String>, registry: &'a ConnectorRegistry<H>, name: &str) -> (r: Result<&'a H, String>)
    ensures
        names_of(connectors@).contains(name@) ==> (r matches Err(e) && e@ == connector_message(
            name@,
            "' is already managed by the engine"@,
        )),
        !names_of(connectors@).contains(name@) ==> match handle_of(registry@, name@) {
            Some(h) => r == Ok::<&H, String>(&h),
            None => r matches Err(e) && e@ == connector_message(name@, "' is not registered"@),
        },
{
    let mut i: usize = 0;
    while i < connectors.len()
        invariant
            i <= connectors@.len(),
            forall|k: int| 0 <= k < i ==> names_of(connectors@)[k] != name@,
        decreases connectors.len() - i,
    {
        if str_equal(connectors[i].as_str(), name) {
            assert(names_of(connectors@)[i as int] == name@);
            return Err(connector_error(name, "' is already managed by the engine"));
        }
        i += 1;
    }
    match registry.get(name) {
        Some(h) => Ok(h),
        None => Err(connector_error(name, "' is not registered")),
    }
}

/// After starting a connector for an engine: a started connector joins the
/// managed list; a failed start leaves the list as it was.
pub fn commit_attach(connectors: &mut Vec<String>, name: String, started: Result<(), String>) -> (r: Result<String, String>)
    ensures
        started is Ok ==> (r matches Ok(n) && n@ == name@) && final(connectors)@.map_values(|s: String| s@)
            == old(connectors)@.map_values(|s: String| s@).push(name@),
        started matches Err(e) ==> r == Err::<String, String>(e) && final(connectors)@ == old(
            connectors,
        )@,
{
    match started {
        Ok(()) => {
            let n = name.clone();
            connectors.push(name);
            assert(connectors@.map_values(|s: String| s@) =~= old(connectors)@.map_values(
                |s: String| s@,
            ).push(n@));
            Ok(n)
        },
        Err(e) => Err(e),
    }
}

/// The position of the first `name` in `names`.
pub open spec fn first_position(names: Seq<Seq<char>>, name: Seq<char>) -> int {
    choose|i: int|
        0 <= i < names.len() && names[i] == name && forall|k: int|
            0 <= k < i ==> #[trigger] names[k] != name
}

proof fn lemma_first_position(names: Seq<Seq<char>>, name: Seq<char>, i: int)
    requires
        0 <= i < names.len(),
        names[i] == name,
        forall|k: int| 0 <= k < i ==> #[trigger] names[k] != name,
    ensures
        first_position(names, name) == i,
{
    let j = first_position(names, name);
    assert(0 <= j < names.len() && names[j] == name && forall|k: int|
        0 <= k < j ==> #[trigger] names[k] != name);
    if j < i {
        assert(names[j] != name);
    } else if j > i {
        assert(names[i] != name);
    }
}

/// Detaches `name` from the managed list and unregisters it; returns the
/// name and the handle to stop (`None` when it was already unregistered).
/// Fails, changing nothing, when the engine does not manage `name`.
pub fn detach_connector<H>(connectors: &mut Vec<String>, registry: &mut ConnectorRegistry<H>, name: &str) -> (r: Result<(String, Option<H>), String>)
    ensures
        !names_of(old(connectors)@).contains(name@) ==> (r matches Err(e) && e@ == connector_message(
            name@,
            "' is not managed by the engine"@,
        )) && final(connectors)@ == old(connectors)@ && final(registry)@ == old(registry)@,
        names_of(old(connectors)@).contains(name@) ==> {
            let i = first_position(names_of(old(connectors)@), name@);
            &&& r matches Ok(d) && d.0@ == name@ && d.1 == handle_of(old(registry)@, name@)
            &&& names_of(final(connectors)@) == names_of(old(connectors)@).remove(i)
            &&& final(registry)@ == without_name(old(registry)@, name@)
        },
{
    let mut i: usize = 0;
    while i < connectors.len()
        invariant
            i <= connectors@.len(),
            connectors@ == old(connectors)@,
            registry@ == old(registry)@,
            forall|k: int| 0 <= k < i ==> #[trigger] names_of(connectors@)[k] != name@,
        decreases connectors.len() - i,
    {
        if str_equal(connectors[i].as_str(), name) {
            let ghost names = names_of(connectors@);
            assert(names[i as int] == name@);
            proof {
                lemma_first_position(names, name@, i as int);
            }
            connectors.remove(i);
            assert(names_of(connectors@) =~= names.remove(i as int));
            let handle = registry.unregister(name);
            return Ok((String::from_str(name), handle));
        }
        i += 1;
    }
    proof {
        let names = names_of(connectors@);
        assert forall|k: int| 0 <= k < names.len() implies names[k] != name@ by {}
    }
    Err(connector_error(name, "' is not managed by the engine"))
}

/// Unregistering each name of `names` in turn: the registry that remains,
/// and the `(name, handle)` pairs taken out, in order.
pub open spec fn unregister_each<H>(entries: Seq<(Seq<char>, H)>, names: Seq<Seq<char>>) -> (Seq<(Seq<char>, H)>, Seq<(Seq<char>, H)>)
    decreases names.len(),
{
    if names.len() == 0 {
        (entries, seq![])
    } else {
        let (rest, taken) = unregister_each(entries, names.drop_last());
        let name = names.last();
        match handle_of(rest, name) {
            Some(h) => (without_name(rest, name), taken.push((name, h))),
            None => (rest, taken),
        }
    }
}

/// Reset: empties the managed list, unregistering each managed connector
/// first, and returns the handles that were unregistered (to be stopped).
pub fn take_managed_connectors<H>(connectors: &mut Vec<String>, registry: &mut ConnectorRegistry<H>) -> (taken: Vec<(String, H)>)
    ensures
        final(connectors)@.len() == 0,
        final(registry)@ == unregister_each(old(registry)@, names_of(old(connectors)@)).0,
        taken@.map_values(|e: (String, H)| (e.0@, e.1)) == unregister_each(
            old(registry)@,
            names_of(old(connectors)@),
        ).1,
{
    let mut managed: Vec<String> = Vec::new();
    std::mem::swap(&mut managed, connectors);
    let ghost names = names_of(managed@);
    let ghost start = registry@;
    let mut taken: Vec<(String, H)> = Vec::new();
    let mut i: usize = 0;
    while i < managed.len()
        invariant
            i <= managed@.len(),
            names == names_of(managed@),
            connectors@.len() == 0,
            (registry@, taken@.map_values(|e: (String, H)| (e.0@, e.1))) == unregister_each(
                start,
                names.subrange(0, i as int),
            ),
        decreases managed.len() - i,
    {
        let ghost next = names.subrange(0, i + 1);
        assert(next.drop_last() =~= names.subrange(0, i as int));
        assert(next.last() == managed@[i as int]@);
        let ghost before = taken@.map_values(|e: (String, H)| (e.0@, e.1));
        match registry.unregister(managed[i].as_str()) {
            Some(h) => {
                taken.push((managed[i].clone(), h));
                assert(taken@.map_values(|e: (String, H)| (e.0@, e.1)) =~= before.push(
                    (managed@[i as int]@, h),
                ));
            },
            None => {
                assert(without_name(unregister_each(start, names.subrange(0, i as int)).0, next.last())
                    == unregister_each(start, names.subrange(0, i as int)).0) by {
                    let es = unregister_each(start, names.subrange(0, i as int)).0;
                    assert(forall|k: int| 0 <= k < es.len() ==> (#[trigger] es[k]).0 != next.last());
                    lemma_without_absent(es, next.last());
                }
            },
        }
        i += 1;
    }
    assert(names.subrange(0, i as int) =~= names);
    taken
}

/// Drop: empties the managed list, unregistering each managed connector.
/// The handles are released without being stopped.
pub fn unregister_connectors<H>(connectors: &mut Vec<String>, registry: &mut ConnectorRegistry<H>)
    ensures
        final(connectors)@.len() == 0,
        final(registry)@ == unregister_each(old(registry)@, names_of(old(connectors)@)).0,
{
    let _released = take_managed_connectors(connectors, registry);
}

} // verus!
