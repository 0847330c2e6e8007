//! The stores behind a catalog and behind a search, kept in the maps of the
//! `cranelift-entity` crate: primary maps, which hand out the handles, and
//! secondary maps, which hold a value for every handle.

use crate::catalog::{Operation, Setup, State};
use crate::refs::{OpRef, SetupRef, StateRef};
use cranelift_entity::{PrimaryMap, SecondaryMap};
use vstd::prelude::*;

verus! {

/// The states of a catalog, in the order of their registration: a
/// `PrimaryMap`, which gives each state its handle.
#[verifier::external_body]
pub struct StateTable {
    map: PrimaryMap<StateRef, State>,
}

/// The operations of a catalog, in the order of their registration: a
/// `PrimaryMap`, which gives each operation its handle.
#[verifier::external_body]
pub struct OpTable {
    map: PrimaryMap<OpRef, Operation>,
}

/// The setups of a catalog, in the order of their registration: a
/// `PrimaryMap`, which gives each setup its handle.
#[verifier::external_body]
pub struct SetupTable {
    map: PrimaryMap<SetupRef, Setup>,
}

/// A mark for each state, `false` where none was set: a `SecondaryMap`.
#[verifier::external_body]
pub struct MarkMap {
    map: SecondaryMap<StateRef, bool>,
}

/// An operation for each state, `None` where none was set: a
/// `SecondaryMap`.
#[verifier::external_body]
pub struct CrumbMap {
    map: SecondaryMap<StateRef, Option<OpRef>>,
}

/// The entries of a table of states: the entry of handle `n` at index `n`.
pub uninterp spec fn state_entries(table: StateTable) -> Seq<State>;

/// The entries of a table of operations: the entry of handle `n` at index `n`.
pub uninterp spec fn op_entries(table: OpTable) -> Seq<Operation>;

/// The entries of a table of setups: the entry of handle `n` at index `n`.
pub uninterp spec fn setup_entries(table: SetupTable) -> Seq<Setup>;

/// The marks that a map holds in its vector; every state behind them has the
/// mark `false`.
pub uninterp spec fn mark_entries(map: MarkMap) -> Seq<bool>;

/// The operations that a map holds in its vector; every state behind them has
/// `None`.
pub uninterp spec fn crumb_entries(map: CrumbMap) -> Seq<Option<OpRef>>;

/// `entries` made at least `len` long by adding `fill` at the end.
pub open spec fn padded<V>(entries: Seq<V>, len: nat, fill: V) -> Seq<V> {
    if entries.len() >= len {
        entries
    } else {
        entries + Seq::new((len - entries.len()) as nat, |i: int| fill)
    }
}

/// The value that a map with these entries has for index `at`.
pub open spec fn entry_or<V>(entries: Seq<V>, at: int, fill: V) -> V {
    if 0 <= at < entries.len() {
        entries[at]
    } else {
        fill
    }
}

/// Setting the entry of one key leaves the values of the others as they were.
pub proof fn lemma_entry_set<V>(entries: Seq<V>, key: int, fill: V, value: V, other: int)
    requires
        0 <= key,
    ensures
        entry_or(padded(entries, (key + 1) as nat, fill).update(key, value), other, fill) == (if other
            == key {
            value
        } else {
            entry_or(entries, other, fill)
        }),
{
}

impl StateTable {
    /// `PrimaryMap::new`: a map without entries.
    #[verifier::external_body]
    pub(crate) fn new() -> (r: Self)
        ensures
            state_entries(r) == Seq::<State>::empty(),
    {
        StateTable { map: PrimaryMap::new() }
    }

    /// `PrimaryMap::len`: the number of entries.
    #[verifier::external_body]
    pub(crate) fn len(&self) -> (r: usize)
        ensures
            r == state_entries(*self).len(),
    {
        self.map.len()
    }

    /// `PrimaryMap::push`: the entry goes to the end, and its handle is the
    /// number of entries before it.
    #[verifier::external_body]
    pub(crate) fn push(&mut self, entry: State) -> (r: StateRef)
        requires
            state_entries(*old(self)).len() <= u32::MAX,
        ensures
            state_entries(*final(self)) == state_entries(*old(self)).push(entry),
            r.0 == state_entries(*old(self)).len(),
    {
        self.map.push(entry)
    }

    /// Indexing a `PrimaryMap`: the entry of a handle that the map gave out.
    #[verifier::external_body]
    pub(crate) fn get(&self, key: StateRef) -> (r: &State)
        requires
            key.0 < state_entries(*self).len(),
        ensures
            *r == state_entries(*self)[key.0 as int],
    {
        &self.map[key]
    }
}

impl OpTable {
    /// `PrimaryMap::new`: a map without entries.
    #[verifier::external_body]
    pub(crate) fn new() -> (r: Self)
        ensures
            op_entries(r) == Seq::<Operation>::empty(),
    {
        OpTable { map: PrimaryMap::new() }
    }

    /// `PrimaryMap::len`: the number of entries.
    #[verifier::external_body]
    pub(crate) fn len(&self) -> (r: usize)
        ensures
            r == op_entries(*self).len(),
    {
        self.map.len()
    }

    /// `PrimaryMap::push`: the entry goes to the end, and its handle is the
    /// number of entries before it.
    #[verifier::external_body]
    pub(crate) fn push(&mut self, entry: Operation) -> (r: OpRef)
        requires
            op_entries(*old(self)).len() <= u32::MAX,
        ensures
            op_entries(*final(self)) == op_entries(*old(self)).push(entry),
            r.0 == op_entries(*old(self)).len(),
    {
        self.map.push(entry)
    }

    /// Indexing a `PrimaryMap`: the entry of a handle that the map gave out.
    #[verifier::external_body]
    pub(crate) fn get(&self, key: OpRef) -> (r: &Operation)
        requires
            key.0 < op_entries(*self).len(),
        ensures
            *r == op_entries(*self)[key.0 as int],
    {
        &self.map[key]
    }
}

impl SetupTable {
    /// `PrimaryMap::new`: a map without entries.
    #[verifier::external_body]
    pub(crate) fn new() -> (r: Self)
        ensures
            setup_entries(r) == Seq::<Setup>::empty(),
    {
        SetupTable { map: PrimaryMap::new() }
    }

    /// `PrimaryMap::len`: the number of entries.
    #[verifier::external_body]
    pub(crate) fn len(&self) -> (r: usize)
        ensures
            r == setup_entries(*self).len(),
    {
        self.map.len()
    }

    /// `PrimaryMap::push`: the entry goes to the end, and its handle is the
    /// number of entries before it.
    #[verifier::external_body]
    pub(crate) fn push(&mut self, entry: Setup) -> (r: SetupRef)
        requires
            setup_entries(*old(self)).len() <= u32::MAX,
        ensures
            setup_entries(*final(self)) == setup_entries(*old(self)).push(entry),
            r.0 == setup_entries(*old(self)).len(),
    {
        self.map.push(entry)
    }

    /// Indexing a `PrimaryMap`: the entry of a handle that the map gave out.
    #[verifier::external_body]
    pub(crate) fn get(&self, key: SetupRef) -> (r: &Setup)
        requires
            key.0 < setup_entries(*self).len(),
        ensures
            *r == setup_entries(*self)[key.0 as int],
    {
        &self.map[key]
    }
}

impl MarkMap {
    /// `SecondaryMap::new`: nothing in the vector, `false` for every state.
    #[verifier::external_body]
    pub(crate) fn new() -> (r: Self)
        ensures
            mark_entries(r) == Seq::<bool>::empty(),
    {
        MarkMap { map: SecondaryMap::new() }
    }

    /// Indexing a `SecondaryMap`: the entry in the vector, or `false` behind
    /// its end.
    #[verifier::external_body]
    pub(crate) fn get(&self, key: StateRef) -> (r: bool)
        ensures
            r == entry_or(mark_entries(*self), key.0 as int, false),
    {
        self.map[key]
    }

    /// Assigning through the index of a `SecondaryMap`: the vector grows by
    /// `false` entries up to the key where it is shorter, and the entry of the
    /// key becomes `value`.
    #[verifier::external_body]
    pub(crate) fn set(&mut self, key: StateRef, value: bool)
        ensures
            mark_entries(*final(self)) == padded(
                mark_entries(*old(self)),
                (key.0 + 1) as nat,
                false,
            ).update(key.0 as int, value),
    {
        self.map[key] = value;
    }
}

impl CrumbMap {
    /// `SecondaryMap::new`: nothing in the vector, `None` for every state.
    #[verifier::external_body]
    pub(crate) fn new() -> (r: Self)
        ensures
            crumb_entries(r) == Seq::<Option<OpRef>>::empty(),
    {
        CrumbMap { map: SecondaryMap::new() }
    }

    /// Indexing a `SecondaryMap`: the entry in the vector, or `None` behind
    /// its end.
    #[verifier::external_body]
    pub(crate) fn get(&self, key: StateRef) -> (r: Option<OpRef>)
        ensures
            r == entry_or(crumb_entries(*self), key.0 as int, None),
    {
        self.map[key]
    }

    /// Assigning through the index of a `SecondaryMap`: the vector grows by
    /// `None` entries up to the key where it is shorter, and the entry of the
    /// key becomes `value`.
    #[verifier::external_body]
    pub(crate) fn set(&mut self, key: StateRef, value: Option<OpRef>)
        ensures
            crumb_entries(*final(self)) == padded(
                crumb_entries(*old(self)),
                (key.0 + 1) as nat,
                None,
            ).update(key.0 as int, value),
    {
        self.map[key] = value;
    }
}

} // verus!
