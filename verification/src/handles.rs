//! Weak sets and maps of symbols and models.
//!
//! Every symbol and every model owns one `Handle`. Collections that must not keep
//! their members alive hold the handles weakly, by pointer.
use std::cell::RefCell;
use std::rc::{Rc, Weak};
use vstd::prelude::*;
use weak_table::{PtrWeakHashSet, PtrWeakKeyHashMap};

use crate::constants::SymbolId;
use crate::symbols::Symbol;

verus! {

/// `std::cell::RefCell`, of which nothing is claimed: a cell is a value of its own,
/// told apart from every other cell.
#[verifier::external_type_specification]
#[verifier::external_body]
#[verifier::reject_recursive_types(T)]
pub struct ExRefCell<T: ?Sized>(RefCell<T>);

/// What a handle points to: the position of its owner, and a cell that makes it
/// differ from every other one. It never leaves the allocation it is made in.
pub struct HandleCell {
    id: usize,
    identity: RefCell<()>,
}

/// Strong, shared identity of a symbol or a model. Two handles are equal when they
/// point to the same cell.
pub struct Handle {
    cell: Rc<HandleCell>,
}

/// Calls `RefCell::new`; nothing is claimed of the cell that comes back.
#[verifier::external_body]
fn new_identity() -> (r: RefCell<()>) {
    RefCell::new(())
}

/// Calls `Rc::clone`: the result points to the same cell.
#[verifier::external_body]
fn share(cell: &Rc<HandleCell>) -> (r: Rc<HandleCell>)
    ensures
        r == *cell,
{
    Rc::clone(cell)
}

/// Calls `Rc::ptr_eq`: true exactly of two pointers to the same cell. A
/// `HandleCell` is made inside its `Rc` and never moved out, so the same cell is
/// the same allocation.
#[verifier::external_body]
fn same_cell(a: &Rc<HandleCell>, b: &Rc<HandleCell>) -> (r: bool)
    ensures
        r == (*a == *b),
{
    Rc::ptr_eq(a, b)
}

impl Handle {
    /// The position of the owner in its table.
    pub closed spec fn id(self) -> usize {
        self.cell.id
    }

    /// A new handle for the owner at `id`.
    pub fn new(id: usize) -> (r: Handle)
        ensures
            r.id() == id,
    {
        Handle { cell: Rc::new(HandleCell { id, identity: new_identity() }) }
    }

    /// The position of the owner in its table.
    pub fn get_id(&self) -> (r: usize)
        ensures
            r == self.id(),
    {
        self.cell.id
    }

    /// Another pointer to the same cell.
    pub fn share(&self) -> (r: Handle)
        ensures
            r == *self,
    {
        Handle { cell: share(&self.cell) }
    }

    /// Whether both point to the same cell.
    pub fn same(&self, other: &Handle) -> (r: bool)
        ensures
            r == (*self == *other),
    {
        same_cell(&self.cell, &other.cell)
    }
}

/// A set of handles that keeps none of its members alive.
#[verifier::external_body]
pub struct HandleSet {
    inner: PtrWeakHashSet<Weak<HandleCell>>,
}

/// The handles that were put into `set` and not taken out since, whether or not
/// their owners are still there.
pub uninterp spec fn held(set: HandleSet) -> Set<Handle>;

impl HandleSet {
    /// Calls `PtrWeakHashSet::new`: an empty set.
    #[verifier::external_body]
    pub(crate) fn new() -> (r: HandleSet)
        ensures
            held(r) == Set::<Handle>::empty(),
    {
        HandleSet { inner: PtrWeakHashSet::new() }
    }

    /// Calls `PtrWeakHashSet::insert`: the handle is in the set afterwards, next to
    /// what was there.
    #[verifier::external_body]
    pub(crate) fn insert(&mut self, handle: &Handle)
        ensures
            held(*final(self)) == held(*old(self)).insert(*handle),
    {
        self.inner.insert(Rc::clone(&handle.cell));
    }

    /// Calls `PtrWeakHashSet::remove`: the handle is not in the set afterwards.
    #[verifier::external_body]
    pub(crate) fn remove(&mut self, handle: &Handle)
        ensures
            held(*final(self)) == held(*old(self)).remove(*handle),
    {
        self.inner.remove(&handle.cell);
    }

    /// Calls `PtrWeakHashSet::contains`: the set is searched by pointer. The handle
    /// that is passed keeps its cell alive, so an entry for it has not expired.
    #[verifier::external_body]
    pub(crate) fn contains(&self, handle: &Handle) -> (r: bool)
        ensures
            r == held(*self).contains(*handle),
    {
        self.inner.contains(&handle.cell)
    }

    /// Calls `PtrWeakHashSet::remove_expired`: only entries whose owner is gone are
    /// dropped, which no later call can tell.
    #[verifier::external_body]
    pub(crate) fn remove_expired(&mut self)
        ensures
            held(*final(self)) == held(*old(self)),
    {
        self.inner.remove_expired();
    }

    /// Calls `PtrWeakHashSet::iter`, which walks the entries that are still alive,
    /// each once and in an order that is left open. Those of `kept` are alive: the
    /// symbols are borrowed for the call and own their handles.
    #[verifier::external_body]
    pub(crate) fn live(&self, kept: &Vec<Option<Symbol>>) -> (r: Vec<Handle>)
        ensures
            forall|i: int| 0 <= i < r.len() ==> held(*self).contains(#[trigger] r@[i]),
            forall|i: int, j: int| 0 <= i < j < r.len() ==> r@[i] != r@[j],
            forall|i: int|
                0 <= i < kept.len() && (#[trigger] kept@[i]) is Some && held(*self).contains(
                    kept@[i]->0.handle,
                ) ==> r@.contains(kept@[i]->0.handle),
    {
        let _ = kept;
        self.inner.iter().map(|cell| Handle { cell }).collect()
    }
}

/// Symbols that one object declares on another under a name, section by section.
#[derive(Debug)]
pub struct ExtDeclaration {
    pub name: String,
    pub section: u32,
    pub symbols: Vec<SymbolId>,
}

/// A map from handles to declarations that keeps none of its keys alive.
#[verifier::external_body]
pub struct HandleMap {
    inner: PtrWeakKeyHashMap<Weak<HandleCell>, Vec<ExtDeclaration>>,
}

/// What was stored in `map` last for each handle.
pub uninterp spec fn stored(map: HandleMap) -> Map<Handle, Seq<ExtDeclaration>>;

impl HandleMap {
    /// Calls `PtrWeakKeyHashMap::new`: an empty map.
    #[verifier::external_body]
    pub(crate) fn new() -> (r: HandleMap)
        ensures
            stored(r).dom() == Set::<Handle>::empty(),
    {
        HandleMap { inner: PtrWeakKeyHashMap::new() }
    }

    /// Calls `PtrWeakKeyHashMap::insert`: `value` is stored for the handle, in place
    /// of what was there.
    #[verifier::external_body]
    pub(crate) fn insert(&mut self, handle: &Handle, value: Vec<ExtDeclaration>)
        ensures
            stored(*final(self)) == stored(*old(self)).insert(*handle, value@),
    {
        self.inner.insert(Rc::clone(&handle.cell), value);
    }

    /// Calls `PtrWeakKeyHashMap::get`: what is stored for the handle, searched by
    /// pointer. The handle that is passed keeps its cell alive, so an entry for it
    /// has not expired.
    #[verifier::external_body]
    pub(crate) fn get(&self, handle: &Handle) -> (r: Option<&Vec<ExtDeclaration>>)
        ensures
            r is Some == stored(*self).contains_key(*handle),
            r is Some ==> r->0@ == stored(*self)[*handle],
    {
        self.inner.get(&handle.cell)
    }
}

} // verus!
