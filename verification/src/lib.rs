//! An in-memory entity-component store.
//!
//! The store keeps a presence bitmask per entity slot, one column of optional
//! component values per registered kind, and answers boolean-AND queries over
//! the presence masks.  A separate key-indexed resource map holds singleton
//! values.  `World` bundles the two behind one facade: component kinds and
//! resources are identified by caller-chosen `u64` keys, component values have
//! the caller-chosen type `C` and resources the type `R`.

use vstd::prelude::*;

pub mod entity;
pub mod resources;

use crate::entity::query::Query;
use crate::entity::{EcsError, Entites, StoreModel};
use crate::resources::Resource;

verus! {

/// Mathematical model of a [`World`]: the entity store's model together with
/// the resource map.
pub ghost struct WorldModel<C, R> {
    pub entities: StoreModel<C>,
    pub resources: Map<u64, R>,
}

/// Facade over the entity store and the resource map.
pub struct World<C, R> {
    resources: Resource<R>,
    entities: Entites<C>,
}

impl<C, R> View for World<C, R> {
    type V = WorldModel<C, R>;

    closed spec fn view(&self) -> WorldModel<C, R> {
        WorldModel { entities: self.entities@, resources: self.resources@ }
    }
}

impl<C, R> World<C, R> {
    /// Structural well-formedness carried by every `World` built through this
    /// API.
    pub closed spec fn inv(self) -> bool {
        &&& self.entities@.inv()
        &&& self.resources.inv()
    }

    /// A world with no registered kinds, no slots and no resources.
    pub fn new() -> (r: Self)
        ensures
            r.inv(),
            r@.entities.kinds == Seq::<u64>::empty(),
            r@.entities.masks == Seq::<u32>::empty(),
            r@.entities.columns == Seq::<Seq<Option<C>>>::empty(),
            r@.resources == Map::<u64, R>::empty(),
    {
        World { resources: Resource::new(), entities: Entites::new() }
    }

    /// Stores `data` as the resource under `key`, replacing any value already
    /// there.
    pub fn add_resouce(&mut self, key: u64, data: R)
        requires
            old(self).inv(),
        ensures
            final(self).inv(),
            final(self)@.entities == old(self)@.entities,
            final(self)@.resources == old(self)@.resources.insert(key, data),
    {
        self.resources.add(key, data);
    }

    /// A reference to the resource under `key`, or `None` if there is none.
    pub fn get_resource(&self, key: u64) -> (r: Option<&R>)
        requires
            self.inv(),
        ensures
            r is Some <==> self@.resources.dom().contains(key),
            r matches Some(v) ==> *v == self@.resources[key],
    {
        self.resources.get_ref(key)
    }

    /// A mutable reference to the resource under `key`; the map afterwards
    /// holds whatever value the caller leaves behind the reference.
    pub fn get_resource_mut(&mut self, key: u64) -> (r: &mut R)
        requires
            old(self).inv(),
            old(self)@.resources.dom().contains(key),
        ensures
            final(self).inv(),
            *r == old(self)@.resources[key],
            final(self)@.entities == old(self)@.entities,
            final(self)@.resources == old(self)@.resources.insert(key, *final(r)),
    {
        self.resources.get_mut(key)
    }

    /// Whether a resource is stored under `key`.
    pub fn contains_resource(&self, key: u64) -> (r: bool)
        requires
            self.inv(),
        ensures
            r == self@.resources.dom().contains(key),
    {
        self.resources.contains(key)
    }

    /// Discards the resource under `key`, if any.
    pub fn delete_resource(&mut self, key: u64)
        requires
            old(self).inv(),
        ensures
            final(self).inv(),
            final(self)@.entities == old(self)@.entities,
            final(self)@.resources == old(self)@.resources.remove(key),
    {
        self.resources.remove(key);
    }

    /// Assigns the next unused power-of-two bitmask to the component kind
    /// `kind` and creates an empty column entry for it in every existing slot.
    /// Registering a key that is already registered leaves the store
    /// unchanged; at most 32 kinds fit in the mask, and the precondition
    /// enforces that ceiling.
    pub fn register_component(&mut self, kind: u64)
        requires
            old(self).inv(),
            old(self)@.entities.is_registered(kind) || old(self)@.entities.num_kinds() < 32,
        ensures
            final(self).inv(),
            final(self)@.resources == old(self)@.resources,
            old(self)@.entities.is_registered(kind) ==> final(self)@.entities == old(
                self,
            )@.entities,
            !old(self)@.entities.is_registered(kind) ==> {
                &&& final(self)@.entities.kinds == old(self)@.entities.kinds.push(kind)
                &&& final(self)@.entities.masks == old(self)@.entities.masks
                &&& final(self)@.entities.columns == old(self)@.entities.columns.push(
                    Seq::new(old(self)@.entities.slot_count(), |i: int| None::<C>),
                )
                &&& final(self)@.entities.cursor == old(self)@.entities.cursor
                &&& final(self)@.entities.is_registered(kind)
                &&& final(self)@.entities.mask_of(kind) == 1u32 << (old(
                    self,
                )@.entities.num_kinds() as u32)
            },
    {
        self.entities.register_component(kind);
    }

    /// Finds the lowest tombstoned slot, or appends a fresh one, and points
    /// the construction cursor at it.  Returns the entity store so that
    /// attach calls can follow.
    pub fn create_entity(&mut self) -> (r: &mut Entites<C>)
        requires
            old(self).inv(),
        ensures
            (*r)@.inv(),
            (*r)@.kinds == old(self)@.entities.kinds,
            (exists|i: int|
                0 <= i < old(self)@.entities.slot_count() && old(self)@.entities.masks[i]
                    == 0) ==> {
                &&& (*r)@.masks == old(self)@.entities.masks
                &&& (*r)@.columns == old(self)@.entities.columns
                &&& 0 <= (*r)@.cursor < (*r)@.slot_count()
                &&& old(self)@.entities.masks[(*r)@.cursor] == 0
                &&& forall|j: int| 0 <= j < (*r)@.cursor ==> old(self)@.entities.masks[j] != 0
            },
            (forall|i: int|
                0 <= i < old(self)@.entities.slot_count() ==> old(self)@.entities.masks[i]
                    != 0) ==> {
                &&& (*r)@.masks == old(self)@.entities.masks.push(0u32)
                &&& (*r)@.columns == Seq::new(
                    old(self)@.entities.columns.len(),
                    |k: int| old(self)@.entities.columns[k].push(None),
                )
                &&& (*r)@.cursor == old(self)@.entities.slot_count()
            },
            final(self)@.entities == final(r)@,
            final(self)@.resources == old(self)@.resources,
            final(r)@.inv() ==> final(self).inv(),
    {
        self.entities.create_entity()
    }

    /// A query over this world's entity store that requests nothing yet.
    pub fn query(&self) -> (r: Query<C>)
        requires
            self.inv(),
        ensures
            r.inv(),
            r@.store == self@.entities,
            r@.want == 0,
            r@.requested == Seq::<u64>::empty(),
    {
        Query::new(&self.entities)
    }

    /// Lowers the presence bit of `kind` at slot `index` if it is up.  Fails
    /// with `KindNotRegistered` for an unknown kind and with `SlotOutOfRange`
    /// for an index beyond the slots.
    pub fn delete_component_by_entity_id(&mut self, kind: u64, index: usize) -> (r: Result<
        (),
        EcsError,
    >)
        requires
            old(self).inv(),
        ensures
            final(self).inv(),
            final(self)@.resources == old(self)@.resources,
            !old(self)@.entities.is_registered(kind) ==> r == Err::<(), EcsError>(
                EcsError::KindNotRegistered,
            ) && final(self)@.entities == old(self)@.entities,
            old(self)@.entities.is_registered(kind) && index >= old(self)@.entities.slot_count()
                ==> r == Err::<(), EcsError>(EcsError::SlotOutOfRange) && final(self)@.entities
                == old(self)@.entities,
            old(self)@.entities.is_registered(kind) && index < old(self)@.entities.slot_count()
                ==> ({
                let s0 = old(self)@.entities;
                &&& r == Ok::<(), EcsError>(())
                &&& final(self)@.entities.kinds == s0.kinds
                &&& final(self)@.entities.cursor == s0.cursor
                &&& final(self)@.entities.columns == s0.columns
                &&& final(self)@.entities.masks == s0.masks.update(
                    index as int,
                    s0.mask_at(index as int) & !s0.mask_of(kind),
                )
            }),
    {
        self.entities.delete_component_by_entity_id(kind, index)
    }

    /// Writes `data` for `kind` into the explicit slot `index` and raises the
    /// kind's presence bit there.  Fails with `KindNotRegistered` for an
    /// unknown kind and with `SlotOutOfRange` for an index beyond the slots.
    pub fn add_component_to_entity_by_id(&mut self, kind: u64, data: C, index: usize) -> (r:
        Result<(), EcsError>)
        requires
            old(self).inv(),
        ensures
            final(self).inv(),
            final(self)@.resources == old(self)@.resources,
            !old(self)@.entities.is_registered(kind) ==> r == Err::<(), EcsError>(
                EcsError::KindNotRegistered,
            ) && final(self)@.entities == old(self)@.entities,
            old(self)@.entities.is_registered(kind) && index >= old(self)@.entities.slot_count()
                ==> r == Err::<(), EcsError>(EcsError::SlotOutOfRange) && final(self)@.entities
                == old(self)@.entities,
            old(self)@.entities.is_registered(kind) && index < old(self)@.entities.slot_count()
                ==> ({
                let s0 = old(self)@.entities;
                &&& r == Ok::<(), EcsError>(())
                &&& final(self)@.entities.kinds == s0.kinds
                &&& final(self)@.entities.cursor == s0.cursor
                &&& final(self)@.entities.masks == s0.masks.update(
                    index as int,
                    s0.mask_at(index as int) | s0.mask_of(kind),
                )
                &&& final(self)@.entities.columns == s0.columns.update(
                    s0.kind_pos(kind),
                    s0.columns[s0.kind_pos(kind)].update(index as int, Some(data)),
                )
            }),
    {
        self.entities.add_component_to_entity_by_id(kind, data, index)
    }

    /// Tombstones the slot: its presence mask becomes zero.  Fails with
    /// `EntityDoesNotExist` for an index beyond the slots.
    pub fn delete_entity_by_id(&mut self, index: usize) -> (r: Result<(), EcsError>)
        requires
            old(self).inv(),
        ensures
            final(self).inv(),
            final(self)@.resources == old(self)@.resources,
            index >= old(self)@.entities.slot_count() ==> r == Err::<(), EcsError>(
                EcsError::EntityDoesNotExist,
            ) && final(self)@.entities == old(self)@.entities,
            index < old(self)@.entities.slot_count() ==> {
                &&& r == Ok::<(), EcsError>(())
                &&& final(self)@.entities.kinds == old(self)@.entities.kinds
                &&& final(self)@.entities.cursor == old(self)@.entities.cursor
                &&& final(self)@.entities.columns == old(self)@.entities.columns
                &&& final(self)@.entities.masks == old(self)@.entities.masks.update(
                    index as int,
                    0u32,
                )
            },
    {
        self.entities.delete_entity_by_id(index)
    }
}

impl<C, R> Default for World<C, R> {
    /// The same world as [`World::new`] returns.
    fn default() -> (r: Self)
        ensures
            r.inv(),
            r@.entities.kinds == Seq::<u64>::empty(),
            r@.entities.masks == Seq::<u32>::empty(),
            r@.entities.columns == Seq::<Seq<Option<C>>>::empty(),
            r@.resources == Map::<u64, R>::empty(),
    {
        World::new()
    }
}

} // verus!
