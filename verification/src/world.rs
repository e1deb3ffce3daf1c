//! The entity-component store.
//!
//! Entities are integer handles into parallel component storages, one
//! optional record per entity and component kind. Systems query and
//! mutate the storages of the components they work on.

use vstd::prelude::*;

use crate::components::Blob;
use crate::components::BlocksTile;
use crate::components::CombatStats;
use crate::components::Color;
use crate::components::Entity;
use crate::components::Heal;
use crate::components::Inventory;
use crate::components::Item;
use crate::components::Name;
use crate::components::Player;
use crate::components::Position;
use crate::components::Renderable;
use crate::components::SufferDamage;
use crate::components::Viewshed;
use crate::components::WantsToMelee;
use crate::components::WantsToPickupItem;

verus! {

/// The world: one slot per entity in each component storage. A slot
/// holds `None` (or `false` for a pure tag) when the entity lacks
/// that component. Deleted entities keep their slots but are marked
/// dead and lose every component.
pub struct World {
    pub alive: Vec<bool>,
    pub positions: Vec<Option<Position>>,
    pub renderables: Vec<Option<Renderable>>,
    pub players: Vec<bool>,
    pub blobs: Vec<bool>,
    pub viewsheds: Vec<Option<Viewshed>>,
    pub names: Vec<Option<Name>>,
    pub blocks_tiles: Vec<bool>,
    pub combat_stats: Vec<Option<CombatStats>>,
    pub wants_melee: Vec<Option<WantsToMelee>>,
    pub suffer_damage: Vec<Option<SufferDamage>>,
    pub items: Vec<bool>,
    pub heals: Vec<Option<Heal>>,
    pub inventories: Vec<Option<Inventory>>,
    pub wants_pickup: Vec<Option<WantsToPickupItem>>,
}

impl World {
    /// The number of entity slots ever created.
    pub open spec fn n(self) -> int {
        self.alive@.len() as int
    }

    /// All component storages cover the same entities.
    pub open spec fn wf(self) -> bool {
        &&& self.positions@.len() == self.n()
        &&& self.renderables@.len() == self.n()
        &&& self.players@.len() == self.n()
        &&& self.blobs@.len() == self.n()
        &&& self.viewsheds@.len() == self.n()
        &&& self.names@.len() == self.n()
        &&& self.blocks_tiles@.len() == self.n()
        &&& self.combat_stats@.len() == self.n()
        &&& self.wants_melee@.len() == self.n()
        &&& self.suffer_damage@.len() == self.n()
        &&& self.items@.len() == self.n()
        &&& self.heals@.len() == self.n()
        &&& self.inventories@.len() == self.n()
        &&& self.wants_pickup@.len() == self.n()
    }

    /// Whether `e` names a live entity.
    pub open spec fn live(self, e: int) -> bool {
        0 <= e < self.n() && self.alive@[e]
    }

    /// An item is never both on the map and in an inventory.
    pub open spec fn inv_positions_exclusive(self) -> bool {
        forall|e: int|
            0 <= e < self.n() && (#[trigger] self.inventories@[e]) is Some
                ==> self.positions@[e] is None
    }

    /// Creates an empty world with no entities.
    pub fn new() -> (w: World)
        ensures
            w.wf(),
            w.n() == 0,
    {
        World {
            alive: Vec::new(),
            positions: Vec::new(),
            renderables: Vec::new(),
            players: Vec::new(),
            blobs: Vec::new(),
            viewsheds: Vec::new(),
            names: Vec::new(),
            blocks_tiles: Vec::new(),
            combat_stats: Vec::new(),
            wants_melee: Vec::new(),
            suffer_damage: Vec::new(),
            items: Vec::new(),
            heals: Vec::new(),
            inventories: Vec::new(),
            wants_pickup: Vec::new(),
        }
    }

    /// The number of entity slots, as a machine integer.
    pub fn len(&self) -> (r: usize)
        requires
            self.wf(),
        ensures
            r == self.n(),
    {
        self.alive.len()
    }

    /// Creates a fresh live entity with no components and returns its
    /// handle, which is the next unused slot.
    pub fn create_entity(&mut self) -> (e: Entity)
        requires
            old(self).wf(),
            old(self).n() < usize::MAX,
        ensures
            final(self).wf(),
            e == old(self).n(),
            final(self).n() == old(self).n() + 1,
            final(self).alive@ == old(self).alive@.push(true),
            final(self).positions@ == old(self).positions@.push(Option::None),
            final(self).renderables@ == old(self).renderables@.push(Option::None),
            final(self).players@ == old(self).players@.push(false),
            final(self).blobs@ == old(self).blobs@.push(false),
            final(self).viewsheds@ == old(self).viewsheds@.push(Option::None),
            final(self).names@ == old(self).names@.push(Option::None),
            final(self).blocks_tiles@ == old(self).blocks_tiles@.push(false),
            final(self).combat_stats@ == old(self).combat_stats@.push(Option::None),
            final(self).wants_melee@ == old(self).wants_melee@.push(Option::None),
            final(self).suffer_damage@ == old(self).suffer_damage@.push(Option::None),
            final(self).items@ == old(self).items@.push(false),
            final(self).heals@ == old(self).heals@.push(Option::None),
            final(self).inventories@ == old(self).inventories@.push(Option::None),
            final(self).wants_pickup@ == old(self).wants_pickup@.push(Option::None),
    {
        let e = self.alive.len();
        self.alive.push(true);
        self.positions.push(None);
        self.renderables.push(None);
        self.players.push(false);
        self.blobs.push(false);
        self.viewsheds.push(None);
        self.names.push(None);
        self.blocks_tiles.push(false);
        self.combat_stats.push(None);
        self.wants_melee.push(None);
        self.suffer_damage.push(None);
        self.items.push(false);
        self.heals.push(None);
        self.inventories.push(None);
        self.wants_pickup.push(None);
        e
    }

    /// Removes an entity from the world: it is marked dead and every
    /// component it held is dropped. The handle is never reused.
    pub fn delete_entity(&mut self, e: Entity)
        requires
            old(self).wf(),
            e < old(self).n(),
        ensures
            final(self).wf(),
            final(self).n() == old(self).n(),
            final(self).alive@ == old(self).alive@.update(e as int, false),
            final(self).positions@ == old(self).positions@.update(e as int, Option::None),
            final(self).renderables@ == old(self).renderables@.update(e as int, Option::None),
            final(self).players@ == old(self).players@.update(e as int, false),
            final(self).blobs@ == old(self).blobs@.update(e as int, false),
            final(self).viewsheds@ == old(self).viewsheds@.update(e as int, Option::None),
            final(self).names@ == old(self).names@.update(e as int, Option::None),
            final(self).blocks_tiles@ == old(self).blocks_tiles@.update(e as int, false),
            final(self).combat_stats@ == old(self).combat_stats@.update(e as int, Option::None),
            final(self).wants_melee@ == old(self).wants_melee@.update(e as int, Option::None),
            final(self).suffer_damage@ == old(self).suffer_damage@.update(e as int, Option::None),
            final(self).items@ == old(self).items@.update(e as int, false),
            final(self).heals@ == old(self).heals@.update(e as int, Option::None),
            final(self).inventories@ == old(self).inventories@.update(e as int, Option::None),
            final(self).wants_pickup@ == old(self).wants_pickup@.update(e as int, Option::None),
    {
        self.alive.set(e, false);
        self.positions.set(e, None);
        self.renderables.set(e, None);
        self.players.set(e, false);
        self.blobs.set(e, false);
        self.viewsheds.set(e, None);
        self.names.set(e, None);
        self.blocks_tiles.set(e, false);
        self.combat_stats.set(e, None);
        self.wants_melee.set(e, None);
        self.suffer_damage.set(e, None);
        self.items.set(e, false);
        self.heals.set(e, None);
        self.inventories.set(e, None);
        self.wants_pickup.set(e, None);
    }
}

} // verus!
