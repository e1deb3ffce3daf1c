//! Component records that can be attached to entities.
//!
//! An entity is an opaque integer handle; all of its state lives in
//! the component storages of the world, one optional record per
//! component kind and entity.

use vstd::prelude::*;

verus! {

/// An entity handle: an index into the world's component storages.
pub type Entity = usize;

/// A grid coordinate. Held by every entity that is present on the map.
#[derive(Clone, Copy, PartialEq, Eq, Structural, Debug)]
pub struct Position {
    pub x: i32,
    pub y: i32,
}

/// A named colour used by the presentation layer.
#[derive(Clone, Copy, PartialEq, Eq, Structural, Debug)]
pub enum Color {
    Red,
    Blue,
    Purple,
    Yellow,
    Grey,
    White,
    Black,
}

/// Presentation data: the glyph and colours an entity is drawn with.
/// Carried through entity creation; the engine itself never reads it.
#[derive(Clone, Copy, PartialEq, Eq, Structural, Debug)]
pub struct Renderable {
    pub glyph: char,
    pub fg: Color,
    pub bg: Color,
}

/// Marks the player entity.
#[derive(Clone, Copy, PartialEq, Eq, Structural, Debug)]
pub struct Player {}

/// Marks a hostile entity.
#[derive(Clone, Copy, PartialEq, Eq, Structural, Debug)]
pub struct Blob {}

/// The set of tiles an entity can currently see, together with its
/// sight range. Recomputed every tick by the visibility system.
#[derive(Clone, Debug)]
pub struct Viewshed {
    pub visible_tiles: Vec<Position>,
    pub range: i32,
}

/// A display name. The string is also the taxonomy key for loot
/// drops: the generic name drops a healing item, any other name a
/// crystal of the matching colour.
#[derive(Clone, Debug)]
pub struct Name {
    pub name: String,
}

/// Marks an entity whose tile cannot be entered by others.
#[derive(Clone, Copy, PartialEq, Eq, Structural, Debug)]
pub struct BlocksTile {}

/// Hit points of a combatant. `hp` may go non-positive transiently
/// between damage application and lifecycle resolution.
#[derive(Clone, Copy, PartialEq, Eq, Structural, Debug)]
pub struct CombatStats {
    pub max_hp: i32,
    pub hp: i32,
}

/// A pending melee attack against `target`, at most one per attacker
/// per tick; cleared when the melee system runs.
#[derive(Clone, Copy, PartialEq, Eq, Structural, Debug)]
pub struct WantsToMelee {
    pub target: Entity,
}

/// Damage accumulated against a victim within one tick. Every attacker
/// appends its own entry; the damage system applies the sum and clears
/// the record.
#[derive(Clone, Debug)]
pub struct SufferDamage {
    pub amount: Vec<i32>,
}

impl SufferDamage {
    /// Records `amount` points of pending damage against `victim`,
    /// appending to the victim's accumulator or starting a fresh one.
    pub fn new_damage(store: &mut Vec<Option<SufferDamage>>, victim: Entity, amount: i32)
        requires
            victim < old(store)@.len(),
            0 <= amount,
        ensures
            final(store)@.len() == old(store)@.len(),
            final(store)@[victim as int] is Some,
            final(store)@[victim as int]->Some_0.amount@ == damage_seq_of(
                old(store)@[victim as int],
            ).push(amount),
            forall|j: int|
                0 <= j < old(store)@.len() && j != victim ==> final(store)@[j] == old(store)@[j],
    {
        let slot = &mut store[victim];
        match slot {
            Some(suffering) => {
                suffering.amount.push(amount);
            },
            None => {
                let mut v: Vec<i32> = Vec::new();
                v.push(amount);
                *slot = Some(SufferDamage { amount: v });
            },
        }
    }
}

/// The damage entries already recorded in an accumulator slot: its
/// list when present, and the empty sequence for an absent record.
pub open spec fn damage_seq_of(slot: Option<SufferDamage>) -> Seq<i32> {
    match slot {
        Some(s) => s.amount@,
        None => Seq::empty(),
    }
}

/// Marks an entity that can be picked up.
#[derive(Clone, Copy, PartialEq, Eq, Structural, Debug)]
pub struct Item {}

/// The healing power an item carries when consumed.
#[derive(Clone, Copy, PartialEq, Eq, Structural, Debug)]
pub struct Heal {
    pub heal_amount: i32,
}

/// Ownership of a picked-up item: present exactly while the item is
/// off the map, and records who carries it.
#[derive(Clone, Copy, PartialEq, Eq, Structural, Debug)]
pub struct Inventory {
    pub owner: Entity,
}

/// A pending pickup request, at most one per collector per tick;
/// cleared when the inventory system runs.
#[derive(Clone, Copy, PartialEq, Eq, Structural, Debug)]
pub struct WantsToPickupItem {
    pub collected_by: Entity,
    pub item: Entity,
}

} // verus!
