//! The inventory resolver: turns pending pickup requests into
//! ownership transfers.

use vstd::prelude::*;

use crate::components::Entity;
use crate::components::Inventory;
use crate::world::World;

verus! {

/// Whether some collector among the first `k` requested item `it`
/// this tick.
pub open spec fn picked_upto(w: World, it: int, k: int) -> bool {
    exists|e: int|
        0 <= e < k && (#[trigger] w.wants_pickup@[e]) is Some && w.wants_pickup@[e]->Some_0.item
            == it
}

/// The collector that ends up owning item `it` when the first `k`
/// requests are resolved in order: the latest request wins.
pub open spec fn last_collector_upto(w: World, it: int, k: int) -> Entity
    decreases k,
{
    if k <= 0 {
        0 as Entity
    } else if w.wants_pickup@[k - 1] is Some && w.wants_pickup@[k - 1]->Some_0.item == it {
        w.wants_pickup@[k - 1]->Some_0.collected_by
    } else {
        last_collector_upto(w, it, k - 1)
    }
}

/// Every pending pickup request names an item inside the world.
pub open spec fn pickup_targets_valid(w: World) -> bool {
    forall|e: int|
        0 <= e < w.n() && (#[trigger] w.wants_pickup@[e]) is Some ==> 0 <= w.wants_pickup@[
            e
        ]->Some_0.item < w.n()
}

/// The inventory resolver. Runs last in the tick's pipeline.
pub struct ItemCollectionSystem {}

impl ItemCollectionSystem {
    /// Resolves every pending pickup in collector order: each
    /// requested item loses its position — it leaves the map — and
    /// gains an inventory record naming its collector; with several
    /// requests for one item the last collector wins. All requests
    /// are cleared afterwards.
    pub fn run(&mut self, world: &mut World)
        requires
            old(world).wf(),
            pickup_targets_valid(*old(world)),
        ensures
            final(world).wf(),
            final(world).n() == old(world).n(),
            final(world).alive == old(world).alive,
            final(world).renderables == old(world).renderables,
            final(world).players == old(world).players,
            final(world).blobs == old(world).blobs,
            final(world).viewsheds == old(world).viewsheds,
            final(world).names == old(world).names,
            final(world).blocks_tiles == old(world).blocks_tiles,
            final(world).combat_stats == old(world).combat_stats,
            final(world).wants_melee == old(world).wants_melee,
            final(world).suffer_damage == old(world).suffer_damage,
            final(world).items == old(world).items,
            final(world).heals == old(world).heals,
            forall|e: int| 0 <= e < old(world).n() ==> final(world).wants_pickup@[e] is None,
            forall|it: int|
                0 <= it < old(world).n() ==> if picked_upto(*old(world), it, old(world).n()) {
                    final(world).positions@[it] is None && final(world).inventories@[it] == Some(
                        (Inventory {
                            owner: last_collector_upto(*old(world), it, old(world).n()),
                        }),
                    )
                } else {
                    final(world).positions@[it] == old(world).positions@[it]
                        && final(world).inventories@[it] == old(world).inventories@[it]
                },
            old(world).inv_positions_exclusive() ==> final(world).inv_positions_exclusive(),
    {
        let n = world.len();
        let mut e: usize = 0;
        while e < n
            invariant
                world.wf(),
                n == world.n(),
                e <= n,
                pickup_targets_valid(*old(world)),
                world.alive == old(world).alive,
                world.renderables == old(world).renderables,
                world.players == old(world).players,
                world.blobs == old(world).blobs,
                world.viewsheds == old(world).viewsheds,
                world.names == old(world).names,
                world.blocks_tiles == old(world).blocks_tiles,
                world.combat_stats == old(world).combat_stats,
                world.wants_melee == old(world).wants_melee,
                world.suffer_damage == old(world).suffer_damage,
                world.items == old(world).items,
                world.heals == old(world).heals,
                world.wants_pickup == old(world).wants_pickup,
                forall|it: int|
                    0 <= it < n ==> if picked_upto(*old(world), it, e as int) {
                        world.positions@[it] is None && world.inventories@[it] == Some(
                            (Inventory {
                                owner: last_collector_upto(*old(world), it, e as int),
                            }),
                        )
                    } else {
                        world.positions@[it] == old(world).positions@[it] && world.inventories@[it]
                            == old(world).inventories@[it]
                    },
            decreases n - e,
        {
            let ghost prev = *world;
            if let Some(pickup) = world.wants_pickup[e] {
                world.positions.set(pickup.item, None);
                world.inventories.set(pickup.item, Some(Inventory { owner: pickup.collected_by }));
            }
            proof {
                assert forall|it: int|
                    0 <= it < n implies if picked_upto(*old(world), it, e as int + 1) {
                    world.positions@[it] is None && world.inventories@[it] == Some(
                        (Inventory { owner: last_collector_upto(*old(world), it, e as int + 1) }),
                    )
                } else {
                    world.positions@[it] == old(world).positions@[it] && world.inventories@[it]
                        == old(world).inventories@[it]
                } by {
                    let w0 = *old(world);
                    if w0.wants_pickup@[e as int] is Some && w0.wants_pickup@[e as int]->Some_0.item
                        == it {
                        assert(picked_upto(w0, it, e as int + 1)) by {
                            assert((w0.wants_pickup@[e as int]) is Some);
                        }
                        assert(last_collector_upto(w0, it, e as int + 1) == w0.wants_pickup@[
                            e as int
                        ]->Some_0.collected_by);
                    } else {
                        assert(picked_upto(w0, it, e as int + 1) == picked_upto(w0, it, e as int))
                            by {
                            if picked_upto(w0, it, e as int) {
                                let w = choose|e2: int|
                                    0 <= e2 < e as int && (#[trigger] w0.wants_pickup@[e2]) is Some
                                        && w0.wants_pickup@[e2]->Some_0.item == it;
                                assert(0 <= w < e as int + 1 && (w0.wants_pickup@[w]) is Some
                                    && w0.wants_pickup@[w]->Some_0.item == it);
                            }
                            if picked_upto(w0, it, e as int + 1) {
                                let w = choose|e2: int|
                                    0 <= e2 < e as int + 1 && (#[trigger] w0.wants_pickup@[e2])
                                        is Some && w0.wants_pickup@[e2]->Some_0.item == it;
                                assert(w != e as int);
                                assert(0 <= w < e as int && (w0.wants_pickup@[w]) is Some
                                    && w0.wants_pickup@[w]->Some_0.item == it);
                            }
                        }
                        assert(last_collector_upto(w0, it, e as int + 1) == last_collector_upto(
                            w0,
                            it,
                            e as int,
                        ));
                        if !(prev.wants_pickup@[e as int] is Some
                            && prev.wants_pickup@[e as int]->Some_0.item == it) {
                            assert(world.positions@[it] == prev.positions@[it]
                                && world.inventories@[it] == prev.inventories@[it]);
                        }
                    }
                }
            }
            e = e + 1;
        }
        let mut e2: usize = 0;
        while e2 < n
            invariant
                world.wf(),
                n == world.n(),
                e2 <= n,
                world.alive == old(world).alive,
                world.renderables == old(world).renderables,
                world.players == old(world).players,
                world.blobs == old(world).blobs,
                world.viewsheds == old(world).viewsheds,
                world.names == old(world).names,
                world.blocks_tiles == old(world).blocks_tiles,
                world.combat_stats == old(world).combat_stats,
                world.wants_melee == old(world).wants_melee,
                world.suffer_damage == old(world).suffer_damage,
                world.items == old(world).items,
                world.heals == old(world).heals,
                
                forall|j: int| 0 <= j < e2 ==> world.wants_pickup@[j] is None,
                forall|it: int|
                    0 <= it < n ==> if picked_upto(*old(world), it, n as int) {
                        world.positions@[it] is None && world.inventories@[it] == Some(
                            (Inventory {
                                owner: last_collector_upto(*old(world), it, n as int),
                            }),
                        )
                    } else {
                        world.positions@[it] == old(world).positions@[it] && world.inventories@[it]
                            == old(world).inventories@[it]
                    },
            decreases n - e2,
        {
            world.wants_pickup.set(e2, None);
            e2 = e2 + 1;
        }
        proof {
            if old(world).inv_positions_exclusive() {
                assert forall|it: int|
                    0 <= it < world.n() && (#[trigger] world.inventories@[it]) is Some implies
                    world.positions@[it] is None by {
                    if !picked_upto(*old(world), it, n as int) {
                        assert(old(world).inventories@[it] is Some);
                    }
                }
            }
        }
    }
}

} // verus!
