//! The occupancy indexer: rebuilds the map's occupancy bitmap and
//! per-tile content lists from the entities' current positions.

use vstd::prelude::*;

use crate::components::Entity;
use crate::map::GameMap;
use crate::map::is_solid;
use crate::world::World;

verus! {

/// Whether some live blocking entity among the first `k` stands on
/// tile `idx`.
pub open spec fn blocker_at_upto(w: World, width: int, idx: int, k: int) -> bool {
    exists|e: int|
        0 <= e < k && w.live(e) && (#[trigger] w.positions@[e]) is Some && w.blocks_tiles@[e]
            && w.positions@[e]->Some_0.y * width + w.positions@[e]->Some_0.x == idx
}

/// Whether some live blocking entity stands on tile `idx`.
pub open spec fn blocker_at(w: World, width: int, idx: int) -> bool {
    blocker_at_upto(w, width, idx, w.n())
}

/// The content list tile `idx` receives from the first `k` entities:
/// every live entity standing on the tile, in ascending handle order.
pub open spec fn content_upto(w: World, width: int, idx: int, k: int) -> Seq<Entity>
    decreases k,
{
    if k <= 0 {
        Seq::empty()
    } else {
        let prev = content_upto(w, width, idx, k - 1);
        if w.live(k - 1) && w.positions@[k - 1] is Some && w.positions@[k - 1]->Some_0.y * width
            + w.positions@[k - 1]->Some_0.x == idx {
            prev.push((k - 1) as Entity)
        } else {
            prev
        }
    }
}

/// Every live entity that has a position stands on the grid.
pub open spec fn positions_in_bounds(w: World, m: GameMap) -> bool {
    forall|e: int|
        0 <= e < w.n() && (#[trigger] w.positions@[e]) is Some ==> m.in_bounds(
            w.positions@[e]->Some_0.x as int,
            w.positions@[e]->Some_0.y as int,
        )
}

/// The occupancy indexer. Run once per tick, after movement and
/// before combat, so range checks and pathing see this tick's
/// positions.
pub struct MapIndexingSystem {}

impl MapIndexingSystem {
    /// Rebuilds the occupancy bitmap and the per-tile content lists.
    /// Afterwards a tile is occupied exactly when its tile type is
    /// solid or a live blocking entity stands on it, and each tile's
    /// content list holds exactly the live entities standing on it.
    pub fn run(&mut self, world: &World, map: &mut GameMap)
        requires
            world.wf(),
            old(map).wf(),
            positions_in_bounds(*world, *old(map)),
        ensures
            final(map).wf(),
            final(map).tiles == old(map).tiles,
            final(map).rooms == old(map).rooms,
            final(map).width == old(map).width,
            final(map).height == old(map).height,
            final(map).occupied@.len() == old(map).occupied@.len(),
            final(map).tile_content@.len() == old(map).tile_content@.len(),
            forall|idx: int|
                0 <= idx < final(map).count() ==> final(map).occupied@[idx] == (is_solid(
                    final(map).tiles@[idx],
                ) || blocker_at(*world, final(map).width as int, idx)),
            forall|idx: int|
                0 <= idx < final(map).count() ==> final(map).tile_content@[idx]@ == content_upto(
                    *world,
                    final(map).width as int,
                    idx,
                    world.n(),
                ),
    {
        map.occupied();
        map.clear_content_index();
        let n = world.len();
        let mut e: usize = 0;
        while e < n
            invariant
                world.wf(),
                map.wf(),
                n == world.n(),
                e <= n,
                positions_in_bounds(*world, *map),
                map.tiles == old(map).tiles,
                map.rooms == old(map).rooms,
                map.width == old(map).width,
                map.height == old(map).height,
                map.occupied@.len() == old(map).occupied@.len(),
                map.tile_content@.len() == old(map).tile_content@.len(),
                forall|idx: int|
                    0 <= idx < map.count() ==> map.occupied@[idx] == (is_solid(map.tiles@[idx])
                        || blocker_at_upto(*world, map.width as int, idx, e as int)),
                forall|idx: int|
                    0 <= idx < map.count() ==> map.tile_content@[idx]@ == content_upto(
                        *world,
                        map.width as int,
                        idx,
                        e as int,
                    ),
            decreases n - e,
        {
            if world.alive[e] {
                if let Some(pos) = world.positions[e] {
                    let idx = map.index(pos.x, pos.y);
                    if world.blocks_tiles[e] {
                        map.occupied.set(idx, true);
                    }
                    let content = &mut map.tile_content[idx];
                    content.push(e);
                }
            }
            proof {
                assert forall|idx2: int| 0 <= idx2 < map.count() implies map.tile_content@[idx2]@
                    == content_upto(*world, map.width as int, idx2, e as int + 1) by {
                    let wi = map.width as int;
                    let ei = e as int;
                    if world.live(ei) && world.positions@[ei] is Some
                        && world.positions@[ei]->Some_0.y * wi + world.positions@[ei]->Some_0.x
                        == idx2 {
                        assert(content_upto(*world, wi, idx2, ei + 1) == content_upto(
                            *world,
                            wi,
                            idx2,
                            ei,
                        ).push(e));
                    } else {
                        assert(content_upto(*world, wi, idx2, ei + 1) == content_upto(
                            *world,
                            wi,
                            idx2,
                            ei,
                        ));
                    }
                }
                assert forall|idx2: int|
                    0 <= idx2 < map.count() implies map.occupied@[idx2] == (is_solid(
                    map.tiles@[idx2],
                ) || blocker_at_upto(*world, map.width as int, idx2, e as int + 1)) by {
                    if map.occupied@[idx2] && !is_solid(map.tiles@[idx2]) {
                        if blocker_at_upto(*world, map.width as int, idx2, e as int) {
                            let w = choose|e2: int|
                                0 <= e2 < e && world.live(e2) && (#[trigger] world.positions@[e2])
                                    is Some && world.blocks_tiles@[e2]
                                    && world.positions@[e2]->Some_0.y * (map.width as int)
                                    + world.positions@[e2]->Some_0.x == idx2;
                            assert(0 <= w < e as int + 1 && world.live(w) && world.positions@[w]
                                is Some && world.blocks_tiles@[w]
                                && world.positions@[w]->Some_0.y * (map.width as int)
                                + world.positions@[w]->Some_0.x == idx2);
                        }
                    }
                }
            }
            e = e + 1;
        }
    }
}

} // verus!
