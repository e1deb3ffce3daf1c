//! The enemy controller: decides attack or pursuit for each hostile.
//!
//! A hostile adjacent to the player (Euclidean distance below 1.5,
//! which on the integer grid is a squared distance of at most 2)
//! queues a melee intent and stays put. A hostile that sees the
//! player paths towards them and takes the first step of the path,
//! updating the occupancy bitmap at once so that hostiles decided
//! later in the same pass cannot claim the same tile.

use vstd::prelude::*;

use crate::components::Entity;
use crate::components::Position;
use crate::components::WantsToMelee;
use crate::map::GameMap;
use crate::map::is_solid;
use crate::map_index::blocker_at;
use crate::map_index::positions_in_bounds;
use crate::pathing::find_path;
use crate::pathing::is_path;
use crate::pathing::reachable;
use crate::world::World;

verus! {

/// Whether two tiles are within melee reach: Euclidean distance
/// strictly below one and a half, i.e. squared distance at most two.
pub open spec fn melee_range(a: Position, b: Position) -> bool {
    (a.x - b.x) * (a.x - b.x) + (a.y - b.y) * (a.y - b.y) <= 2
}

/// The linear tile offset a positioned entity stands on.
pub open spec fn pos_idx(w: World, width: int, e: int) -> int {
    w.positions@[e]->Some_0.y * width + w.positions@[e]->Some_0.x
}

/// No two live blocking entities share a tile.
pub open spec fn blockers_distinct(w: World, width: int) -> bool {
    forall|e1: int, e2: int|
        0 <= e1 < e2 < w.n() && w.live(e1) && w.live(e2) && w.blocks_tiles@[e1]
            && w.blocks_tiles@[e2] && w.positions@[e1] is Some && w.positions@[e2] is Some
            ==> #[trigger] pos_idx(w, width, e1) != #[trigger] pos_idx(w, width, e2)
}

/// No live blocking entity stands on a solid tile.
pub open spec fn blockers_on_floor(w: World, m: GameMap) -> bool {
    forall|e: int|
        0 <= e < w.n() && w.live(e) && (#[trigger] w.positions@[e]) is Some && w.blocks_tiles@[e]
            ==> !is_solid(m.tiles@[pos_idx(w, m.width as int, e)])
}

/// The occupancy bitmap covers the world: every solid tile and every
/// tile a live blocking entity stands on is marked occupied. The
/// bitmap may hold extra marks — a tile freed by a death stays marked
/// until the occupancy indexer next rebuilds it, as the pipeline
/// order dictates — so movement treats such tiles as blocked, never
/// the reverse.
pub open spec fn occ_covers(w: World, m: GameMap) -> bool {
    forall|idx: int|
        0 <= idx < m.count() && (is_solid(#[trigger] m.tiles@[idx]) || blocker_at(
            w,
            m.width as int,
            idx,
        )) ==> m.occupied@[idx]
}

/// Every live hostile carries the blocking tag, as world setup
/// guarantees; the controller relies on it when it maintains the
/// occupancy bitmap across a move.
pub open spec fn blobs_block(w: World) -> bool {
    forall|e: int| 0 <= e < w.n() && w.live(e) && (#[trigger] w.blobs@[e]) ==> w.blocks_tiles@[e]
}

/// Whether the controller acts for entity `e`: a live hostile holding
/// both a viewshed and a position.
pub open spec fn hostile_acting(w: World, e: int) -> bool {
    &&& w.live(e)
    &&& w.blobs@[e]
    &&& w.viewsheds@[e] is Some
    &&& w.positions@[e] is Some
}

/// Checks whether `v` holds the exact position `p`.
fn contains_pos(v: &Vec<Position>, p: Position) -> (r: bool)
    ensures
        r == v@.contains(p),
{
    let mut i: usize = 0;
    while i < v.len()
        invariant
            i <= v@.len(),
            forall|j: int| 0 <= j < i ==> v@[j] != p,
        decreases v@.len() - i,
    {
        if v[i].x == p.x && v[i].y == p.y {
            assert(v@[i as int] == p);
            return true;
        }
        i = i + 1;
    }
    false
}

/// One hostile's whole transition, as the controller takes it for
/// entity `e` against the state it finds: every storage but the
/// hostile's own position and melee-intent slot is untouched, and
/// the decision goes by the three cases. Within melee reach the
/// hostile queues an attack on the player and neither moves nor
/// touches the bitmap. Out of reach, with the player's tile in its
/// visible-tile set and the player's tile reachable, it stands on
/// the second node of a shortest walk to the player and its
/// occupancy bit has moved from the old tile to the new one.
/// Otherwise — no sight, or no path — nothing at all changes for it.
pub open spec fn ai_step(
    pre_w: World,
    pre_m: GameMap,
    post_w: World,
    post_m: GameMap,
    e: int,
    player_entity: Entity,
    player_pos: Position,
) -> bool {
    &&& post_w.n() == pre_w.n()
    &&& post_w.alive == pre_w.alive
    &&& post_w.renderables == pre_w.renderables
    &&& post_w.players == pre_w.players
    &&& post_w.blobs == pre_w.blobs
    &&& post_w.viewsheds == pre_w.viewsheds
    &&& post_w.names == pre_w.names
    &&& post_w.blocks_tiles == pre_w.blocks_tiles
    &&& post_w.combat_stats == pre_w.combat_stats
    &&& post_w.suffer_damage == pre_w.suffer_damage
    &&& post_w.items == pre_w.items
    &&& post_w.heals == pre_w.heals
    &&& post_w.inventories == pre_w.inventories
    &&& post_w.wants_pickup == pre_w.wants_pickup
    &&& post_m.tiles == pre_m.tiles
    &&& post_m.rooms == pre_m.rooms
    &&& post_m.width == pre_m.width
    &&& post_m.height == pre_m.height
    &&& post_m.tile_content == pre_m.tile_content
    &&& post_m.occupied@.len() == pre_m.occupied@.len()
    &&& (forall|e2: int|
        0 <= e2 < pre_w.n() && e2 != e ==> post_w.positions@[e2] == pre_w.positions@[e2]
            && post_w.wants_melee@[e2] == pre_w.wants_melee@[e2])
    &&& ({
        let pos = pre_w.positions@[e]->Some_0;
        let vs = pre_w.viewsheds@[e]->Some_0;
        let s = pre_m.idx_of(pos.x as int, pos.y as int);
        let g = pre_m.idx_of(player_pos.x as int, player_pos.y as int);
        if melee_range(pos, player_pos) {
            &&& post_w.wants_melee@ == pre_w.wants_melee@.update(
                e,
                Some((WantsToMelee { target: player_entity })),
            )
            &&& post_w.positions@ == pre_w.positions@
            &&& post_m.occupied == pre_m.occupied
        } else {
            &&& post_w.wants_melee@ == pre_w.wants_melee@
            &&& if vs.visible_tiles@.contains(player_pos) && reachable(pre_m, s, g) {
                exists|p: Seq<usize>|
                    {
                        &&& is_path(pre_m, s, g, p)
                        &&& (forall|q: Seq<usize>| is_path(pre_m, s, g, q) ==> q.len() >= p.len())
                        &&& p.len() >= 2
                        &&& post_w.positions@ == pre_w.positions@.update(
                            e,
                            Some(
                                (Position {
                                    x: pre_m.x_of(p[1] as int) as i32,
                                    y: pre_m.y_of(p[1] as int) as i32,
                                }),
                            ),
                        )
                        &&& post_m.occupied@ == pre_m.occupied@.update(s, false).update(
                            p[1] as int,
                            true,
                        )
                    }
            } else {
                &&& post_w.positions@ == pre_w.positions@
                &&& post_m.occupied == pre_m.occupied
            }
        }
    })
}

/// Runs the controller's decision for one hostile, exactly as
/// `ai_step` states it.
pub fn ai_entity(
    world: &mut World,
    map: &mut GameMap,
    e: Entity,
    player_entity: Entity,
    player_pos: Position,
)
    requires
        old(world).wf(),
        old(map).wf(),
        positions_in_bounds(*old(world), *old(map)),
        old(map).in_bounds(player_pos.x as int, player_pos.y as int),
        e < old(world).n(),
        hostile_acting(*old(world), e as int),
        blobs_block(*old(world)),
        blockers_distinct(*old(world), old(map).width as int),
        blockers_on_floor(*old(world), *old(map)),
        occ_covers(*old(world), *old(map)),
    ensures
        final(world).wf(),
        final(map).wf(),
        ai_step(
            *old(world),
            *old(map),
            *final(world),
            *final(map),
            e as int,
            player_entity,
            player_pos,
        ),
        positions_in_bounds(*final(world), *final(map)),
        blobs_block(*final(world)),
        blockers_distinct(*final(world), final(map).width as int),
        blockers_on_floor(*final(world), *final(map)),
        occ_covers(*final(world), *final(map)),
{
    let pos = match world.positions[e] {
        Some(p) => p,
        None => {
            proof {
                assert(false);
            }
            player_pos
        },
    };
    let dx = pos.x - player_pos.x;
    let dy = pos.y - player_pos.y;
    proof {
        assert(old(map).in_bounds(pos.x as int, pos.y as int));
        assert(-0x1000 < dx < 0x1000 && -0x1000 < dy < 0x1000);
        assert(-0x2000000 < dx * dx + dy * dy < 0x2000000 && dx * dx >= 0 && dy * dy >= 0)
            by (nonlinear_arith)
            requires
                -0x1000 < dx < 0x1000,
                -0x1000 < dy < 0x1000,
        ;
    }
    if dx * dx + dy * dy <= 2 {
        world.wants_melee.set(e, Some(WantsToMelee { target: player_entity }));
        return ;
    }
    let sees = match &world.viewsheds[e] {
        Some(v) => contains_pos(&v.visible_tiles, player_pos),
        None => {
            proof {
                assert(false);
            }
            false
        },
    };
    if !sees {
        return ;
    }
    let s = map.index(pos.x, pos.y);
    let g = map.index(player_pos.x, player_pos.y);
    proof {
        map.lemma_idx_of_bounds(pos.x as int, pos.y as int);
        map.lemma_idx_of_bounds(player_pos.x as int, player_pos.y as int);
    }
    let r = find_path(map, s, g);
    match r {
        Some(path) => {
            if path.len() > 1 {
                let ghost p = path@;
                let next = path[1];
                proof {
                    assert(map.step_ok(p[0] as int, p[1] as int));
                    map.lemma_idx_coords(next as int);
                    map.lemma_count_bound();
                }
                let w_us = map.width as usize;
                let nx = (next % w_us) as i32;
                let ny = (next / w_us) as i32;
                map.occupied.set(s, false);
                map.occupied.set(next, true);
                world.positions.set(e, Some(Position { x: nx, y: ny }));
                proof {
                    lemma_move_keeps_invariants(
                        *old(world),
                        *world,
                        *old(map),
                        *map,
                        e as int,
                        s as int,
                        next as int,
                    );
                    assert(nx as int == old(map).x_of(p[1] as int));
                    assert(ny as int == old(map).y_of(p[1] as int));
                    assert({
                        &&& is_path(*old(map), s as int, g as int, p)
                        &&& (forall|q: Seq<usize>|
                            is_path(*old(map), s as int, g as int, q) ==> q.len() >= p.len())
                        &&& p.len() >= 2
                        &&& world.positions@ == old(world).positions@.update(
                            e as int,
                            Some(
                                (Position {
                                    x: old(map).x_of(p[1] as int) as i32,
                                    y: old(map).y_of(p[1] as int) as i32,
                                }),
                            ),
                        )
                        &&& map.occupied@ == old(map).occupied@.update(s as int, false).update(
                            p[1] as int,
                            true,
                        )
                    });
                }
            } else {
                proof {
                    assert(path@[0] == s && path@.last() == g);
                    assert(s == g);
                    assert(pos.x == player_pos.x && pos.y == player_pos.y);
                    assert(dx == 0 && dy == 0);
                    assert(dx * dx + dy * dy == 0) by (nonlinear_arith)
                        requires
                            dx == 0,
                            dy == 0,
                    ;
                    assert(false);
                }
            }
        },
        None => {},
    }
}

/// Moving one blocking entity from tile `s` to a previously
/// unoccupied tile `next`, while carrying its occupancy bit along,
/// preserves every occupancy invariant.
proof fn lemma_move_keeps_invariants(
    pre_w: World,
    post_w: World,
    pre_m: GameMap,
    post_m: GameMap,
    e: int,
    s: int,
    next: int,
)
    requires
        pre_w.wf(),
        pre_m.wf(),
        positions_in_bounds(pre_w, pre_m),
        0 <= e < pre_w.n(),
        pre_w.live(e),
        pre_w.blocks_tiles@[e],
        pre_w.positions@[e] is Some,
        pos_idx(pre_w, pre_m.width as int, e) == s,
        blockers_distinct(pre_w, pre_m.width as int),
        blockers_on_floor(pre_w, pre_m),
        occ_covers(pre_w, pre_m),
        pre_m.step_ok(s, next),
        post_m.tiles == pre_m.tiles,
        post_m.width == pre_m.width,
        post_m.height == pre_m.height,
        post_m.occupied@ == pre_m.occupied@.update(s, false).update(next, true),
        post_w.n() == pre_w.n(),
        post_w.alive == pre_w.alive,
        post_w.blobs == pre_w.blobs,
        post_w.blocks_tiles == pre_w.blocks_tiles,
        post_w.positions@ == pre_w.positions@.update(
            e,
            Some(
                (Position { x: pre_m.x_of(next) as i32, y: pre_m.y_of(next) as i32 }),
            ),
        ),
    ensures
        positions_in_bounds(post_w, post_m),
        blockers_distinct(post_w, post_m.width as int),
        blockers_on_floor(post_w, post_m),
        occ_covers(post_w, post_m),
{
    let wi = pre_m.width as int;
    pre_m.lemma_idx_coords(s);
    pre_m.lemma_idx_coords(next);
    assert(s != next);
    assert(pos_idx(post_w, wi, e) == next);
    assert(!pre_m.occupied@[next]) by {
        assert(pre_m.idx_of(pre_m.x_of(next), pre_m.y_of(next)) == next);
    }
    assert(!is_solid(pre_m.tiles@[next]));
    assert(!blocker_at(pre_w, wi, next));
    assert(!is_solid(pre_m.tiles@[s]));
    // positions stay on the grid
    assert forall|e2: int|
        0 <= e2 < post_w.n() && (#[trigger] post_w.positions@[e2]) is Some implies post_m.in_bounds(
        post_w.positions@[e2]->Some_0.x as int,
        post_w.positions@[e2]->Some_0.y as int,
    ) by {
        if e2 != e {
            assert(post_w.positions@[e2] == pre_w.positions@[e2]);
        }
    }
    // no two blockers share a tile
    assert forall|e1: int, e2: int|
        0 <= e1 < e2 < post_w.n() && post_w.live(e1) && post_w.live(e2) && post_w.blocks_tiles@[e1]
            && post_w.blocks_tiles@[e2] && post_w.positions@[e1] is Some
            && post_w.positions@[e2] is Some implies #[trigger] pos_idx(post_w, wi, e1)
        != #[trigger] pos_idx(post_w, wi, e2) by {
        if e1 != e && e2 != e {
            assert(pos_idx(post_w, wi, e1) == pos_idx(pre_w, wi, e1));
            assert(pos_idx(post_w, wi, e2) == pos_idx(pre_w, wi, e2));
        } else {
            let other = if e1 == e {
                e2
            } else {
                e1
            };
            assert(pos_idx(post_w, wi, other) == pos_idx(pre_w, wi, other));
            if pos_idx(pre_w, wi, other) == next {
                assert(blocker_at(pre_w, wi, next));
            }
        }
    }
    // no blocker on a solid tile
    assert forall|e2: int|
        0 <= e2 < post_w.n() && post_w.live(e2) && (#[trigger] post_w.positions@[e2]) is Some
            && post_w.blocks_tiles@[e2] implies !is_solid(
        post_m.tiles@[pos_idx(post_w, wi, e2)],
    ) by {
        if e2 != e {
            assert(pos_idx(post_w, wi, e2) == pos_idx(pre_w, wi, e2));
        }
    }
    // the bitmap still covers every solid or blocked tile
    assert forall|idx: int|
        0 <= idx < post_m.count() && (is_solid(#[trigger] post_m.tiles@[idx]) || blocker_at(
            post_w,
            wi,
            idx,
        )) implies post_m.occupied@[idx] by {
        if idx == s {
            assert(!blocker_at(post_w, wi, s)) by {
                if blocker_at(post_w, wi, s) {
                    let e2 = choose|e2: int|
                        0 <= e2 < post_w.n() && post_w.live(e2) && (#[trigger] post_w.positions@[e2])
                            is Some && post_w.blocks_tiles@[e2] && post_w.positions@[e2]->Some_0.y
                            * wi + post_w.positions@[e2]->Some_0.x == s;
                    assert(e2 != e);
                    assert(pos_idx(pre_w, wi, e2) == s);
                    assert(pos_idx(pre_w, wi, e) == s);
                    assert(false);
                }
            }
        } else if idx == next {
            assert(blocker_at(post_w, wi, next)) by {
                assert(post_w.positions@[e]->Some_0.y * wi + post_w.positions@[e]->Some_0.x
                    == next);
            }
        } else {
            if blocker_at(post_w, wi, idx) {
                let e2 = choose|e2: int|
                    0 <= e2 < post_w.n() && post_w.live(e2) && (#[trigger] post_w.positions@[e2])
                        is Some && post_w.blocks_tiles@[e2] && post_w.positions@[e2]->Some_0.y * wi
                        + post_w.positions@[e2]->Some_0.x == idx;
                assert(e2 != e);
                assert(pre_w.positions@[e2] == post_w.positions@[e2]);
                assert(blocker_at(pre_w, wi, idx));
            }
            assert(pre_m.occupied@[idx] ==> post_m.occupied@[idx]);
        }
    }
}

/// The controller's whole pass as a chain of per-entity
/// transitions: state `chain[e]` is the world and map the controller
/// finds when it reaches entity `e`, each acting hostile takes
/// exactly the `ai_step` transition against that state — so a move
/// claims its tile before any later hostile decides — and every
/// other entity leaves the state untouched.
pub open spec fn ai_chain(
    chain: Seq<(World, GameMap)>,
    w0: World,
    m0: GameMap,
    w1: World,
    m1: GameMap,
    player_entity: Entity,
    player_pos: Position,
) -> bool {
    &&& chain.len() == w0.n() + 1
    &&& chain[0] == ((w0, m0))
    &&& chain[w0.n() as int] == ((w1, m1))
    &&& (forall|e: int|
        0 <= e < w0.n() ==> if hostile_acting(w0, e) {
            ai_step(
                (#[trigger] chain[e]).0,
                chain[e].1,
                chain[e + 1].0,
                chain[e + 1].1,
                e,
                player_entity,
                player_pos,
            )
        } else {
            chain[e + 1] == chain[e]
        })
}

/// The enemy controller system. Runs after visibility, so that each
/// hostile decides on this tick's viewsheds.
pub struct BlobAi {}

impl BlobAi {
    /// Decides and applies every hostile's action for the tick, in
    /// ascending entity order: the pass is exactly the `ai_chain` of
    /// per-entity `ai_step` transitions. A hostile in melee reach
    /// queues an attack on the player and neither moves nor touches
    /// the bitmap; one that sees the player takes the first step of a
    /// shortest path towards them, if one exists under the occupancy
    /// left by the hostiles decided before it; any other hostile
    /// stays put, with no intent queued. Because each move carries
    /// its occupancy bit at once, no two hostiles claim the same
    /// tile.
    pub fn run(
        &mut self,
        world: &mut World,
        map: &mut GameMap,
        player_entity: Entity,
        player_pos: Position,
    )
        requires
            old(world).wf(),
            old(map).wf(),
            positions_in_bounds(*old(world), *old(map)),
            old(map).in_bounds(player_pos.x as int, player_pos.y as int),
            blobs_block(*old(world)),
            blockers_distinct(*old(world), old(map).width as int),
            blockers_on_floor(*old(world), *old(map)),
            occ_covers(*old(world), *old(map)),
        ensures
            final(world).wf(),
            final(map).wf(),
            final(world).n() == old(world).n(),
            final(world).alive == old(world).alive,
            final(world).renderables == old(world).renderables,
            final(world).players == old(world).players,
            final(world).blobs == old(world).blobs,
            final(world).viewsheds == old(world).viewsheds,
            final(world).names == old(world).names,
            final(world).blocks_tiles == old(world).blocks_tiles,
            final(world).combat_stats == old(world).combat_stats,
            final(world).suffer_damage == old(world).suffer_damage,
            final(world).items == old(world).items,
            final(world).heals == old(world).heals,
            final(world).inventories == old(world).inventories,
            final(world).wants_pickup == old(world).wants_pickup,
            final(map).tiles == old(map).tiles,
            final(map).rooms == old(map).rooms,
            final(map).width == old(map).width,
            final(map).height == old(map).height,
            final(map).tile_content == old(map).tile_content,
            final(map).occupied@.len() == old(map).occupied@.len(),
            positions_in_bounds(*final(world), *final(map)),
            blobs_block(*final(world)),
            blockers_distinct(*final(world), final(map).width as int),
            blockers_on_floor(*final(world), *final(map)),
            occ_covers(*final(world), *final(map)),
            forall|e: int|
                0 <= e < old(world).n() && hostile_acting(*old(world), e) && melee_range(
                    old(world).positions@[e]->Some_0,
                    player_pos,
                ) ==> final(world).wants_melee@[e] == Some(
                    (WantsToMelee { target: player_entity }),
                ) && final(world).positions@[e] == old(world).positions@[e],
            forall|e: int|
                0 <= e < old(world).n() && !hostile_acting(*old(world), e)
                    ==> final(world).positions@[e] == old(world).positions@[e]
                    && final(world).wants_melee@[e] == old(world).wants_melee@[e],
            forall|e: int|
                0 <= e < old(world).n() ==> final(world).wants_melee@[e] == (if hostile_acting(
                    *old(world),
                    e,
                ) && melee_range(old(world).positions@[e]->Some_0, player_pos) {
                    Some((WantsToMelee { target: player_entity }))
                } else {
                    old(world).wants_melee@[e]
                }),
            forall|e: int|
                0 <= e < old(world).n() && hostile_acting(*old(world), e) && !melee_range(
                    old(world).positions@[e]->Some_0,
                    player_pos,
                ) && !old(world).viewsheds@[e]->Some_0.visible_tiles@.contains(player_pos)
                    ==> final(world).positions@[e] == old(world).positions@[e],
            forall|e: int|
                0 <= e < old(world).n() && hostile_acting(*old(world), e)
                    ==> final(world).positions@[e] is Some,
            exists|chain: Seq<(World, GameMap)>|
                ai_chain(
                    chain,
                    *old(world),
                    *old(map),
                    *final(world),
                    *final(map),
                    player_entity,
                    player_pos,
                ),
    {
        let n = world.len();
        let ghost mut chain: Seq<(World, GameMap)> = seq![(*old(world), *old(map))];
        let mut e: usize = 0;
        while e < n
            invariant
                world.wf(),
                map.wf(),
                n == world.n(),
                e <= n,
                chain.len() == e + 1,
                chain[0] == ((*old(world), *old(map))),
                chain[e as int] == ((*world, *map)),
                forall|e2: int|
                    0 <= e2 < e ==> if hostile_acting(*old(world), e2) {
                        ai_step(
                            (#[trigger] chain[e2]).0,
                            chain[e2].1,
                            chain[e2 + 1].0,
                            chain[e2 + 1].1,
                            e2,
                            player_entity,
                            player_pos,
                        )
                    } else {
                        chain[e2 + 1] == chain[e2]
                    },
                positions_in_bounds(*world, *map),
                map.in_bounds(player_pos.x as int, player_pos.y as int),
                blobs_block(*world),
                blockers_distinct(*world, map.width as int),
                blockers_on_floor(*world, *map),
                occ_covers(*world, *map),
                world.alive == old(world).alive,
                world.renderables == old(world).renderables,
                world.players == old(world).players,
                world.blobs == old(world).blobs,
                world.viewsheds == old(world).viewsheds,
                world.names == old(world).names,
                world.blocks_tiles == old(world).blocks_tiles,
                world.combat_stats == old(world).combat_stats,
                world.suffer_damage == old(world).suffer_damage,
                world.items == old(world).items,
                world.heals == old(world).heals,
                world.inventories == old(world).inventories,
                world.wants_pickup == old(world).wants_pickup,
                map.tiles == old(map).tiles,
                map.rooms == old(map).rooms,
                map.width == old(map).width,
                map.height == old(map).height,
                map.tile_content == old(map).tile_content,
                map.occupied@.len() == old(map).occupied@.len(),
                forall|e2: int|
                    e <= e2 < n ==> world.positions@[e2] == old(world).positions@[e2]
                        && world.wants_melee@[e2] == old(world).wants_melee@[e2],
                forall|e2: int|
                    0 <= e2 < e && hostile_acting(*old(world), e2) && melee_range(
                        old(world).positions@[e2]->Some_0,
                        player_pos,
                    ) ==> world.wants_melee@[e2] == Some((WantsToMelee { target: player_entity }))
                        && world.positions@[e2] == old(world).positions@[e2],
                forall|e2: int|
                    0 <= e2 < e && !hostile_acting(*old(world), e2) ==> world.positions@[e2] == old(
                        world,
                    ).positions@[e2] && world.wants_melee@[e2] == old(world).wants_melee@[e2],
                forall|e2: int|
                    0 <= e2 < e ==> world.wants_melee@[e2] == (if hostile_acting(*old(world), e2)
                        && melee_range(old(world).positions@[e2]->Some_0, player_pos) {
                        Some((WantsToMelee { target: player_entity }))
                    } else {
                        old(world).wants_melee@[e2]
                    }),
                forall|e2: int|
                    0 <= e2 < e && hostile_acting(*old(world), e2) && !melee_range(
                        old(world).positions@[e2]->Some_0,
                        player_pos,
                    ) && !old(world).viewsheds@[e2]->Some_0.visible_tiles@.contains(player_pos)
                        ==> world.positions@[e2] == old(world).positions@[e2],
                forall|e2: int|
                    0 <= e2 < e && hostile_acting(*old(world), e2) ==> world.positions@[e2]
                        is Some,
            decreases n - e,
        {
            let mut acts = false;
            if world.alive[e] && world.blobs[e] {
                let has_view = match &world.viewsheds[e] {
                    Some(_) => true,
                    None => false,
                };
                let has_pos = match &world.positions[e] {
                    Some(_) => true,
                    None => false,
                };
                acts = has_view && has_pos;
            }
            proof {
                assert(hostile_acting(*old(world), e as int) == acts);
            }
            if acts {
                ai_entity(world, map, e, player_entity, player_pos);
            }
            proof {
                chain = chain.push((*world, *map));
            }
            e = e + 1;
        }
        proof {
            assert(ai_chain(
                chain,
                *old(world),
                *old(map),
                *world,
                *map,
                player_entity,
                player_pos,
            ));
        }
    }
}

} // verus!
