//! Player control: movement, pickup requests, and the dispatch of a
//! frame's command while the engine awaits input.

use vstd::prelude::*;

use crate::Command;
use crate::RunState;
use crate::State;
use crate::lemma_occ_preds_transfer;
use crate::blob::pos_idx;
use crate::components::Entity;
use crate::components::Position;
use crate::components::WantsToPickupItem;
use crate::map_index::blocker_at;

verus! {

/// What a movement attempt by `(delta_x, delta_y)` leaves behind: if
/// the destination tile lies on the grid and is not occupied, the
/// player and its cached position stand there and nothing else
/// changed; otherwise nothing at all changed.
pub open spec fn move_post(pre: State, post: State, delta_x: int, delta_y: int) -> bool {
    let tx = pre.player_pos.x + delta_x;
    let ty = pre.player_pos.y + delta_y;
    let pe = pre.player_entity as int;
    &&& post.ecs.n() == pre.ecs.n()
    &&& post.player_entity == pre.player_entity
    &&& post.run_state == pre.run_state
    &&& post.map == pre.map
    &&& if pre.map.in_bounds(tx, ty) && !pre.map.occupied@[pre.map.idx_of(tx, ty)] {
        &&& post.player_pos.x == tx
        &&& post.player_pos.y == ty
        &&& post.ecs.positions@ == pre.ecs.positions@.update(pe, Some(post.player_pos))
        &&& post.ecs == (crate::world::World { positions: post.ecs.positions, ..pre.ecs })
    } else {
        post.ecs == pre.ecs && post.player_pos == pre.player_pos
    }
}

/// What a pickup request leaves behind: if a live item lies on the
/// player's tile, a pickup intent for the latest such item sits in
/// the player's slot and nothing else changed; otherwise nothing at
/// all changed.
pub open spec fn pickup_post(pre: State, post: State) -> bool {
    let pe = pre.player_entity as int;
    &&& post.ecs.n() == pre.ecs.n()
    &&& post.player_entity == pre.player_entity
    &&& post.player_pos == pre.player_pos
    &&& post.run_state == pre.run_state
    &&& post.map == pre.map
    &&& match item_at_upto(pre.ecs, pre.player_pos, pre.ecs.n()) {
        Option::None => post.ecs == pre.ecs,
        Some(it) => {
            &&& post.ecs.wants_pickup@ == pre.ecs.wants_pickup@.update(
                pe,
                Some((WantsToPickupItem { collected_by: pre.player_entity, item: it })),
            )
            &&& post.ecs == (crate::world::World {
                wants_pickup: post.ecs.wants_pickup,
                ..pre.ecs
            })
        },
    }
}

/// What dispatching one frame's command leaves behind: nothing for
/// no command or the menu key, the movement relation for a movement
/// key, the pickup relation for the pickup key.
pub open spec fn input_post(pre: State, post: State, cmd: Option<Command>) -> bool {
    match cmd {
        Option::None => post == pre,
        Some(Command::OpenMenu) => post == pre,
        Some(Command::MoveWest) => move_post(pre, post, -1, 0),
        Some(Command::MoveEast) => move_post(pre, post, 1, 0),
        Some(Command::MoveNorth) => move_post(pre, post, 0, -1),
        Some(Command::MoveSouth) => move_post(pre, post, 0, 1),
        Some(Command::Pickup) => pickup_post(pre, post),
    }
}

/// Moves the player by one step if the destination tile lies on the
/// grid and is not occupied; otherwise nothing moves. The cached
/// player position follows the move.
pub fn try_move_player(delta_x: i32, delta_y: i32, gs: &mut State)
    requires
        old(gs).wf(),
        -1 <= delta_x <= 1,
        -1 <= delta_y <= 1,
    ensures
        final(gs).wf(),
        move_post(*old(gs), *final(gs), delta_x as int, delta_y as int),
{
    let px = gs.player_pos.x;
    let py = gs.player_pos.y;
    let tx = px + delta_x;
    let ty = py + delta_y;
    if 0 <= tx && tx < gs.map.width && 0 <= ty && ty < gs.map.height {
        let idx = gs.map.index(tx, ty);
        if !gs.map.occupied[idx] {
            let ghost prev = gs.ecs;
            let dest = Position { x: tx, y: ty };
            gs.ecs.positions.set(gs.player_entity, Some(dest));
            gs.player_pos = dest;
            proof {
                let w = gs.ecs;
                let m = gs.map;
                let wi = m.width as int;
                let pe = gs.player_entity as int;
                assert forall|e: int|
                    0 <= e < w.n() && (#[trigger] w.positions@[e]) is Some implies m.in_bounds(
                    w.positions@[e]->Some_0.x as int,
                    w.positions@[e]->Some_0.y as int,
                ) by {
                    if e != pe {
                        assert(w.positions@[e] == prev.positions@[e]);
                    }
                }
                assert forall|e1: int, e2: int|
                    0 <= e1 < e2 < w.n() && w.live(e1) && w.live(e2) && w.blocks_tiles@[e1]
                        && w.blocks_tiles@[e2] && w.positions@[e1] is Some && w.positions@[e2]
                        is Some implies #[trigger] pos_idx(w, wi, e1) != #[trigger] pos_idx(
                    w,
                    wi,
                    e2,
                ) by {
                    assert(pos_idx(w, wi, e1) == pos_idx(prev, wi, e1));
                    assert(pos_idx(w, wi, e2) == pos_idx(prev, wi, e2));
                    assert(pos_idx(prev, wi, e1) != pos_idx(prev, wi, e2));
                }
                assert forall|e: int|
                    0 <= e < w.n() && w.live(e) && (#[trigger] w.positions@[e]) is Some
                        && w.blocks_tiles@[e] implies !crate::map::is_solid(
                    m.tiles@[pos_idx(w, wi, e)],
                ) by {
                    assert(pos_idx(w, wi, e) == pos_idx(prev, wi, e));
                }
                assert forall|idx2: int|
                    0 <= idx2 < m.count() && (crate::map::is_solid(#[trigger] m.tiles@[idx2])
                        || blocker_at(w, wi, idx2)) implies m.occupied@[idx2] by {
                    if blocker_at(w, wi, idx2) {
                        let e = choose|e: int|
                            0 <= e < w.n() && w.live(e) && (#[trigger] w.positions@[e]) is Some
                                && w.blocks_tiles@[e] && w.positions@[e]->Some_0.y * wi
                                + w.positions@[e]->Some_0.x == idx2;
                        assert(e != pe);
                        assert(w.positions@[e] == prev.positions@[e]);
                        assert(blocker_at(prev, wi, idx2));
                    }
                }
            }
        }
    }
}

/// The last entity among the first `k` that is a live item lying on
/// tile `p` — the one a pickup request on that tile takes.
pub open spec fn item_at_upto(w: crate::world::World, p: Position, k: int) -> Option<Entity>
    decreases k,
{
    if k <= 0 {
        Option::None
    } else if w.live(k - 1) && w.items@[k - 1] && w.positions@[k - 1] == Some(p) {
        Some((k - 1) as Entity)
    } else {
        item_at_upto(w, p, k - 1)
    }
}

/// A found item is a live item on the searched tile.
pub proof fn lemma_item_at_props(w: crate::world::World, p: Position, k: int)
    requires
        0 <= k <= w.n(),
        k <= usize::MAX,
    ensures
        item_at_upto(w, p, k) is Some ==> {
            let it = item_at_upto(w, p, k)->Some_0 as int;
            &&& 0 <= it < k
            &&& w.live(it)
            &&& w.items@[it]
            &&& w.positions@[it] == Some(p)
        },
    decreases k,
{
    if k > 0 {
        lemma_item_at_props(w, p, k - 1);
        if w.live(k - 1) && w.items@[k - 1] && w.positions@[k - 1] == Some(p) {
            assert(item_at_upto(w, p, k)->Some_0 == (k - 1) as Entity);
        }
    }
}

/// Looks for an item on the player's tile; if there is one, queues a
/// pickup request for it under the player's handle. With several
/// items on the tile the latest-created one is taken.
pub fn get_item(gs: &mut State)
    requires
        old(gs).wf(),
    ensures
        final(gs).wf(),
        pickup_post(*old(gs), *final(gs)),
{
    let n = gs.ecs.len();
    let mut target_item: Option<Entity> = None;
    let mut e: usize = 0;
    while e < n
        invariant
            gs.ecs.wf(),
            n == gs.ecs.n(),
            e <= n,
            target_item == item_at_upto(gs.ecs, gs.player_pos, e as int),
        decreases n - e,
    {
        let mut here = false;
        if gs.ecs.alive[e] && gs.ecs.items[e] {
            if let Some(q) = gs.ecs.positions[e] {
                if q.x == gs.player_pos.x && q.y == gs.player_pos.y {
                    here = true;
                    proof {
                        assert(gs.ecs.positions@[e as int] == Some(gs.player_pos));
                    }
                }
            }
        }
        if here {
            target_item = Some(e);
        }
        e = e + 1;
    }
    match target_item {
        None => (),
        Some(item) => {
            let ghost prev = gs.ecs;
            gs.ecs.wants_pickup.set(
                gs.player_entity,
                Some(WantsToPickupItem { collected_by: gs.player_entity, item }),
            );
            proof {
                lemma_item_at_props(prev, gs.player_pos, prev.n());
                lemma_occ_preds_transfer(prev, gs.ecs, gs.map);
            }
        },
    }
}

/// Dispatches a waiting frame's command: the menu key opens the
/// menu, a movement key moves the player, the pickup key queues a
/// pickup; each of the latter consumes the turn. A frame without a
/// command changes nothing.
pub fn player_input(gs: &mut State, cmd: Option<Command>) -> (rs: RunState)
    requires
        old(gs).wf(),
    ensures
        final(gs).wf(),
        input_post(*old(gs), *final(gs), cmd),
        rs == crate::next_run_state(RunState::AwaitingInput, cmd),
    {
    match cmd {
        None => RunState::AwaitingInput,
        Some(key) => match key {
            Command::OpenMenu => RunState::Menu,
            Command::MoveWest => {
                try_move_player(-1, 0, gs);
                RunState::PlayerTurn
            },
            Command::MoveEast => {
                try_move_player(1, 0, gs);
                RunState::PlayerTurn
            },
            Command::MoveNorth => {
                try_move_player(0, -1, gs);
                RunState::PlayerTurn
            },
            Command::MoveSouth => {
                try_move_player(0, 1, gs);
                RunState::PlayerTurn
            },
            Command::Pickup => {
                get_item(gs);
                RunState::PlayerTurn
            },
        },
    }
}

} // verus!
