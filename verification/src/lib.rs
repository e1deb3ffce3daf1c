//! A turn-based roguelike simulation engine.
//!
//! The crate models a fixed per-tick pipeline over an entity-component
//! store: visibility, enemy pathing and attacks, occupancy indexing,
//! melee resolution, damage and lifecycle resolution, and item
//! pickup. The world state, the spatial map and the pipeline's
//! guarantees are stated as contracts and proved.

use vstd::prelude::*;

pub mod blob;
pub mod components;
pub mod damage_system;
pub mod gui;
pub mod inventory;
pub mod map;
pub mod map_index;
pub mod melee;
pub mod pathing;
pub mod player;
pub mod rect;
pub mod rng;
pub mod view;
pub mod world;

use crate::blob::BlobAi;
use crate::blob::ai_chain;
use crate::blob::melee_range;
use crate::blob::blobs_block;
use crate::blob::blockers_distinct;
use crate::blob::blockers_on_floor;
use crate::blob::hostile_acting;
use crate::blob::occ_covers;
use crate::blob::pos_idx;
use crate::components::CombatStats;
use crate::components::damage_seq_of;
use crate::components::Entity;
use crate::components::Position;
use crate::damage_system::DamageSystem;
use crate::damage_system::damage_in_range;
use crate::damage_system::damaged;
use crate::damage_system::dead_marked;
use crate::damage_system::delete_the_dead;
use crate::damage_system::drops_upto;
use crate::damage_system::lemma_drops_len;
use crate::damage_system::lifecycle_post;
use crate::damage_system::lemma_unit_hits_sum;
use crate::damage_system::loot_slot;
use crate::damage_system::slot_dead;
use crate::damage_system::slots_unchanged;
use crate::inventory::ItemCollectionSystem;
use crate::inventory::picked_upto;
use crate::map::GameMap;
use crate::map::is_solid;
use crate::map_index::MapIndexingSystem;
use crate::map_index::blocker_at;
use crate::map_index::positions_in_bounds;
use crate::melee::AttackReport;
use crate::melee::MELEE_DAMAGE;
use crate::melee::MeleeCombatSystem;
use crate::melee::attack_lands;
use crate::melee::hits_upto;
use crate::melee::reports_upto;
use crate::melee::lemma_hits_le;
use crate::melee::lemma_hits_nonneg;
use crate::melee::melee_targets_valid;
use crate::melee::ones;
use crate::player::player_input;
use crate::view::VisibilitySystem;
use crate::view::viewshed_ranges_ok;
use crate::world::World;

verus! {

/// The scheduler's states: waiting for input, running the opening
/// pass, resolving the player's turn, resolving the hostiles' turn,
/// or showing the menu.
#[derive(Clone, Copy, PartialEq, Eq, Structural, Debug)]
pub enum RunState {
    AwaitingInput,
    PreRun,
    PlayerTurn,
    BlobTurn,
    Menu,
}

/// A discrete player command, as the host loop hands it to the
/// engine once per frame. A frame without a usable key passes no
/// command at all.
#[derive(Clone, Copy, PartialEq, Eq, Structural, Debug)]
pub enum Command {
    MoveWest,
    MoveEast,
    MoveNorth,
    MoveSouth,
    Pickup,
    OpenMenu,
}

/// The whole game: the entity-component store, the spatial map, the
/// player's handle with its cached position, and the scheduler state.
pub struct State {
    pub ecs: World,
    pub map: GameMap,
    pub player_entity: Entity,
    pub player_pos: Position,
    pub run_state: RunState,
}

impl State {
    /// Structural soundness, kept by every pipeline stage: the store
    /// and map are well formed, the player is a live, named,
    /// non-blocking, non-hostile combatant standing where the cached
    /// position says, all positions are on the grid, sight ranges are
    /// bounded, hostiles block, no two blockers share a tile, no
    /// blocker stands in a wall, the occupancy bitmap covers every
    /// solid or blocked tile, combatants are live, named and
    /// positioned, items are inert, and pending pickups aim at inert
    /// items.
    pub open spec fn wf_base(self) -> bool {
        let w = self.ecs;
        let m = self.map;
        let pe = self.player_entity as int;
        &&& w.wf()
        &&& m.wf()
        &&& w.n() < 0x1000000
        &&& 0 <= pe < w.n()
        &&& w.live(pe)
        &&& w.players@[pe]
        &&& !w.blobs@[pe]
        &&& !w.blocks_tiles@[pe]
        &&& w.positions@[pe] == Some(self.player_pos)
        &&& m.in_bounds(self.player_pos.x as int, self.player_pos.y as int)
        &&& w.names@[pe] is Some
        &&& w.combat_stats@[pe] is Some
        &&& positions_in_bounds(w, m)
        &&& viewshed_ranges_ok(w)
        &&& blobs_block(w)
        &&& blockers_distinct(w, m.width as int)
        &&& blockers_on_floor(w, m)
        &&& occ_covers(w, m)
        &&& (forall|e: int|
            0 <= e < w.n() && (#[trigger] w.combat_stats@[e]) is Some ==> w.alive@[e]
                && w.names@[e] is Some && w.positions@[e] is Some)
        &&& (forall|e: int|
            0 <= e < w.n() && (#[trigger] w.items@[e]) ==> !w.blocks_tiles@[e] && w.combat_stats@[e]
                is None)
        &&& (forall|e: int|
            0 <= e < w.n() && (#[trigger] w.wants_pickup@[e]) is Some ==> {
                let it = w.wants_pickup@[e]->Some_0.item as int;
                &&& 0 <= it < w.n()
                &&& !w.blocks_tiles@[it]
                &&& w.combat_stats@[it] is None
            })
    }

    /// No intent from a finished pass is left over.
    pub open spec fn at_rest(self) -> bool {
        let w = self.ecs;
        &&& (forall|e: int| 0 <= e < w.n() ==> (#[trigger] w.wants_melee@[e]) is None)
        &&& (forall|e: int| 0 <= e < w.n() ==> (#[trigger] w.suffer_damage@[e]) is None)
    }

    /// Every combatant still standing has hit points left; lifecycle
    /// resolution has removed the depleted ones.
    pub open spec fn hp_ok(self) -> bool {
        let w = self.ecs;
        forall|e: int|
            0 <= e < w.n() && (#[trigger] w.combat_stats@[e]) is Some ==> w.combat_stats@[
                e
            ]->Some_0.hp >= 1
    }

    /// Well-formedness between ticks.
    pub open spec fn wf(self) -> bool {
        self.wf_base() && self.at_rest() && self.hp_ok()
    }
}

/// What the scheduler's next state is for a given current state and
/// player command.
pub open spec fn next_run_state(rs: RunState, cmd: Option<Command>) -> RunState {
    match rs {
        RunState::PreRun => RunState::AwaitingInput,
        RunState::AwaitingInput => match cmd {
            Option::None => RunState::AwaitingInput,
            Some(Command::OpenMenu) => RunState::Menu,
            Some(_) => RunState::PlayerTurn,
        },
        RunState::PlayerTurn => RunState::BlobTurn,
        RunState::BlobTurn => RunState::AwaitingInput,
        RunState::Menu => if cmd == Some(Command::OpenMenu) {
            RunState::AwaitingInput
        } else {
            RunState::Menu
        },
    }
}

/// Carries the occupancy-related invariants across a pipeline stage
/// that left liveness, positions, blocking tags and hostile tags
/// untouched.
pub proof fn lemma_occ_preds_transfer(a: World, b: World, m: GameMap)
    requires
        a.n() == b.n(),
        b.alive == a.alive,
        b.positions == a.positions,
        b.blocks_tiles == a.blocks_tiles,
        b.blobs == a.blobs,
        positions_in_bounds(a, m),
        blobs_block(a),
        blockers_distinct(a, m.width as int),
        blockers_on_floor(a, m),
        occ_covers(a, m),
    ensures
        positions_in_bounds(b, m),
        blobs_block(b),
        blockers_distinct(b, m.width as int),
        blockers_on_floor(b, m),
        occ_covers(b, m),
{
    let wi = m.width as int;
    assert forall|idx: int|
        0 <= idx < m.count() && (is_solid(#[trigger] m.tiles@[idx]) || blocker_at(
            b,
            wi,
            idx,
        )) implies m.occupied@[idx] by {
        if blocker_at(b, wi, idx) {
            let e = choose|e: int|
                0 <= e < b.n() && b.live(e) && (#[trigger] b.positions@[e]) is Some
                    && b.blocks_tiles@[e] && b.positions@[e]->Some_0.y * wi
                    + b.positions@[e]->Some_0.x == idx;
            assert(0 <= e < a.n() && a.live(e) && (a.positions@[e]) is Some && a.blocks_tiles@[e]
                && a.positions@[e]->Some_0.y * wi + a.positions@[e]->Some_0.x == idx);
            assert(blocker_at(a, wi, idx));
        }
    }
    assert forall|e1: int, e2: int|
        0 <= e1 < e2 < b.n() && b.live(e1) && b.live(e2) && b.blocks_tiles@[e1]
            && b.blocks_tiles@[e2] && b.positions@[e1] is Some && b.positions@[e2] is Some implies
        #[trigger] pos_idx(b, wi, e1) != #[trigger] pos_idx(b, wi, e2) by {
        assert(pos_idx(a, wi, e1) != pos_idx(a, wi, e2));
    }
    assert forall|e: int|
        0 <= e < b.n() && b.live(e) && (#[trigger] b.positions@[e]) is Some && b.blocks_tiles@[e]
            implies !is_solid(m.tiles@[pos_idx(b, wi, e)]) by {
        assert(pos_idx(a, wi, e) == pos_idx(b, wi, e));
    }
}

/// Whether entity `e` lands a melee hit on the player this pass: a
/// live, named hostile combatant with hit points left, holding a
/// viewshed and a position within melee reach of the player.
pub open spec fn melee_attacker(w: World, e: int, player_pos: Position) -> bool {
    &&& hostile_acting(w, e)
    &&& melee_range(w.positions@[e]->Some_0, player_pos)
    &&& w.names@[e] is Some
    &&& w.combat_stats@[e] is Some
    &&& w.combat_stats@[e]->Some_0.hp > 0
}

/// Number of melee attackers among the first `k` entities.
pub open spec fn melee_attackers_upto(w: World, player_pos: Position, k: int) -> int
    decreases k,
{
    if k <= 0 {
        0
    } else {
        melee_attackers_upto(w, player_pos, k - 1) + if melee_attacker(w, k - 1, player_pos) {
            1int
        } else {
            0int
        }
    }
}

/// When every landing attack in `w2` targets the player and landing
/// coincides with being a melee attacker in the pre-pass world `w0`,
/// the hit count against the player equals the attacker count.
proof fn lemma_hits_eq_attackers(w2: World, w0: World, player_pos: Position, pe: int, k: int)
    requires
        forall|e: int|
            0 <= e < k ==> ((#[trigger] attack_lands(w2, e)) <==> melee_attacker(
                w0,
                e,
                player_pos,
            )),
        forall|e: int|
            0 <= e < k && #[trigger] attack_lands(w2, e) ==> w2.wants_melee@[e]->Some_0.target
                == pe,
    ensures
        hits_upto(w2, pe, k) == melee_attackers_upto(w0, player_pos, k),
    decreases k,
{
    if k > 0 {
        lemma_hits_eq_attackers(w2, w0, player_pos, pe, k - 1);
    }
}

/// When every landing attack targets the player, nobody else takes a
/// hit.
proof fn lemma_hits_zero_elsewhere(w2: World, pe: int, v: int, k: int)
    requires
        v != pe,
        forall|e: int|
            0 <= e < k && #[trigger] attack_lands(w2, e) ==> w2.wants_melee@[e]->Some_0.target
                == pe,
    ensures
        hits_upto(w2, v, k) == 0,
    decreases k,
{
    if k > 0 {
        lemma_hits_zero_elsewhere(w2, pe, v, k - 1);
    }
}

/// Under the same premises, the combat narration lists exactly the
/// melee attackers, in ascending entity order, each hitting the
/// player for the fixed amount.
proof fn lemma_reports_props(w2: World, w0: World, player_pos: Position, pe: int, k: int)
    requires
        0 <= k <= usize::MAX,
        forall|e: int|
            0 <= e < k ==> ((#[trigger] attack_lands(w2, e)) <==> melee_attacker(
                w0,
                e,
                player_pos,
            )),
        forall|e: int|
            0 <= e < k && #[trigger] attack_lands(w2, e) ==> w2.wants_melee@[e]->Some_0.target
                == pe,
        0 <= pe,
    ensures
        ({
            let r = reports_upto(w2, k);
            &&& r.len() == melee_attackers_upto(w0, player_pos, k)
            &&& (forall|j: int|
                0 <= j < r.len() ==> (#[trigger] r[j]).target == pe && r[j].amount == MELEE_DAMAGE
                    && melee_attacker(w0, r[j].attacker as int, player_pos) && r[j].attacker < k)
            &&& (forall|j1: int, j2: int|
                0 <= j1 < j2 < r.len() ==> r[j1].attacker < r[j2].attacker)
            &&& (forall|e: int|
                0 <= e < k && melee_attacker(w0, e, player_pos) ==> exists|j: int|
                    0 <= j < r.len() && (#[trigger] r[j]).attacker == e)
        }),
    decreases k,
{
    if k > 0 {
        lemma_reports_props(w2, w0, player_pos, pe, k - 1);
        let prev = reports_upto(w2, k - 1);
        let r = reports_upto(w2, k);
        if attack_lands(w2, k - 1) {
            assert(r == prev.push(
                (AttackReport {
                    attacker: (k - 1) as Entity,
                    target: w2.wants_melee@[k - 1]->Some_0.target,
                    amount: MELEE_DAMAGE,
                }),
            ));
            assert forall|e: int|
                0 <= e < k && melee_attacker(w0, e, player_pos) implies exists|j: int|
                0 <= j < r.len() && (#[trigger] r[j]).attacker == e by {
                if e == k - 1 {
                    assert(((k - 1) as Entity) as int == k - 1);
                    assert(r[r.len() - 1].attacker == e);
                } else {
                    let j = choose|j: int| 0 <= j < prev.len() && (#[trigger] prev[j]).attacker == e;
                    assert(r[j].attacker == e);
                }
            }
        } else {
            assert(r == prev);
        }
    }
}

/// What one full pass of the pipeline leaves behind. The structural
/// invariants hold again with every intent consumed; nothing but
/// positions, viewsheds, intents, accumulators, hit points and
/// inventories changed; every melee attacker within reach of the
/// player landed exactly one fixed-amount hit on them — the player's
/// hit points drop by the attacker count, nobody else's change — and
/// the combat narration lists exactly those attackers, in entity
/// order.
pub open spec fn pipeline_post(pre: State, post: State, log: Seq<AttackReport>) -> bool {
    let pe = pre.player_entity as int;
    let hits = melee_attackers_upto(pre.ecs, pre.player_pos, pre.ecs.n());
    &&& post.wf_base()
    &&& post.at_rest()
    &&& post.ecs.n() == pre.ecs.n()
    &&& post.player_entity == pre.player_entity
    &&& post.player_pos == pre.player_pos
    &&& post.run_state == pre.run_state
    &&& (forall|e: int| 0 <= e < post.ecs.n() ==> (#[trigger] post.ecs.wants_pickup@[e]) is None)
    &&& post.ecs.alive == pre.ecs.alive
    &&& post.ecs.players == pre.ecs.players
    &&& post.ecs.blobs == pre.ecs.blobs
    &&& post.ecs.names == pre.ecs.names
    &&& post.ecs.blocks_tiles == pre.ecs.blocks_tiles
    &&& post.ecs.items == pre.ecs.items
    &&& post.ecs.heals == pre.ecs.heals
    &&& post.ecs.combat_stats@[pe] == Some(
        (CombatStats {
            max_hp: pre.ecs.combat_stats@[pe]->Some_0.max_hp,
            hp: (pre.ecs.combat_stats@[pe]->Some_0.hp - hits) as i32,
        }),
    )
    &&& (forall|e: int|
        0 <= e < pre.ecs.n() && e != pe ==> post.ecs.combat_stats@[e] == pre.ecs.combat_stats@[e])
    &&& log.len() == hits
    &&& (forall|j: int|
        0 <= j < log.len() ==> (#[trigger] log[j]).target == pre.player_entity && log[j].amount
            == MELEE_DAMAGE && melee_attacker(pre.ecs, log[j].attacker as int, pre.player_pos)
            && log[j].attacker < pre.ecs.n())
    &&& (forall|j1: int, j2: int|
        0 <= j1 < j2 < log.len() ==> log[j1].attacker < log[j2].attacker)
    &&& (forall|e: int|
        0 <= e < pre.ecs.n() && melee_attacker(pre.ecs, e, pre.player_pos) ==> exists|j: int|
            0 <= j < log.len() && (#[trigger] log[j]).attacker == e)
}

impl State {
    /// Runs the six systems of one pass in their fixed order:
    /// visibility, enemy control, occupancy indexing, melee combat,
    /// damage, and pickup. Returns the pass's combat narration. Hit
    /// points may be exhausted afterwards, until lifecycle
    /// resolution runs.
    pub fn run_systems(&mut self) -> (log: Vec<AttackReport>)
        requires
            old(self).wf(),
        ensures
            pipeline_post(*old(self), *final(self), log@),
    {
        let ghost pe = self.player_entity as int;
        let mut vis = VisibilitySystem {};
        vis.run(&mut self.ecs, &self.map);
        let ghost w1 = self.ecs;
        proof {
            lemma_occ_preds_transfer(old(self).ecs, w1, self.map);
        }
        let mut mob = BlobAi {};
        mob.run(&mut self.ecs, &mut self.map, self.player_entity, self.player_pos);
        let ghost w2 = self.ecs;
        proof {
            assert(!hostile_acting(w1, pe));
            assert(w2.positions@[pe] == Some(self.player_pos));
        }
        let mut mapindex = MapIndexingSystem {};
        mapindex.run(&self.ecs, &mut self.map);
        let ghost m3 = self.map;
        proof {
            assert(occ_covers(w2, m3));
            assert(blockers_distinct(w2, m3.width as int));
        }
        let mut melee_sys = MeleeCombatSystem {};
        proof {
            assert(melee_targets_valid(w2)) by {
                assert forall|e: int|
                    0 <= e < w2.n() && w2.live(e) && (#[trigger] w2.wants_melee@[e]) is Some
                        && w2.names@[e] is Some && w2.combat_stats@[e] is Some && w2.combat_stats@[
                        e
                    ]->Some_0.hp > 0 implies {
                    let t = w2.wants_melee@[e]->Some_0.target;
                    &&& 0 <= t < w2.n()
                    &&& w2.combat_stats@[t as int] is Some
                    &&& (w2.combat_stats@[t as int]->Some_0.hp > 0 ==> w2.names@[t as int] is Some)
                } by {
                    assert(w1.wants_melee@[e] == old(self).ecs.wants_melee@[e]);
                    assert(old(self).ecs.wants_melee@[e] is None);
                    let acting = hostile_acting(w1, e) && melee_range(
                        w1.positions@[e]->Some_0,
                        self.player_pos,
                    );
                    assert(w2.wants_melee@[e] == Some(
                        (crate::components::WantsToMelee { target: self.player_entity }),
                    ));
                }
            }
        }
        let log = melee_sys.run(&mut self.ecs);
        let ghost w3 = self.ecs;
        proof {
            lemma_occ_preds_transfer(w2, w3, m3);
        }
        let mut damage = DamageSystem {};
        proof {
            assert(damage_in_range(w3)) by {
                assert forall|e: int| 0 <= e < w3.n() && #[trigger] damaged(w3, e) implies {
                    let amounts = w3.suffer_damage@[e]->Some_0.amount@;
                    &&& (forall|j: int| 0 <= j < amounts.len() ==> amounts[j] >= 0)
                    &&& crate::damage_system::seq_sum(amounts) <= i32::MAX
                    &&& w3.combat_stats@[e]->Some_0.hp - crate::damage_system::seq_sum(amounts)
                        >= i32::MIN
                } by {
                    let amounts = w3.suffer_damage@[e]->Some_0.amount@;
                    let h = crate::melee::hits_upto(w2, e, w2.n());
                    lemma_hits_nonneg(w2, e, w2.n());
                    lemma_hits_le(w2, e, w2.n());
                    assert(amounts =~= ones(h));
                    assert(forall|j: int| 0 <= j < amounts.len() ==> amounts[j] == 1);
                    lemma_unit_hits_sum(amounts);
                }
            }
        }
        damage.run(&mut self.ecs);
        let ghost w4 = self.ecs;
        proof {
            lemma_occ_preds_transfer(w3, w4, m3);
        }
        let mut pickup = ItemCollectionSystem {};
        pickup.run(&mut self.ecs);
        let ghost w5 = self.ecs;
        proof {
            let wi = m3.width as int;
            assert forall|e: int|
                0 <= e < w5.n() && w5.live(e) && (#[trigger] w5.positions@[e]) is Some
                    && w5.blocks_tiles@[e] implies w5.positions@[e] == w4.positions@[e] by {
                if picked_upto(w4, e, w4.n()) {
                    assert(w5.positions@[e] is None);
                }
            }
            assert forall|idx: int|
                0 <= idx < m3.count() && (is_solid(#[trigger] m3.tiles@[idx]) || blocker_at(
                    w5,
                    wi,
                    idx,
                )) implies m3.occupied@[idx] by {
                if blocker_at(w5, wi, idx) {
                    let e = choose|e: int|
                        0 <= e < w5.n() && w5.live(e) && (#[trigger] w5.positions@[e]) is Some
                            && w5.blocks_tiles@[e] && w5.positions@[e]->Some_0.y * wi
                            + w5.positions@[e]->Some_0.x == idx;
                    assert(w4.positions@[e] == w5.positions@[e]);
                    assert(blocker_at(w4, wi, idx));
                }
            }
            assert forall|e1: int, e2: int|
                0 <= e1 < e2 < w5.n() && w5.live(e1) && w5.live(e2) && w5.blocks_tiles@[e1]
                    && w5.blocks_tiles@[e2] && w5.positions@[e1] is Some && w5.positions@[e2]
                    is Some implies #[trigger] pos_idx(w5, wi, e1) != #[trigger] pos_idx(
                w5,
                wi,
                e2,
            ) by {
                assert(pos_idx(w5, wi, e1) == pos_idx(w4, wi, e1));
                assert(pos_idx(w5, wi, e2) == pos_idx(w4, wi, e2));
                assert(pos_idx(w4, wi, e1) != pos_idx(w4, wi, e2));
            }
            assert forall|e: int|
                0 <= e < w5.n() && w5.live(e) && (#[trigger] w5.positions@[e]) is Some
                    && w5.blocks_tiles@[e] implies !is_solid(m3.tiles@[pos_idx(w5, wi, e)]) by {
                assert(pos_idx(w5, wi, e) == pos_idx(w4, wi, e));
            }
            assert forall|e: int|
                0 <= e < w5.n() && (#[trigger] w5.positions@[e]) is Some implies m3.in_bounds(
                w5.positions@[e]->Some_0.x as int,
                w5.positions@[e]->Some_0.y as int,
            ) by {
                if picked_upto(w4, e, w4.n()) {
                    assert(w5.positions@[e] is None);
                } else {
                    assert(w5.positions@[e] == w4.positions@[e]);
                }
            }
            assert forall|e: int|
                0 <= e < w5.n() && picked_upto(w4, e, w4.n()) implies w4.combat_stats@[e] is None
                by {
                let c = choose|c: int|
                    0 <= c < w4.n() && (#[trigger] w4.wants_pickup@[c]) is Some
                        && w4.wants_pickup@[c]->Some_0.item == e;
                assert(w4.wants_pickup@[c] == old(self).ecs.wants_pickup@[c]);
                assert(old(self).ecs.combat_stats@[e] is None);
                assert(!damaged(w3, e));
                assert(w4.combat_stats@[e] == w3.combat_stats@[e]);
            }
            assert forall|e: int|
                0 <= e < w2.n() && (#[trigger] w2.combat_stats@[e]) is Some implies w2.alive@[e]
                    && w2.names@[e] is Some && w2.positions@[e] is Some by {
                if hostile_acting(w1, e) {
                } else {
                    assert(w2.positions@[e] == w1.positions@[e]);
                }
            }
            assert forall|e: int|
                0 <= e < w5.n() && (#[trigger] w5.combat_stats@[e]) is Some implies w5.alive@[e]
                    && w5.names@[e] is Some && w5.positions@[e] is Some by {
                if picked_upto(w4, e, w4.n()) {
                    assert(w4.combat_stats@[e] is None);
                } else {
                    assert(w5.positions@[e] == w4.positions@[e]);
                    assert(w5.combat_stats@[e] == w4.combat_stats@[e]);
                    assert(w4.positions@[e] == w3.positions@[e]);
                    assert(w3.positions@[e] == w2.positions@[e]);
                    if damaged(w3, e) {
                        assert(w3.combat_stats@[e] is Some);
                    } else {
                        assert(w4.combat_stats@[e] == w3.combat_stats@[e]);
                    }
                    assert(w3.combat_stats@[e] == w2.combat_stats@[e]);
                    assert(w2.combat_stats@[e] is Some);
                }
            }
            assert(w5.positions@[pe] == Some(self.player_pos)) by {
                if picked_upto(w4, pe, w4.n()) {
                    assert(w4.combat_stats@[pe] is None);
                }
            }
            assert forall|e: int|
                0 <= e < w5.n() && (#[trigger] w5.viewsheds@[e]) is Some implies 1
                <= w5.viewsheds@[e]->Some_0.range <= 0x1000 by {
                assert(w5.viewsheds@[e] == w1.viewsheds@[e]);
            }
            assert forall|e: int|
                0 <= e < w5.n() && w5.live(e) && (#[trigger] w5.blobs@[e]) implies
                w5.blocks_tiles@[e] by {
                assert(w4.live(e) && w4.blobs@[e]);
            }
            assert forall|e: int|
                0 <= e < w5.n() && (#[trigger] w5.items@[e]) implies !w5.blocks_tiles@[e]
                    && w5.combat_stats@[e] is None by {
                assert(old(self).ecs.items@[e] && old(self).ecs.combat_stats@[e] is None);
                assert(!damaged(w3, e));
                assert(w4.combat_stats@[e] == w3.combat_stats@[e]);
            }
            assert(self.ecs.combat_stats@[pe] is Some) by {
                assert(w5.combat_stats@[pe] == w4.combat_stats@[pe]);
                if !damaged(w3, pe) {
                    assert(w4.combat_stats@[pe] == w3.combat_stats@[pe]);
                }
            }
            // the pass's combat outcome, related to the pre-pass world
            let w0 = old(self).ecs;
            let ppos = old(self).player_pos;
            let n = w0.n();
            assert forall|e: int|
                0 <= e < n implies ((#[trigger] attack_lands(w2, e)) <==> melee_attacker(
                w0,
                e,
                ppos,
            )) && (attack_lands(w2, e) ==> w2.wants_melee@[e]->Some_0.target == pe) by {
                assert(crate::view::viewshed_updated(w0, w1, old(self).map, e));
                assert(w1.wants_melee@[e] == w0.wants_melee@[e]);
                assert(w0.wants_melee@[e] is None);
                let acting1 = hostile_acting(w1, e) && melee_range(
                    w1.positions@[e]->Some_0,
                    ppos,
                );
                if attack_lands(w2, e) {
                    assert(hostile_acting(w1, e));
                    assert(w0.viewsheds@[e] is Some);
                    assert(melee_attacker(w0, e, ppos));
                }
                if melee_attacker(w0, e, ppos) {
                    assert(w1.viewsheds@[e] is Some);
                    assert(hostile_acting(w1, e));
                    assert(w2.wants_melee@[e] == Some(
                        (crate::components::WantsToMelee { target: self.player_entity }),
                    ));
                    assert(w0.combat_stats@[pe] is Some && w0.combat_stats@[pe]->Some_0.hp >= 1);
                    assert(attack_lands(w2, e));
                }
            }
            lemma_hits_eq_attackers(w2, w0, ppos, pe, n);
            let hits = melee_attackers_upto(w0, ppos, n);
            lemma_hits_nonneg(w2, pe, n);
            assert(damage_seq_of(w2.suffer_damage@[pe]) == Seq::<i32>::empty());
            assert(damage_seq_of(w3.suffer_damage@[pe]) =~= ones(hits));
            assert(w5.combat_stats@[pe] == w4.combat_stats@[pe]);
            assert(w3.combat_stats@[pe] == w0.combat_stats@[pe]);
            if damaged(w3, pe) {
                let amounts = w3.suffer_damage@[pe]->Some_0.amount@;
                assert(amounts =~= ones(hits));
                assert(forall|j: int| 0 <= j < amounts.len() ==> amounts[j] == 1);
                lemma_unit_hits_sum(amounts);
                assert(crate::damage_system::seq_sum(amounts) == hits);
            } else {
                assert(w4.combat_stats@[pe] == w3.combat_stats@[pe]);
                assert(ones(hits).len() == 0);
                assert(hits == 0);
            }
            assert(w5.combat_stats@[pe] == Some(
                (CombatStats {
                    max_hp: w0.combat_stats@[pe]->Some_0.max_hp,
                    hp: (w0.combat_stats@[pe]->Some_0.hp - hits) as i32,
                }),
            ));
            assert forall|e: int| 0 <= e < n && e != pe implies w5.combat_stats@[e]
                == w0.combat_stats@[e] by {
                lemma_hits_zero_elsewhere(w2, pe, e, n);
                assert(damage_seq_of(w2.suffer_damage@[e]) == Seq::<i32>::empty());
                assert(damage_seq_of(w3.suffer_damage@[e]) =~= ones(0));
                assert(w5.combat_stats@[e] == w4.combat_stats@[e]);
                assert(w3.combat_stats@[e] == w0.combat_stats@[e]);
                if damaged(w3, e) {
                    let amounts = w3.suffer_damage@[e]->Some_0.amount@;
                    assert(amounts =~= ones(0));
                    lemma_unit_hits_sum(amounts);
                    assert(crate::damage_system::seq_sum(amounts) == 0);
                    assert(w3.combat_stats@[e] is Some);
                    assert(w4.combat_stats@[e] == Some(
                        (CombatStats {
                            max_hp: w3.combat_stats@[e]->Some_0.max_hp,
                            hp: (w3.combat_stats@[e]->Some_0.hp - 0) as i32,
                        }),
                    ));
                } else {
                    assert(w4.combat_stats@[e] == w3.combat_stats@[e]);
                }
            }
            lemma_reports_props(w2, w0, ppos, pe, n);
            assert(log@ == reports_upto(w2, n));
        }
        log
    }

    /// Resolves one frame of the scheduler: runs the pipeline for an
    /// opening, player or hostile turn, dispatches a waiting player
    /// command, or handles the menu — then removes the dead and
    /// spawns their loot. Returns the frame's combat narration. The
    /// state stays well formed as long as the player survived.
    pub fn tick(&mut self, cmd: Option<Command>) -> (log: Vec<AttackReport>)
        requires
            old(self).wf(),
        ensures
            final(self).player_entity == old(self).player_entity,
            final(self).run_state == next_run_state(old(self).run_state, cmd),
            final(self).ecs.alive@[final(self).player_entity as int] ==> final(self).wf(),
            ({
                let pre = *old(self);
                if pre.run_state == RunState::PreRun || pre.run_state == RunState::PlayerTurn
                    || pre.run_state == RunState::BlobTurn {
                    exists|mid: State|
                        {
                            &&& #[trigger] pipeline_post(pre, mid, log@)
                            &&& lifecycle_post(mid.ecs, final(self).ecs)
                            &&& final(self).map == mid.map
                            &&& final(self).player_pos == mid.player_pos
                        }
                } else if pre.run_state == RunState::AwaitingInput {
                    &&& log@ == Seq::<AttackReport>::empty()
                    &&& exists|mid: State|
                        {
                            &&& #[trigger] crate::player::input_post(pre, mid, cmd)
                            &&& lifecycle_post(mid.ecs, final(self).ecs)
                            &&& final(self).map == mid.map
                            &&& final(self).player_pos == mid.player_pos
                        }
                } else {
                    &&& log@ == Seq::<AttackReport>::empty()
                    &&& lifecycle_post(pre.ecs, final(self).ecs)
                    &&& final(self).map == pre.map
                    &&& final(self).player_pos == pre.player_pos
                }
            }),
    {
        let ghost pre = *old(self);
        let mut log: Vec<AttackReport> = Vec::new();
        let ghost mut mid = *self;
        match self.run_state {
            RunState::PreRun => {
                log = self.run_systems();
                proof {
                    mid = *self;
                }
                self.run_state = RunState::AwaitingInput;
            },
            RunState::AwaitingInput => {
                let rs = player_input(self, cmd);
                proof {
                    mid = *self;
                }
                self.run_state = rs;
            },
            RunState::PlayerTurn => {
                log = self.run_systems();
                proof {
                    mid = *self;
                }
                self.run_state = RunState::BlobTurn;
            },
            RunState::BlobTurn => {
                log = self.run_systems();
                proof {
                    mid = *self;
                }
                self.run_state = RunState::AwaitingInput;
            },
            RunState::Menu => {
                proof {
                    mid = *self;
                }
                if crate::gui::show_menu(cmd) == crate::gui::MenuResult::Cancel {
                    self.run_state = RunState::AwaitingInput;
                }
            },
        }
        proof {
            // damage only ever reaches the player, so nothing else can
            // have run out of hit points by now
            assert forall|e: int|
                0 <= e < mid.ecs.n() && e != mid.player_entity as int implies !dead_marked(
                mid.ecs,
                e,
            ) by {
                if pre.run_state == RunState::AwaitingInput {
                    assert(crate::player::input_post(pre, mid, cmd));
                    assert(mid.ecs.combat_stats@[e] == pre.ecs.combat_stats@[e]) by {
                        match cmd {
                            Option::None => {},
                            Some(Command::OpenMenu) => {},
                            Some(Command::MoveWest) => {},
                            Some(Command::MoveEast) => {},
                            Some(Command::MoveNorth) => {},
                            Some(Command::MoveSouth) => {},
                            Some(Command::Pickup) => {},
                        }
                    }
                } else if pre.run_state == RunState::Menu {
                    assert(mid.ecs == pre.ecs);
                } else {
                    assert(pipeline_post(pre, mid, log@));
                    assert(mid.ecs.combat_stats@[e] == pre.ecs.combat_stats@[e]);
                }
            }
        }
        let ghost mid2 = *self;
        let _last_drop = delete_the_dead(&mut self.ecs);
        proof {
            assert(mid2.ecs == mid.ecs);
            lemma_tick_close(mid2, *self);
            if pre.run_state == RunState::PreRun || pre.run_state == RunState::PlayerTurn
                || pre.run_state == RunState::BlobTurn {
                assert(pipeline_post(pre, mid, log@));
                assert(lifecycle_post(mid.ecs, self.ecs));
            } else if pre.run_state == RunState::AwaitingInput {
                assert(crate::player::input_post(pre, mid, cmd));
                assert(lifecycle_post(mid.ecs, self.ecs));
                assert(log@ =~= Seq::<AttackReport>::empty());
            } else {
                assert(mid.ecs == pre.ecs);
                assert(lifecycle_post(pre.ecs, self.ecs));
                assert(log@ =~= Seq::<AttackReport>::empty());
            }
        }
        log
    }
}

/// Re-establishes the between-tick invariants after lifecycle
/// resolution: survivors keep their slots, loot is inert and placed
/// where its owner fell, and every remaining combatant has hit
/// points again.
proof fn lemma_tick_close(mid: State, post: State)
    requires
        mid.wf_base(),
        mid.at_rest(),
        forall|e: int|
            0 <= e < mid.ecs.n() && e != mid.player_entity as int ==> !dead_marked(mid.ecs, e),
        post.map == mid.map,
        post.player_entity == mid.player_entity,
        post.player_pos == mid.player_pos,
        post.ecs.wf(),
        crate::damage_system::lifecycle_post(mid.ecs, post.ecs),
    ensures
        post.ecs.alive@[post.player_entity as int] ==> post.wf(),
{
    let w0 = mid.ecs;
    let w1 = post.ecs;
    let m = mid.map;
    let wi = m.width as int;
    let n0 = w0.n();
    let pe = mid.player_entity as int;
    lemma_drops_len(w0, n0);
    lemma_drops_in_bounds(w0, m, n0);
    if w1.alive@[pe] {
        assert(!dead_marked(w0, pe)) by {
            if dead_marked(w0, pe) {
                assert(slot_dead(w1, pe));
            }
        }
        crate::damage_system::lemma_no_dead_no_drops(w0, n0);
        assert(w1.n() == n0);
        assert(slots_unchanged(w0, w1, pe));
        assert forall|e: int|
            0 <= e < w1.n() && (#[trigger] w1.positions@[e]) is Some implies m.in_bounds(
            w1.positions@[e]->Some_0.x as int,
            w1.positions@[e]->Some_0.y as int,
        ) by {
            if e < n0 {
                if dead_marked(w0, e) {
                    assert(slot_dead(w1, e));
                } else {
                    assert(slots_unchanged(w0, w1, e));
                }
            } else {
                let d = drops_upto(w0, n0)[e - n0];
                assert(loot_slot(w1, e, d.0, d.1, d.2));
            }
        }
        assert forall|e: int|
            0 <= e < w1.n() && (#[trigger] w1.viewsheds@[e]) is Some implies 1 <= w1.viewsheds@[
            e
        ]->Some_0.range <= 0x1000 by {
            if e < n0 {
                if dead_marked(w0, e) {
                    assert(slot_dead(w1, e));
                } else {
                    assert(slots_unchanged(w0, w1, e));
                }
            } else {
                let d = drops_upto(w0, n0)[e - n0];
                assert(loot_slot(w1, e, d.0, d.1, d.2));
            }
        }
        assert forall|e: int|
            0 <= e < w1.n() && w1.live(e) && (#[trigger] w1.blobs@[e]) implies w1.blocks_tiles@[e]
            by {
            if e < n0 {
                if dead_marked(w0, e) {
                    assert(slot_dead(w1, e));
                } else {
                    assert(slots_unchanged(w0, w1, e));
                }
            } else {
                let d = drops_upto(w0, n0)[e - n0];
                assert(loot_slot(w1, e, d.0, d.1, d.2));
            }
        }
        assert forall|e: int|
            0 <= e < w1.n() && w1.live(e) && (#[trigger] w1.positions@[e]) is Some
                && w1.blocks_tiles@[e] implies w1.positions@[e] == w0.positions@[e] && 0 <= e < n0
                && w0.live(e) && w0.blocks_tiles@[e] by {
            if e >= n0 {
                let d = drops_upto(w0, n0)[e - n0];
                assert(loot_slot(w1, e, d.0, d.1, d.2));
            } else {
                if dead_marked(w0, e) {
                    assert(slot_dead(w1, e));
                }
                assert(slots_unchanged(w0, w1, e));
            }
        }
        assert forall|e1: int, e2: int|
            0 <= e1 < e2 < w1.n() && w1.live(e1) && w1.live(e2) && w1.blocks_tiles@[e1]
                && w1.blocks_tiles@[e2] && w1.positions@[e1] is Some && w1.positions@[e2] is Some
            implies #[trigger] pos_idx(w1, wi, e1) != #[trigger] pos_idx(w1, wi, e2) by {
            assert(pos_idx(w1, wi, e1) == pos_idx(w0, wi, e1));
            assert(pos_idx(w1, wi, e2) == pos_idx(w0, wi, e2));
            assert(pos_idx(w0, wi, e1) != pos_idx(w0, wi, e2));
        }
        assert forall|e: int|
            0 <= e < w1.n() && w1.live(e) && (#[trigger] w1.positions@[e]) is Some
                && w1.blocks_tiles@[e] implies !is_solid(m.tiles@[pos_idx(w1, wi, e)]) by {
            assert(pos_idx(w1, wi, e) == pos_idx(w0, wi, e));
        }
        assert forall|idx: int|
            0 <= idx < m.count() && (is_solid(#[trigger] m.tiles@[idx]) || blocker_at(
                w1,
                wi,
                idx,
            )) implies m.occupied@[idx] by {
            if blocker_at(w1, wi, idx) {
                let e = choose|e: int|
                    0 <= e < w1.n() && w1.live(e) && (#[trigger] w1.positions@[e]) is Some
                        && w1.blocks_tiles@[e] && w1.positions@[e]->Some_0.y * wi
                        + w1.positions@[e]->Some_0.x == idx;
                assert(w1.positions@[e] == w0.positions@[e] && 0 <= e < n0 && w0.live(e)
                    && w0.blocks_tiles@[e]);
                assert(blocker_at(w0, wi, idx));
            }
        }
        assert forall|e: int|
            0 <= e < w1.n() && (#[trigger] w1.combat_stats@[e]) is Some implies w1.alive@[e]
                && w1.names@[e] is Some && w1.positions@[e] is Some && w1.combat_stats@[
            e
        ]->Some_0.hp >= 1 by {
            if e < n0 {
                if dead_marked(w0, e) {
                    assert(slot_dead(w1, e));
                } else {
                    assert(slots_unchanged(w0, w1, e));
                    assert(w0.combat_stats@[e] is Some);
                    if w0.combat_stats@[e]->Some_0.hp < 1 {
                        assert(dead_marked(w0, e));
                    }
                }
            } else {
                let d = drops_upto(w0, n0)[e - n0];
                assert(loot_slot(w1, e, d.0, d.1, d.2));
            }
        }
        assert forall|e: int|
            0 <= e < w1.n() && (#[trigger] w1.items@[e]) implies !w1.blocks_tiles@[e]
                && w1.combat_stats@[e] is None by {
            if e < n0 {
                if dead_marked(w0, e) {
                    assert(slot_dead(w1, e));
                } else {
                    assert(slots_unchanged(w0, w1, e));
                }
            } else {
                let d = drops_upto(w0, n0)[e - n0];
                assert(loot_slot(w1, e, d.0, d.1, d.2));
            }
        }
        assert forall|e: int| 0 <= e < w1.n() implies (#[trigger] w1.wants_melee@[e]) is None by {
            if e < n0 {
                if dead_marked(w0, e) {
                    assert(slot_dead(w1, e));
                } else {
                    assert(slots_unchanged(w0, w1, e));
                }
            } else {
                let d = drops_upto(w0, n0)[e - n0];
                assert(loot_slot(w1, e, d.0, d.1, d.2));
            }
        }
        assert forall|e: int| 0 <= e < w1.n() implies (#[trigger] w1.suffer_damage@[e]) is None by {
            if e < n0 {
                if dead_marked(w0, e) {
                    assert(slot_dead(w1, e));
                } else {
                    assert(slots_unchanged(w0, w1, e));
                }
            } else {
                let d = drops_upto(w0, n0)[e - n0];
                assert(loot_slot(w1, e, d.0, d.1, d.2));
            }
        }
        assert forall|e: int|
            0 <= e < w1.n() && (#[trigger] w1.wants_pickup@[e]) is Some implies {
            let it = w1.wants_pickup@[e]->Some_0.item as int;
            &&& 0 <= it < w1.n()
            &&& !w1.blocks_tiles@[it]
            &&& w1.combat_stats@[it] is None
        } by {
            if e >= n0 {
                let d = drops_upto(w0, n0)[e - n0];
                assert(loot_slot(w1, e, d.0, d.1, d.2));
            } else if dead_marked(w0, e) {
                assert(slot_dead(w1, e));
            } else {
                assert(slots_unchanged(w0, w1, e));
                assert(w0.wants_pickup@[e] is Some);
                let it = w0.wants_pickup@[e]->Some_0.item as int;
                if dead_marked(w0, it) {
                    assert(slot_dead(w1, it));
                } else {
                    assert(slots_unchanged(w0, w1, it));
                }
            }
        }
    }
}

/// Loot falls where its owner fell: every drop's coordinates lie on
/// the grid.
proof fn lemma_drops_in_bounds(w: World, m: GameMap, k: int)
    requires
        w.wf(),
        k <= w.n(),
        positions_in_bounds(w, m),
    ensures
        forall|j: int|
            0 <= j < drops_upto(w, k).len() ==> m.in_bounds(
                (#[trigger] drops_upto(w, k)[j]).1 as int,
                drops_upto(w, k)[j].2 as int,
            ),
    decreases k,
{
    if k > 0 {
        lemma_drops_in_bounds(w, m, k - 1);
        let prev = drops_upto(w, k - 1);
        let cur = drops_upto(w, k);
        if dead_marked(w, k - 1) && w.names@[k - 1]->Some_0.name@ != "Player"@ {
            assert(w.positions@[k - 1] is Some);
            assert(m.in_bounds(
                w.positions@[k - 1]->Some_0.x as int,
                w.positions@[k - 1]->Some_0.y as int,
            ));
            assert forall|j: int|
                0 <= j < cur.len() implies m.in_bounds(
                (#[trigger] cur[j]).1 as int,
                cur[j].2 as int,
            ) by {
                if j < prev.len() {
                    assert(cur[j] == prev[j]);
                }
            }
        } else {
            assert(cur == prev);
        }
    }
}


/// The component record layout of a freshly spawned player at
/// `(x, y)`: a live, named, seeing, non-blocking combatant.
pub open spec fn player_slot(w: World, e: int, x: i32, y: i32) -> bool {
    &&& w.alive@[e]
    &&& w.positions@[e] == Some((Position { x, y }))
    &&& w.renderables@[e] == Some(
        (crate::components::Renderable {
            glyph: '@',
            fg: crate::components::Color::Yellow,
            bg: crate::components::Color::Black,
        }),
    )
    &&& w.players@[e]
    &&& !w.blobs@[e]
    &&& w.viewsheds@[e] is Some
    &&& w.viewsheds@[e]->Some_0.range == 8
    &&& w.names@[e] is Some
    &&& w.names@[e]->Some_0.name@ == "Player"@
    &&& !w.blocks_tiles@[e]
    &&& w.combat_stats@[e] == Some((crate::components::CombatStats { max_hp: 10, hp: 10 }))
    &&& w.wants_melee@[e] is None
    &&& w.suffer_damage@[e] is None
    &&& !w.items@[e]
    &&& w.heals@[e] is None
    &&& w.inventories@[e] is None
    &&& w.wants_pickup@[e] is None
}

/// The name a hostile of spawn rank `i` carries; the first four
/// ranks are the coloured ones, all others the generic grey kind.
pub open spec fn blob_name(i: int) -> Seq<char> {
    if i == 1 {
        "RED"@
    } else if i == 2 {
        "BLUE"@
    } else if i == 3 {
        "PURPLE"@
    } else if i == 4 {
        "YELLOW"@
    } else {
        "GREY"@
    }
}

/// The colour a hostile of spawn rank `i` is drawn with.
pub open spec fn blob_color(i: int) -> crate::components::Color {
    if i == 1 {
        crate::components::Color::Red
    } else if i == 2 {
        crate::components::Color::Blue
    } else if i == 3 {
        crate::components::Color::Purple
    } else if i == 4 {
        crate::components::Color::Yellow
    } else {
        crate::components::Color::Grey
    }
}

/// The component record layout of a freshly spawned hostile of rank
/// `i` at `(x, y)`: a live, named, seeing, blocking combatant with a
/// single hit point.
pub open spec fn blob_slot(w: World, e: int, x: i32, y: i32, i: int) -> bool {
    &&& w.alive@[e]
    &&& w.positions@[e] == Some((Position { x, y }))
    &&& w.renderables@[e] == Some(
        (crate::components::Renderable {
            glyph: 'O',
            fg: blob_color(i),
            bg: crate::components::Color::Black,
        }),
    )
    &&& !w.players@[e]
    &&& w.blobs@[e]
    &&& w.viewsheds@[e] is Some
    &&& w.viewsheds@[e]->Some_0.range == 8
    &&& w.names@[e] is Some
    &&& w.names@[e]->Some_0.name@ == blob_name(i)
    &&& w.blocks_tiles@[e]
    &&& w.combat_stats@[e] == Some((crate::components::CombatStats { max_hp: 1, hp: 1 }))
    &&& w.wants_melee@[e] is None
    &&& w.suffer_damage@[e] is None
    &&& !w.items@[e]
    &&& w.heals@[e] is None
    &&& w.inventories@[e] is None
    &&& w.wants_pickup@[e] is None
}

/// What world setup guarantees of every spawned hostile: a live,
/// named, blocking, seeing one-hit-point hostile of one of the eight
/// spawn ranks, standing on a floor tile of the grid outside every
/// room.
pub open spec fn hostile_spawn_ok(w: World, m: GameMap, e: int) -> bool {
    &&& w.alive@[e]
    &&& !w.players@[e]
    &&& w.blobs@[e]
    &&& w.blocks_tiles@[e]
    &&& w.viewsheds@[e] is Some
    &&& w.viewsheds@[e]->Some_0.range == 8
    &&& w.combat_stats@[e] == Some((CombatStats { max_hp: 1, hp: 1 }))
    &&& w.positions@[e] is Some
    &&& m.in_bounds(w.positions@[e]->Some_0.x as int, w.positions@[e]->Some_0.y as int)
    &&& !is_solid(m.tiles@[pos_idx(w, m.width as int, e)])
    &&& (forall|k: int|
        0 <= k < m.rooms@.len() ==> !(#[trigger] m.rooms@[k]).spec_inside(
            w.positions@[e]->Some_0.x as int,
            w.positions@[e]->Some_0.y as int,
        ))
    &&& w.names@[e] is Some
    &&& (exists|i: int|
        0 <= i < 8 && w.names@[e]->Some_0.name@ == blob_name(i) && w.renderables@[e] == Some(
            (crate::components::Renderable {
                glyph: 'O',
                fg: blob_color(i),
                bg: crate::components::Color::Black,
            }),
        ))
}

/// Creates the player entity at `(x, y)` with full health and a
/// sight radius of eight tiles.
pub fn spawn_player(world: &mut World, x: i32, y: i32) -> (e: Entity)
    requires
        old(world).wf(),
        old(world).n() < usize::MAX,
    ensures
        final(world).wf(),
        e == old(world).n(),
        final(world).n() == old(world).n() + 1,
        forall|e2: int| 0 <= e2 < old(world).n() ==> slots_unchanged(*old(world), *final(world), e2),
        player_slot(*final(world), e as int, x, y),
{
    let e = world.create_entity();
    world.positions.set(e, Some(Position { x, y }));
    world.renderables.set(
        e,
        Some(
            crate::components::Renderable {
                glyph: '@',
                fg: crate::components::Color::Yellow,
                bg: crate::components::Color::Black,
            },
        ),
    );
    world.players.set(e, true);
    world.viewsheds.set(
        e,
        Some(crate::components::Viewshed { visible_tiles: Vec::new(), range: 8 }),
    );
    world.names.set(e, Some(crate::components::Name { name: "Player".to_owned() }));
    world.combat_stats.set(e, Some(crate::components::CombatStats { max_hp: 10, hp: 10 }));
    e
}

/// Creates one hostile of spawn rank `i` at `(x, y)`: it sees, it
/// blocks its tile, and it dies to a single hit.
pub fn spawn_blob(world: &mut World, x: i32, y: i32, i: i32) -> (e: Entity)
    requires
        old(world).wf(),
        old(world).n() < usize::MAX,
    ensures
        final(world).wf(),
        e == old(world).n(),
        final(world).n() == old(world).n() + 1,
        forall|e2: int| 0 <= e2 < old(world).n() ==> slots_unchanged(*old(world), *final(world), e2),
        blob_slot(*final(world), e as int, x, y, i as int),
{
    let e = world.create_entity();
    world.positions.set(e, Some(Position { x, y }));
    let color = if i == 1 {
        crate::components::Color::Red
    } else if i == 2 {
        crate::components::Color::Blue
    } else if i == 3 {
        crate::components::Color::Purple
    } else if i == 4 {
        crate::components::Color::Yellow
    } else {
        crate::components::Color::Grey
    };
    let name = if i == 1 {
        "RED".to_owned()
    } else if i == 2 {
        "BLUE".to_owned()
    } else if i == 3 {
        "PURPLE".to_owned()
    } else if i == 4 {
        "YELLOW".to_owned()
    } else {
        "GREY".to_owned()
    };
    world.renderables.set(
        e,
        Some(
            crate::components::Renderable {
                glyph: 'O',
                fg: color,
                bg: crate::components::Color::Black,
            },
        ),
    );
    world.blobs.set(e, true);
    world.viewsheds.set(
        e,
        Some(crate::components::Viewshed { visible_tiles: Vec::new(), range: 8 }),
    );
    world.names.set(e, Some(crate::components::Name { name }));
    world.blocks_tiles.set(e, true);
    world.combat_stats.set(e, Some(crate::components::CombatStats { max_hp: 1, hp: 1 }));
    e
}

/// Generates a fresh game: a new map, the player in the first room
/// (or at the map's middle when generation placed no room), and
/// eight hostiles scattered outside the rooms on free floor tiles,
/// the first four of the coloured kinds. The scheduler starts on the
/// opening pass.
pub fn new_game(seed: u64) -> (gs: State)
    ensures
        gs.wf(),
        gs.run_state == RunState::PreRun,
        gs.player_entity == 0,
        gs.ecs.alive@[gs.player_entity as int],
        player_slot(gs.ecs, 0, gs.player_pos.x, gs.player_pos.y),
        gs.map.rooms@.len() == crate::map::NUM_ROOMS,
        gs.player_pos.x == (gs.map.rooms@[0].x1 + gs.map.rooms@[0].x2) / 2,
        gs.player_pos.y == (gs.map.rooms@[0].y1 + gs.map.rooms@[0].y2) / 2,
        1 <= gs.ecs.n() <= 9,
        forall|e: int| 1 <= e < gs.ecs.n() ==> hostile_spawn_ok(gs.ecs, gs.map, e),
{
    let mut rng = crate::rng::Rng::new(seed);
    let mut map = GameMap::map_gen(&mut rng);
    map.occupied();
    proof {
        assert(map.rooms@[0].wf());
    }
    let first_room = map.rooms[0];
    let (px, py) = first_room.center();
    let mut ecs = World::new();
    let player_entity = spawn_player(&mut ecs, px, py);
    let player_pos = Position { x: px, y: py };
    let mut i: i32 = 0;
    while i < 8
        invariant
            ecs.wf(),
            map.wf(),
            map.width == crate::map::MAPWIDTH,
            map.height == crate::map::MAPHEIGHT,
            1 <= ecs.n() <= 1 + i,
            0 <= i <= 8,
            player_entity == 0,
            forall|j: int| 0 <= j < map.rooms@.len() ==> (#[trigger] map.rooms@[j]).wf(),
            player_slot(ecs, 0, px, py),
            player_pos.x == px,
            player_pos.y == py,
            map.rooms@.len() == crate::map::NUM_ROOMS,
            px == (map.rooms@[0].x1 + map.rooms@[0].x2) / 2,
            py == (map.rooms@[0].y1 + map.rooms@[0].y2) / 2,
            forall|e2: int| 1 <= e2 < ecs.n() ==> hostile_spawn_ok(ecs, map, e2),
            map.in_bounds(px as int, py as int),
            positions_in_bounds(ecs, map),
            viewshed_ranges_ok(ecs),
            blobs_block(ecs),
            blockers_distinct(ecs, map.width as int),
            blockers_on_floor(ecs, map),
            occ_covers(ecs, map),
            forall|e: int| 0 <= e < ecs.n() ==> (#[trigger] ecs.wants_melee@[e]) is None,
            forall|e: int| 0 <= e < ecs.n() ==> (#[trigger] ecs.suffer_damage@[e]) is None,
            forall|e: int| 0 <= e < ecs.n() ==> (#[trigger] ecs.wants_pickup@[e]) is None,
            forall|e: int| 0 <= e < ecs.n() ==> !(#[trigger] ecs.items@[e]),
            forall|e: int|
                0 <= e < ecs.n() && (#[trigger] ecs.combat_stats@[e]) is Some ==> ecs.alive@[e]
                    && ecs.names@[e] is Some && ecs.positions@[e] is Some && ecs.combat_stats@[
                    e
                ]->Some_0.hp >= 1,
        decreases 8 - i,
    {
        let mut tries: u32 = 0;
        let mut placed = false;
        while tries < 100 && !placed
            invariant
                ecs.wf(),
                map.wf(),
                map.width == crate::map::MAPWIDTH,
                map.height == crate::map::MAPHEIGHT,
                0 <= i < 8,
                player_entity == 0,
                forall|j: int| 0 <= j < map.rooms@.len() ==> (#[trigger] map.rooms@[j]).wf(),
                player_slot(ecs, 0, px, py),
                map.rooms@.len() == crate::map::NUM_ROOMS,
                px == (map.rooms@[0].x1 + map.rooms@[0].x2) / 2,
                py == (map.rooms@[0].y1 + map.rooms@[0].y2) / 2,
                forall|e2: int| 1 <= e2 < ecs.n() ==> hostile_spawn_ok(ecs, map, e2),
                map.in_bounds(px as int, py as int),
                positions_in_bounds(ecs, map),
                viewshed_ranges_ok(ecs),
                blobs_block(ecs),
                blockers_distinct(ecs, map.width as int),
                blockers_on_floor(ecs, map),
                occ_covers(ecs, map),
                forall|e: int| 0 <= e < ecs.n() ==> (#[trigger] ecs.wants_melee@[e]) is None,
                forall|e: int| 0 <= e < ecs.n() ==> (#[trigger] ecs.suffer_damage@[e]) is None,
                forall|e: int| 0 <= e < ecs.n() ==> (#[trigger] ecs.wants_pickup@[e]) is None,
                forall|e: int| 0 <= e < ecs.n() ==> !(#[trigger] ecs.items@[e]),
                forall|e: int|
                    0 <= e < ecs.n() && (#[trigger] ecs.combat_stats@[e]) is Some ==> ecs.alive@[e]
                        && ecs.names@[e] is Some && ecs.positions@[e] is Some && ecs.combat_stats@[
                        e
                    ]->Some_0.hp >= 1,
                1 <= ecs.n(),
                placed ==> ecs.n() <= 1 + i + 1,
                !placed ==> ecs.n() <= 1 + i,
            decreases 100 - tries, 1int - (if placed { 1int } else { 0int }),
        {
            tries = tries + 1;
            let x = rng.roll_dice(1, 79);
            let y = rng.roll_dice(1, 42);
            let mut inside = false;
            let mut k: usize = 0;
            while k < map.rooms.len()
                invariant
                    map.wf(),
                    k <= map.rooms@.len(),
                    forall|j: int| 0 <= j < map.rooms@.len() ==> (#[trigger] map.rooms@[j]).wf(),
                    inside == exists|j: int|
                        0 <= j < k && (#[trigger] map.rooms@[j]).spec_inside(x as int, y as int),
                decreases map.rooms@.len() - k,
            {
                if map.rooms[k].inside((x, y)) {
                    inside = true;
                }
                k = k + 1;
            }
            if !inside {
                let idx = map.index(x, y);
                if !map.occupied[idx] {
                    let ghost prev_w = ecs;
                    let ghost prev_m = map;
                    let b = spawn_blob(&mut ecs, x, y, i);
                    map.occupied.set(idx, true);
                    placed = true;
                    proof {
                        lemma_spawned_blocker(prev_w, ecs, prev_m, map, b as int, idx as int);
                        let bn = b as int;
                        assert(slots_unchanged(prev_w, ecs, 0));
                        assert(player_slot(ecs, 0, px, py));
                        assert forall|e2: int|
                            0 <= e2 < ecs.n() && (#[trigger] ecs.viewsheds@[e2]) is Some implies 1
                            <= ecs.viewsheds@[e2]->Some_0.range <= 0x1000 by {
                            if e2 < prev_w.n() {
                                assert(slots_unchanged(prev_w, ecs, e2));
                            } else {
                                assert(blob_slot(ecs, bn, x, y, i as int));
                            }
                        }
                        assert forall|e2: int|
                            0 <= e2 < ecs.n() implies (#[trigger] ecs.wants_melee@[e2]) is None by {
                            if e2 < prev_w.n() {
                                assert(slots_unchanged(prev_w, ecs, e2));
                            } else {
                                assert(blob_slot(ecs, bn, x, y, i as int));
                            }
                        }
                        assert forall|e2: int|
                            0 <= e2 < ecs.n() implies (#[trigger] ecs.suffer_damage@[e2]) is None
                            by {
                            if e2 < prev_w.n() {
                                assert(slots_unchanged(prev_w, ecs, e2));
                            } else {
                                assert(blob_slot(ecs, bn, x, y, i as int));
                            }
                        }
                        assert forall|e2: int|
                            0 <= e2 < ecs.n() implies (#[trigger] ecs.wants_pickup@[e2]) is None
                            by {
                            if e2 < prev_w.n() {
                                assert(slots_unchanged(prev_w, ecs, e2));
                            } else {
                                assert(blob_slot(ecs, bn, x, y, i as int));
                            }
                        }
                        assert forall|e2: int|
                            0 <= e2 < ecs.n() implies !(#[trigger] ecs.items@[e2]) by {
                            if e2 < prev_w.n() {
                                assert(slots_unchanged(prev_w, ecs, e2));
                            } else {
                                assert(blob_slot(ecs, bn, x, y, i as int));
                            }
                        }
                        assert forall|e2: int|
                            0 <= e2 < ecs.n() && (#[trigger] ecs.combat_stats@[e2]) is Some implies
                            ecs.alive@[e2] && ecs.names@[e2] is Some && ecs.positions@[e2] is Some
                                && ecs.combat_stats@[e2]->Some_0.hp >= 1 by {
                            if e2 < prev_w.n() {
                                assert(slots_unchanged(prev_w, ecs, e2));
                            } else {
                                assert(blob_slot(ecs, bn, x, y, i as int));
                            }
                        }
                        assert forall|e2: int|
                            0 <= e2 < ecs.n() && ecs.live(e2) && (#[trigger] ecs.blobs@[e2])
                            implies ecs.blocks_tiles@[e2] by {
                            if e2 < prev_w.n() {
                                assert(slots_unchanged(prev_w, ecs, e2));
                                assert(prev_w.live(e2) && prev_w.blobs@[e2]);
                            } else {
                                assert(blob_slot(ecs, bn, x, y, i as int));
                            }
                        }
                        assert(!is_solid(prev_m.tiles@[idx as int])) by {
                            if is_solid(prev_m.tiles@[idx as int]) {
                                assert(prev_m.occupied@[idx as int]);
                            }
                        }
                        assert(hostile_spawn_ok(ecs, map, bn)) by {
                            assert(blob_slot(ecs, bn, x, y, i as int));
                            assert(pos_idx(ecs, map.width as int, bn) == idx);
                            assert(0 <= i < 8);
                            assert(ecs.names@[bn]->Some_0.name@ == blob_name(i as int)
                                && ecs.renderables@[bn] == Some(
                                (crate::components::Renderable {
                                    glyph: 'O',
                                    fg: blob_color(i as int),
                                    bg: crate::components::Color::Black,
                                }),
                            ));
                        }
                        assert forall|e2: int|
                            1 <= e2 < ecs.n() && e2 != bn implies hostile_spawn_ok(
                            ecs,
                            map,
                            e2,
                        ) by {
                            assert(hostile_spawn_ok(prev_w, prev_m, e2));
                            assert(slots_unchanged(prev_w, ecs, e2));
                            assert(pos_idx(ecs, map.width as int, e2) == pos_idx(
                                prev_w,
                                prev_m.width as int,
                                e2,
                            ));
                        }
                    }
                }
            }
        }
        i = i + 1;
    }
    let gs = State { ecs, map, player_entity, player_pos, run_state: RunState::PreRun };
    gs
}

/// Spawning one blocking hostile on a free floor tile, and marking
/// its tile occupied, preserves every occupancy invariant.
proof fn lemma_spawned_blocker(
    pre_w: World,
    post_w: World,
    pre_m: GameMap,
    post_m: GameMap,
    e: int,
    idx: int,
)
    requires
        pre_w.wf(),
        pre_m.wf(),
        post_m.tiles == pre_m.tiles,
        post_m.width == pre_m.width,
        post_m.height == pre_m.height,
        post_m.rooms == pre_m.rooms,
        post_m.tile_content == pre_m.tile_content,
        post_m.occupied@ == pre_m.occupied@.update(idx, true),
        0 <= idx < pre_m.count(),
        !pre_m.occupied@[idx],
        post_w.n() == pre_w.n() + 1,
        e == pre_w.n(),
        forall|e2: int| 0 <= e2 < pre_w.n() ==> slots_unchanged(pre_w, post_w, e2),
        post_w.positions@[e] is Some,
        post_w.positions@[e]->Some_0.y * (pre_m.width as int) + post_w.positions@[e]->Some_0.x
            == idx,
        pre_m.in_bounds(
            post_w.positions@[e]->Some_0.x as int,
            post_w.positions@[e]->Some_0.y as int,
        ),
        post_w.blocks_tiles@[e],
        positions_in_bounds(pre_w, pre_m),
        blockers_distinct(pre_w, pre_m.width as int),
        blockers_on_floor(pre_w, pre_m),
        occ_covers(pre_w, pre_m),
    ensures
        positions_in_bounds(post_w, post_m),
        blockers_distinct(post_w, post_m.width as int),
        blockers_on_floor(post_w, post_m),
        occ_covers(post_w, post_m),
{
    let wi = pre_m.width as int;
    assert(!is_solid(pre_m.tiles@[idx]));
    assert(!blocker_at(pre_w, wi, idx));
    assert(pos_idx(post_w, wi, e) == idx);
    assert forall|e2: int|
        0 <= e2 < post_w.n() && (#[trigger] post_w.positions@[e2]) is Some implies
        post_m.in_bounds(
        post_w.positions@[e2]->Some_0.x as int,
        post_w.positions@[e2]->Some_0.y as int,
    ) by {
        if e2 < pre_w.n() {
            assert(slots_unchanged(pre_w, post_w, e2));
        }
    }
    assert forall|e1: int, e2: int|
        0 <= e1 < e2 < post_w.n() && post_w.live(e1) && post_w.live(e2) && post_w.blocks_tiles@[e1]
            && post_w.blocks_tiles@[e2] && post_w.positions@[e1] is Some && post_w.positions@[e2]
            is Some implies #[trigger] pos_idx(post_w, wi, e1) != #[trigger] pos_idx(
        post_w,
        wi,
        e2,
    ) by {
        if e2 == e {
            assert(slots_unchanged(pre_w, post_w, e1));
            assert(pos_idx(post_w, wi, e1) == pos_idx(pre_w, wi, e1));
            if pos_idx(pre_w, wi, e1) == idx {
                assert(blocker_at(pre_w, wi, idx));
            }
        } else {
            assert(slots_unchanged(pre_w, post_w, e1));
            assert(slots_unchanged(pre_w, post_w, e2));
            assert(pos_idx(post_w, wi, e1) == pos_idx(pre_w, wi, e1));
            assert(pos_idx(post_w, wi, e2) == pos_idx(pre_w, wi, e2));
        }
    }
    assert forall|e2: int|
        0 <= e2 < post_w.n() && post_w.live(e2) && (#[trigger] post_w.positions@[e2]) is Some
            && post_w.blocks_tiles@[e2] implies !is_solid(post_m.tiles@[pos_idx(post_w, wi, e2)])
        by {
        if e2 < pre_w.n() {
            assert(slots_unchanged(pre_w, post_w, e2));
            assert(pos_idx(post_w, wi, e2) == pos_idx(pre_w, wi, e2));
        } else {
            assert(pos_idx(post_w, wi, e2) == idx);
        }
    }
    assert forall|idx2: int|
        0 <= idx2 < post_m.count() && (is_solid(#[trigger] post_m.tiles@[idx2]) || blocker_at(
            post_w,
            wi,
            idx2,
        )) implies post_m.occupied@[idx2] by {
        if idx2 != idx {
            if blocker_at(post_w, wi, idx2) {
                let e2 = choose|e2: int|
                    0 <= e2 < post_w.n() && post_w.live(e2) && (#[trigger] post_w.positions@[e2])
                        is Some && post_w.blocks_tiles@[e2] && post_w.positions@[e2]->Some_0.y * wi
                        + post_w.positions@[e2]->Some_0.x == idx2;
                assert(e2 != e);
                assert(slots_unchanged(pre_w, post_w, e2));
                assert(blocker_at(pre_w, wi, idx2));
            }
        }
    }
}

} // verus!
