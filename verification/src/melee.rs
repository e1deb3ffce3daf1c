//! The combat resolver: turns pending melee intents into damage
//! entries.

use vstd::prelude::*;

use crate::components::Entity;
use crate::components::SufferDamage;
use crate::components::damage_seq_of;
use crate::world::World;

verus! {

/// One resolved attack, reported for the combat narration: who hit
/// whom, and for how much.
#[derive(Clone, Copy, PartialEq, Eq, Structural, Debug)]
pub struct AttackReport {
    pub attacker: Entity,
    pub target: Entity,
    pub amount: i32,
}

/// Damage dealt by a single melee hit.
pub const MELEE_DAMAGE: i32 = 1;

/// Whether entity `e`'s pending attack lands this tick: the attacker
/// is a live combatant that queued an attack and is not itself dying,
/// and the target still has hit points left.
pub open spec fn attack_lands(w: World, e: int) -> bool {
    &&& w.live(e)
    &&& w.wants_melee@[e] is Some
    &&& w.names@[e] is Some
    &&& w.combat_stats@[e] is Some
    &&& w.combat_stats@[e]->Some_0.hp > 0
    &&& 0 <= w.wants_melee@[e]->Some_0.target < w.n()
    &&& w.combat_stats@[w.wants_melee@[e]->Some_0.target as int] is Some
    &&& w.combat_stats@[w.wants_melee@[e]->Some_0.target as int]->Some_0.hp > 0
}

/// Number of landed hits against victim `v` among the first `k`
/// attackers.
pub open spec fn hits_upto(w: World, v: int, k: int) -> int
    decreases k,
{
    if k <= 0 {
        0
    } else {
        hits_upto(w, v, k - 1) + if attack_lands(w, k - 1) && w.wants_melee@[k - 1]->Some_0.target
            == v {
            1int
        } else {
            0int
        }
    }
}

/// The attack reports produced by the first `k` attackers, in
/// attacker order.
pub open spec fn reports_upto(w: World, k: int) -> Seq<AttackReport>
    decreases k,
{
    if k <= 0 {
        Seq::empty()
    } else {
        let prev = reports_upto(w, k - 1);
        if attack_lands(w, k - 1) {
            prev.push(
                (AttackReport {
                    attacker: (k - 1) as Entity,
                    target: w.wants_melee@[k - 1]->Some_0.target,
                    amount: MELEE_DAMAGE,
                }),
            )
        } else {
            prev
        }
    }
}

/// A sequence of `k` single-point damage entries.
pub open spec fn ones(k: int) -> Seq<i32> {
    Seq::new(k as nat, |i: int| MELEE_DAMAGE)
}

/// A hit count is never negative.
pub proof fn lemma_hits_nonneg(w: World, v: int, k: int)
    ensures
        hits_upto(w, v, k) >= 0,
    decreases k,
{
    if k > 0 {
        lemma_hits_nonneg(w, v, k - 1);
    }
}

/// There are never more hits than attackers scanned.
pub proof fn lemma_hits_le(w: World, v: int, k: int)
    requires
        0 <= k,
    ensures
        hits_upto(w, v, k) <= k,
    decreases k,
{
    if k > 0 {
        lemma_hits_le(w, v, k - 1);
    }
}

/// Every queued melee intent of a live attacker with name and stats
/// aims at an entity that holds combat stats, and at one that also
/// holds a name while it is still alive to be hit. Creating an intent
/// against any other target is a contract violation upstream.
pub open spec fn melee_targets_valid(w: World) -> bool {
    forall|e: int|
        0 <= e < w.n() && w.live(e) && (#[trigger] w.wants_melee@[e]) is Some && w.names@[e] is Some
            && w.combat_stats@[e] is Some && w.combat_stats@[e]->Some_0.hp > 0 ==> {
            let t = w.wants_melee@[e]->Some_0.target;
            &&& 0 <= t < w.n()
            &&& w.combat_stats@[t as int] is Some
            &&& (w.combat_stats@[t as int]->Some_0.hp > 0 ==> w.names@[t as int] is Some)
        }
}

/// The combat resolver. Runs after the occupancy indexer and before
/// the damage resolver.
pub struct MeleeCombatSystem {}

impl MeleeCombatSystem {
    /// Resolves every pending melee intent in attacker order: each
    /// landed attack appends one fixed damage entry to its victim's
    /// accumulator, and every intent is cleared afterwards, resolved
    /// or not. Returns the attack reports for narration.
    pub fn run(&mut self, world: &mut World) -> (log: Vec<AttackReport>)
        requires
            old(world).wf(),
            melee_targets_valid(*old(world)),
        ensures
            final(world).wf(),
            final(world).n() == old(world).n(),
            final(world).alive == old(world).alive,
            final(world).positions == old(world).positions,
            final(world).renderables == old(world).renderables,
            final(world).players == old(world).players,
            final(world).blobs == old(world).blobs,
            final(world).viewsheds == old(world).viewsheds,
            final(world).names == old(world).names,
            final(world).blocks_tiles == old(world).blocks_tiles,
            final(world).combat_stats == old(world).combat_stats,
            final(world).items == old(world).items,
            final(world).heals == old(world).heals,
            final(world).inventories == old(world).inventories,
            final(world).wants_pickup == old(world).wants_pickup,
            forall|e: int| 0 <= e < final(world).n() ==> final(world).wants_melee@[e] is None,
            forall|v: int|
                0 <= v < final(world).n() ==> damage_seq_of(
                    #[trigger] final(world).suffer_damage@[v],
                ) == damage_seq_of(old(world).suffer_damage@[v]) + ones(
                    hits_upto(*old(world), v, old(world).n()),
                ),
            log@ == reports_upto(*old(world), old(world).n()),
    {
        let mut log: Vec<AttackReport> = Vec::new();
        let n = world.len();
        let mut e: usize = 0;
        while e < n
            invariant
                world.wf(),
                n == world.n(),
                e <= n,
                melee_targets_valid(*world),
                *world == (World { suffer_damage: world.suffer_damage, ..*old(world) }),
                forall|v: int|
                    0 <= v < n ==> damage_seq_of(#[trigger] world.suffer_damage@[v])
                        == damage_seq_of(old(world).suffer_damage@[v]) + ones(
                        hits_upto(*old(world), v, e as int),
                    ),
                log@ == reports_upto(*old(world), e as int),
            decreases n - e,
        {
            let ghost prev_w = *world;
            let mut lands = false;
            let mut target: Entity = 0;
            if world.alive[e] {
                if let Some(intent) = world.wants_melee[e] {
                    let has_name = match &world.names[e] {
                        Some(_) => true,
                        None => false,
                    };
                    if has_name {
                        if let Some(stats) = world.combat_stats[e] {
                            if stats.hp > 0 {
                                let target_stats = match world.combat_stats[intent.target] {
                                    Some(ts) => ts,
                                    None => {
                                        proof {
                                            assert(false);
                                        }
                                        stats
                                    },
                                };
                                if target_stats.hp > 0 {
                                    lands = true;
                                    target = intent.target;
                                }
                            }
                        }
                    }
                }
            }
            if lands {
                SufferDamage::new_damage(&mut world.suffer_damage, target, MELEE_DAMAGE);
                log.push(AttackReport { attacker: e, target, amount: MELEE_DAMAGE });
            }
            proof {
                assert(attack_lands(*old(world), e as int) == lands);
                assert(log@ == reports_upto(*old(world), e as int + 1));
                assert forall|v: int| 0 <= v < n implies damage_seq_of(
                    #[trigger] world.suffer_damage@[v],
                ) == damage_seq_of(old(world).suffer_damage@[v]) + ones(
                    hits_upto(*old(world), v, e as int + 1),
                ) by {
                    if lands && v == target {
                        lemma_hits_nonneg(*old(world), v, e as int);
                        assert(hits_upto(*old(world), v, e as int + 1) == hits_upto(
                            *old(world),
                            v,
                            e as int,
                        ) + 1);
                        assert(damage_seq_of(world.suffer_damage@[v]) == damage_seq_of(
                            prev_w.suffer_damage@[v],
                        ).push(MELEE_DAMAGE));
                        assert(damage_seq_of(old(world).suffer_damage@[v]) + ones(
                            hits_upto(*old(world), v, e as int + 1),
                        ) =~= (damage_seq_of(old(world).suffer_damage@[v]) + ones(
                            hits_upto(*old(world), v, e as int),
                        )).push(MELEE_DAMAGE));
                    } else {
                        assert(hits_upto(*old(world), v, e as int + 1) == hits_upto(
                            *old(world),
                            v,
                            e as int,
                        ));
                        assert(world.suffer_damage@[v] == prev_w.suffer_damage@[v]);
                    }
                }
            }
            e = e + 1;
        }
        let mut e2: usize = 0;
        while e2 < n
            invariant
                world.wf(),
                n == world.n(),
                e2 <= n,
                *world == (World {
                    suffer_damage: world.suffer_damage,
                    wants_melee: world.wants_melee,
                    ..*old(world)
                }),
                forall|v: int|
                    0 <= v < n ==> damage_seq_of(#[trigger] world.suffer_damage@[v])
                        == damage_seq_of(old(world).suffer_damage@[v]) + ones(
                        hits_upto(*old(world), v, n as int),
                    ),
                forall|j: int| 0 <= j < e2 ==> world.wants_melee@[j] is None,
            decreases n - e2,
        {
            world.wants_melee.set(e2, None);
            e2 = e2 + 1;
        }
        log
    }
}

} // verus!
