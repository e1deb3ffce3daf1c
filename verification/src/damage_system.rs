//! The damage and lifecycle resolver: applies accumulated damage,
//! removes depleted entities, and spawns their loot.

use vstd::prelude::*;

use crate::components::CombatStats;
use crate::components::Color;
use crate::components::Entity;
use crate::components::Heal;
use crate::components::Item;
use crate::components::Name;
use crate::components::Position;
use crate::components::Renderable;
use crate::components::damage_seq_of;
use crate::world::World;

verus! {

/// Healing power carried by every dropped item.
pub const DROP_HEAL_AMOUNT: i32 = 4;

/// The sum of a damage accumulator.
pub open spec fn seq_sum(s: Seq<i32>) -> int
    decreases s.len(),
{
    if s.len() == 0 {
        0
    } else {
        seq_sum(s.drop_last()) + s.last()
    }
}

/// Removing one entry splits the sum: the whole equals the rest plus
/// the removed entry.
pub proof fn lemma_sum_remove(s: Seq<i32>, i: int)
    requires
        0 <= i < s.len(),
    ensures
        seq_sum(s) == seq_sum(s.remove(i)) + s[i],
    decreases s.len(),
{
    if i == s.len() - 1 {
        assert(s.remove(i) =~= s.drop_last());
    } else {
        lemma_sum_remove(s.drop_last(), i);
        assert(s.remove(i).drop_last() =~= s.drop_last().remove(i));
        assert(s.remove(i).last() == s.last());
        assert(seq_sum(s.remove(i)) == seq_sum(s.remove(i).drop_last()) + s.remove(i).last());
    }
}

/// Damage application is strictly order-independent: two
/// accumulators holding the same entries in any order, with any
/// attacker interleaving, subtract the same total from a victim's
/// hit points.
pub proof fn lemma_sum_permutation(s1: Seq<i32>, s2: Seq<i32>)
    requires
        s1.to_multiset() == s2.to_multiset(),
    ensures
        seq_sum(s1) == seq_sum(s2),
    decreases s1.len(),
{
    broadcast use vstd::seq_lib::group_seq_properties;

    s1.to_multiset_ensures();
    s2.to_multiset_ensures();
    if s1.len() == 0 {
        assert(s2.len() == 0);
    } else {
        let x = s1.last();
        assert(s1.to_multiset().count(x) > 0) by {
            assert(s1.contains(x));
        }
        assert(s2.contains(x));
        let i = choose|i: int| 0 <= i < s2.len() && s2[i] == x;
        lemma_sum_remove(s2, i);
        assert(s1.drop_last().to_multiset() =~= s2.remove(i).to_multiset()) by {
            assert(s1 =~= s1.drop_last().push(x));
            s1.drop_last().to_multiset_ensures();
            vstd::seq_lib::to_multiset_remove(s2, i);
            assert(s1.to_multiset() == s1.drop_last().to_multiset().insert(x));
            assert(s2.remove(i).to_multiset() == s2.to_multiset().remove(x));
            assert(s1.drop_last().to_multiset() =~= s1.to_multiset().remove(x));
        }
        lemma_sum_permutation(s1.drop_last(), s2.remove(i));
    }
}

/// A tick's worth of single-point hits sums to the number of hits:
/// `n` accumulated one-point entries take exactly `n` hit points.
pub proof fn lemma_unit_hits_sum(s: Seq<i32>)
    requires
        forall|i: int| 0 <= i < s.len() ==> s[i] == 1,
    ensures
        seq_sum(s) == s.len(),
    decreases s.len(),
{
    if s.len() > 0 {
        lemma_unit_hits_sum(s.drop_last());
    }
}

/// A sum of nonnegative entries is nonnegative.
pub proof fn lemma_sum_nonneg(s: Seq<i32>)
    requires
        forall|i: int| 0 <= i < s.len() ==> s[i] >= 0,
    ensures
        seq_sum(s) >= 0,
    decreases s.len(),
{
    if s.len() > 0 {
        lemma_sum_nonneg(s.drop_last());
    }
}

/// Extending a prefix by one entry adds that entry to its sum.
pub proof fn lemma_sum_take_step(s: Seq<i32>, j: int)
    requires
        0 <= j < s.len(),
    ensures
        seq_sum(s.take(j + 1)) == seq_sum(s.take(j)) + s[j],
{
    assert(s.take(j + 1).drop_last() =~= s.take(j));
    assert(s.take(j + 1).last() == s[j]);
}

/// A prefix of a nonnegative accumulator sums to no more than the
/// whole accumulator.
pub proof fn lemma_sum_take_le(s: Seq<i32>, j: int)
    requires
        0 <= j <= s.len(),
        forall|i: int| 0 <= i < s.len() ==> s[i] >= 0,
    ensures
        seq_sum(s.take(j)) <= seq_sum(s),
    decreases s.len() - j,
{
    if j == s.len() {
        assert(s.take(j) =~= s);
    } else {
        lemma_sum_take_step(s, j);
        lemma_sum_take_le(s, j + 1);
    }
}

/// Adds up a damage accumulator's entries.
fn sum_amounts(amounts: &Vec<i32>) -> (r: i32)
    requires
        forall|i: int| 0 <= i < amounts@.len() ==> amounts@[i] >= 0,
        seq_sum(amounts@) <= i32::MAX,
    ensures
        r == seq_sum(amounts@),
{
    let mut total: i32 = 0;
    let mut j: usize = 0;
    let n = amounts.len();
    while j < n
        invariant
            n == amounts@.len(),
            j <= n,
            forall|j2: int| 0 <= j2 < amounts@.len() ==> amounts@[j2] >= 0,
            seq_sum(amounts@) <= i32::MAX,
            total == seq_sum(amounts@.take(j as int)),
            0 <= total,
        decreases n - j,
    {
        proof {
            lemma_sum_take_step(amounts@, j as int);
            lemma_sum_take_le(amounts@, j as int + 1);
            assert(forall|i2: int|
                0 <= i2 < amounts@.take(j as int + 1).len() ==> #[trigger] amounts@.take(
                    j as int + 1,
                )[i2] >= 0);
            lemma_sum_nonneg(amounts@.take(j as int + 1));
        }
        total = total + amounts[j];
        j = j + 1;
    }
    proof {
        assert(amounts@.take(n as int) =~= amounts@);
    }
    total
}

/// Whether the damage resolver touches entity `e`: it holds combat
/// stats and a pending damage accumulator.
pub open spec fn damaged(w: World, e: int) -> bool {
    w.combat_stats@[e] is Some && w.suffer_damage@[e] is Some
}

/// Bounds under which damage application cannot overflow the hit
/// point counter: entries are nonnegative and the totals stay inside
/// the machine range.
pub open spec fn damage_in_range(w: World) -> bool {
    forall|e: int|
        0 <= e < w.n() && #[trigger] damaged(w, e) ==> {
            let amounts = w.suffer_damage@[e]->Some_0.amount@;
            &&& (forall|j: int| 0 <= j < amounts.len() ==> amounts[j] >= 0)
            &&& seq_sum(amounts) <= i32::MAX
            &&& w.combat_stats@[e]->Some_0.hp - seq_sum(amounts) >= i32::MIN
        }
}

/// The damage resolver. Runs after combat and before lifecycle
/// resolution.
pub struct DamageSystem {}

impl DamageSystem {
    /// Subtracts each victim's accumulated damage total from its hit
    /// points, then clears every accumulator.
    pub fn run(&mut self, world: &mut World)
        requires
            old(world).wf(),
            damage_in_range(*old(world)),
        ensures
            final(world).wf(),
            final(world).n() == old(world).n(),
            final(world).alive == old(world).alive,
            final(world).positions == old(world).positions,
            final(world).renderables == old(world).renderables,
            final(world).players == old(world).players,
            final(world).blobs == old(world).blobs,
            final(world).viewsheds == old(world).viewsheds,
            final(world).names == old(world).names,
            final(world).blocks_tiles == old(world).blocks_tiles,
            final(world).wants_melee == old(world).wants_melee,
            final(world).items == old(world).items,
            final(world).heals == old(world).heals,
            final(world).inventories == old(world).inventories,
            final(world).wants_pickup == old(world).wants_pickup,
            forall|e: int| 0 <= e < old(world).n() ==> final(world).suffer_damage@[e] is None,
            forall|e: int|
                0 <= e < old(world).n() && #[trigger] damaged(*old(world), e)
                    ==> final(world).combat_stats@[e] == Some(
                    (CombatStats {
                        max_hp: old(world).combat_stats@[e]->Some_0.max_hp,
                        hp: (old(world).combat_stats@[e]->Some_0.hp - seq_sum(
                            old(world).suffer_damage@[e]->Some_0.amount@,
                        )) as i32,
                    }),
                ),
            forall|e: int|
                0 <= e < old(world).n() && !damaged(*old(world), e)
                    ==> final(world).combat_stats@[e] == old(world).combat_stats@[e],
    {
        let n = world.len();
        let mut e: usize = 0;
        while e < n
            invariant
                world.wf(),
                n == world.n(),
                e <= n,
                damage_in_range(*old(world)),
                world.alive == old(world).alive,
                world.positions == old(world).positions,
                world.renderables == old(world).renderables,
                world.players == old(world).players,
                world.blobs == old(world).blobs,
                world.viewsheds == old(world).viewsheds,
                world.names == old(world).names,
                world.blocks_tiles == old(world).blocks_tiles,
                world.wants_melee == old(world).wants_melee,
                world.items == old(world).items,
                world.heals == old(world).heals,
                world.inventories == old(world).inventories,
                world.wants_pickup == old(world).wants_pickup,
                forall|e2: int| 0 <= e2 < e ==> world.suffer_damage@[e2] is None,
                forall|e2: int|
                    e <= e2 < n ==> world.suffer_damage@[e2] == old(world).suffer_damage@[e2],
                forall|e2: int|
                    0 <= e2 < e && #[trigger] damaged(*old(world), e2) ==> world.combat_stats@[e2]
                        == Some(
                        (CombatStats {
                            max_hp: old(world).combat_stats@[e2]->Some_0.max_hp,
                            hp: (old(world).combat_stats@[e2]->Some_0.hp - seq_sum(
                                old(world).suffer_damage@[e2]->Some_0.amount@,
                            )) as i32,
                        }),
                    ),
                forall|e2: int|
                    e <= e2 < n ==> world.combat_stats@[e2] == old(world).combat_stats@[e2],
                forall|e2: int|
                    0 <= e2 < e && !(#[trigger] damaged(*old(world), e2)) ==> world.combat_stats@[e2]
                        == old(world).combat_stats@[e2],
            decreases n - e,
        {
            let ghost prev = *world;
            let has_damage = match &world.suffer_damage[e] {
                Some(_) => true,
                None => false,
            };
            let stats_opt = world.combat_stats[e];
            if has_damage {
                if let Some(stats) = stats_opt {
                    proof {
                        assert(damaged(*old(world), e as int));
                    }
                    let total = match &world.suffer_damage[e] {
                        Some(d) => sum_amounts(&d.amount),
                        None => 0,
                    };
                    proof {
                        assert(total == seq_sum(
                            old(world).suffer_damage@[e as int]->Some_0.amount@,
                        ));
                        assert(stats == old(world).combat_stats@[e as int]->Some_0);
                        lemma_sum_nonneg(old(world).suffer_damage@[e as int]->Some_0.amount@);
                        assert(i32::MIN <= stats.hp - total <= i32::MAX);
                    }
                    world.combat_stats.set(
                        e,
                        Some(CombatStats { max_hp: stats.max_hp, hp: stats.hp - total }),
                    );
                }
            }
            world.suffer_damage.set(e, None);
            e = e + 1;
        }
    }
}

/// The colour a crystal of the given name is drawn with.
pub open spec fn crystal_color(name: Seq<char>) -> Color {
    if name == "RED"@ {
        Color::Red
    } else if name == "BLUE"@ {
        Color::Blue
    } else if name == "PURPLE"@ {
        Color::Purple
    } else if name == "YELLOW"@ {
        Color::Yellow
    } else {
        Color::Grey
    }
}

/// What a dead entity with the given name drops: the generic grey
/// name drops a healing item, any other name a crystal named after
/// it, drawn in its colour. The result is the dropped item's name,
/// glyph and foreground colour.
pub open spec fn drop_spec(name: Seq<char>) -> (Seq<char>, char, Color) {
    if name == "GREY"@ {
        ("Health"@, '+', Color::Red)
    } else {
        (name, '\u{2666}', crystal_color(name))
    }
}

/// Whether entity `e` keeps exactly the same slot in every component
/// storage across two world states.
pub open spec fn slots_unchanged(a: World, b: World, e: int) -> bool {
    &&& b.alive@[e] == a.alive@[e]
    &&& b.positions@[e] == a.positions@[e]
    &&& b.renderables@[e] == a.renderables@[e]
    &&& b.players@[e] == a.players@[e]
    &&& b.blobs@[e] == a.blobs@[e]
    &&& b.viewsheds@[e] == a.viewsheds@[e]
    &&& b.names@[e] == a.names@[e]
    &&& b.blocks_tiles@[e] == a.blocks_tiles@[e]
    &&& b.combat_stats@[e] == a.combat_stats@[e]
    &&& b.wants_melee@[e] == a.wants_melee@[e]
    &&& b.suffer_damage@[e] == a.suffer_damage@[e]
    &&& b.items@[e] == a.items@[e]
    &&& b.heals@[e] == a.heals@[e]
    &&& b.inventories@[e] == a.inventories@[e]
    &&& b.wants_pickup@[e] == a.wants_pickup@[e]
}

/// Whether entity `e` has been removed: marked dead with every
/// component dropped.
pub open spec fn slot_dead(w: World, e: int) -> bool {
    &&& !w.alive@[e]
    &&& w.positions@[e] is None
    &&& w.renderables@[e] is None
    &&& !w.players@[e]
    &&& !w.blobs@[e]
    &&& w.viewsheds@[e] is None
    &&& w.names@[e] is None
    &&& !w.blocks_tiles@[e]
    &&& w.combat_stats@[e] is None
    &&& w.wants_melee@[e] is None
    &&& w.suffer_damage@[e] is None
    &&& !w.items@[e]
    &&& w.heals@[e] is None
    &&& w.inventories@[e] is None
    &&& w.wants_pickup@[e] is None
}

/// Whether entity `e` is a freshly dropped loot item for a dead
/// entity named `name` that fell at `(x, y)`.
pub open spec fn loot_slot(w: World, e: int, name: Seq<char>, x: i32, y: i32) -> bool {
    &&& w.alive@[e]
    &&& w.positions@[e] == Some((Position { x, y }))
    &&& w.renderables@[e] == Some(
        (Renderable { glyph: drop_spec(name).1, fg: drop_spec(name).2, bg: Color::Black }),
    )
    &&& !w.players@[e]
    &&& !w.blobs@[e]
    &&& w.viewsheds@[e] is None
    &&& w.names@[e] is Some
    &&& w.names@[e]->Some_0.name@ == drop_spec(name).0
    &&& !w.blocks_tiles@[e]
    &&& w.combat_stats@[e] is None
    &&& w.wants_melee@[e] is None
    &&& w.suffer_damage@[e] is None
    &&& w.items@[e]
    &&& w.heals@[e] == Some((Heal { heal_amount: DROP_HEAL_AMOUNT }))
    &&& w.inventories@[e] is None
    &&& w.wants_pickup@[e] is None
}

/// Creates the loot a dead entity leaves behind and returns its
/// handle. The generic grey name drops a healing item; any other
/// name drops a crystal named after it, drawn in its colour. Both
/// carry the same fixed heal amount.
pub fn drop_item(world: &mut World, x: i32, y: i32, i: String) -> (e: Entity)
    requires
        old(world).wf(),
        old(world).n() < usize::MAX,
    ensures
        final(world).wf(),
        e == old(world).n(),
        final(world).n() == old(world).n() + 1,
        forall|e2: int| 0 <= e2 < old(world).n() ==> slots_unchanged(*old(world), *final(world), e2),
        loot_slot(*final(world), e as int, i@, x, y),
    {
    let e = world.create_entity();
    world.positions.set(e, Some(Position { x, y }));
    if i == "GREY".to_owned() {
        world.renderables.set(
            e,
            Some(Renderable { glyph: '+', fg: Color::Red, bg: Color::Black }),
        );
        world.names.set(e, Some(Name { name: "Health".to_owned() }));
    } else {
        let color = if i == "RED".to_owned() {
            Color::Red
        } else if i == "BLUE".to_owned() {
            Color::Blue
        } else if i == "PURPLE".to_owned() {
            Color::Purple
        } else if i == "YELLOW".to_owned() {
            Color::Yellow
        } else {
            Color::Grey
        };
        world.renderables.set(
            e,
            Some(Renderable { glyph: '\u{2666}', fg: color, bg: Color::Black }),
        );
        world.names.set(e, Some(Name { name: i }));
    }
    world.items.set(e, true);
    world.heals.set(e, Some(Heal { heal_amount: DROP_HEAL_AMOUNT }));
    e
}

/// Whether lifecycle resolution removes entity `e`: a live, named,
/// positioned combatant whose hit points have run out.
pub open spec fn dead_marked(w: World, e: int) -> bool {
    &&& w.live(e)
    &&& w.combat_stats@[e] is Some
    &&& w.names@[e] is Some
    &&& w.positions@[e] is Some
    &&& w.combat_stats@[e]->Some_0.hp < 1
}

/// There are never more drops than entities scanned.
pub proof fn lemma_drops_len(w: World, k: int)
    requires
        0 <= k,
    ensures
        drops_upto(w, k).len() <= k,
    decreases k,
{
    if k > 0 {
        lemma_drops_len(w, k - 1);
    }
}

/// The drops owed by the first `k` entities: the name and resting
/// place of each dead entity other than the player, in entity order.
pub open spec fn drops_upto(w: World, k: int) -> Seq<(Seq<char>, i32, i32)>
    decreases k,
{
    if k <= 0 {
        Seq::empty()
    } else {
        let prev = drops_upto(w, k - 1);
        if dead_marked(w, k - 1) && w.names@[k - 1]->Some_0.name@ != "Player"@ {
            prev.push(
                (
                    (
                        w.names@[k - 1]->Some_0.name@,
                        w.positions@[k - 1]->Some_0.x,
                        w.positions@[k - 1]->Some_0.y,
                    )
                ),
            )
        } else {
            prev
        }
    }
}

/// What lifecycle resolution leaves behind: every live, named,
/// positioned combatant out of hit points is removed with all its
/// components, every other existing entity keeps its slots
/// untouched, and exactly one loot item per dead non-player entity
/// is appended, typed by the dead entity's name and standing where
/// it fell.
pub open spec fn lifecycle_post(pre: World, post: World) -> bool {
    &&& post.n() == pre.n() + drops_upto(pre, pre.n()).len()
    &&& (forall|e: int|
        0 <= e < pre.n() ==> if dead_marked(pre, e) {
            slot_dead(post, e)
        } else {
            slots_unchanged(pre, post, e)
        })
    &&& (forall|j: int|
        0 <= j < drops_upto(pre, pre.n()).len() ==> {
            let d = #[trigger] drops_upto(pre, pre.n())[j];
            loot_slot(post, pre.n() + j, d.0, d.1, d.2)
        })
}

/// Where nothing is out of hit points, lifecycle resolution owes no
/// drops.
pub proof fn lemma_no_dead_no_drops(w: World, k: int)
    requires
        forall|e: int| 0 <= e < k ==> !dead_marked(w, e),
    ensures
        drops_upto(w, k).len() == 0,
    decreases k,
{
    if k > 0 {
        lemma_no_dead_no_drops(w, k - 1);
    }
}

/// Removes every depleted entity and spawns its loot: each dead,
/// named, positioned combatant leaves the world, and each one other
/// than the player leaves exactly one loot item at its last
/// position, typed solely by its name. Returns the most recently
/// dropped item, if any.
pub fn delete_the_dead(world: &mut World) -> (r: Option<Entity>)
    requires
        old(world).wf(),
        old(world).n() * 2 < usize::MAX,
    ensures
        final(world).wf(),
        lifecycle_post(*old(world), *final(world)),
        r == if drops_upto(*old(world), old(world).n()).len() == 0 {
            Option::<Entity>::None
        } else {
            Option::<Entity>::Some(
                (old(world).n() + drops_upto(*old(world), old(world).n()).len() - 1) as Entity,
            )
        },
{
    let n = world.len();
    let mut drops: Vec<(String, i32, i32)> = Vec::new();
    let mut e: usize = 0;
    while e < n
        invariant
            world.wf(),
            n == world.n(),
            n == old(world).n(),
            e <= n,
            n * 2 < usize::MAX,
            forall|e2: int| e <= e2 < n ==> slots_unchanged(*old(world), *world, e2),
            forall|e2: int|
                0 <= e2 < e ==> if dead_marked(*old(world), e2) {
                    slot_dead(*world, e2)
                } else {
                    slots_unchanged(*old(world), *world, e2)
                },
            drops@.len() == drops_upto(*old(world), e as int).len(),
            forall|j: int|
                0 <= j < drops@.len() ==> {
                    let d = drops_upto(*old(world), e as int)[j];
                    (#[trigger] drops@[j]).0@ == d.0 && drops@[j].1 == d.1 && drops@[j].2 == d.2
                },
        decreases n - e,
    {
        let ghost prev = *world;
        proof {
            assert(slots_unchanged(*old(world), *world, e as int));
        }
        let mut is_dead = false;
        let mut keep_drop = false;
        let mut drop_name = String::new();
        let mut drop_x: i32 = 0;
        let mut drop_y: i32 = 0;
        if world.alive[e] {
            if let Some(stats) = world.combat_stats[e] {
                if stats.hp < 1 {
                    let has_name_pos = match (&world.names[e], &world.positions[e]) {
                        (Some(_), Some(_)) => true,
                        _ => false,
                    };
                    if has_name_pos {
                        is_dead = true;
                        match (&world.names[e], &world.positions[e]) {
                            (Some(name), Some(pos)) => {
                                if name.name != "Player".to_owned() {
                                    keep_drop = true;
                                    drop_name = name.name.clone();
                                    drop_x = pos.x;
                                    drop_y = pos.y;
                                }
                            },
                            _ => {},
                        }
                    }
                }
            }
        }
        if is_dead {
            if keep_drop {
                drops.push((drop_name, drop_x, drop_y));
            }
            world.delete_entity(e);
        }
        proof {
            assert(is_dead == dead_marked(*old(world), e as int));
            if is_dead && keep_drop {
                assert(drops_upto(*old(world), e as int + 1) == drops_upto(
                    *old(world),
                    e as int,
                ).push(
                    (
                        (
                            old(world).names@[e as int]->Some_0.name@,
                            old(world).positions@[e as int]->Some_0.x,
                            old(world).positions@[e as int]->Some_0.y,
                        )
                    ),
                ));
            } else {
                assert(drops_upto(*old(world), e as int + 1) == drops_upto(*old(world), e as int));
            }
            assert forall|e2: int|
                0 <= e2 < e as int + 1 implies if dead_marked(*old(world), e2) {
                slot_dead(*world, e2)
            } else {
                slots_unchanged(*old(world), *world, e2)
            } by {
                if e2 < e as int {
                    if dead_marked(*old(world), e2) {
                        assert(slot_dead(prev, e2));
                    } else {
                        assert(slots_unchanged(*old(world), prev, e2));
                    }
                }
            }
            assert forall|e2: int| e as int + 1 <= e2 < n implies slots_unchanged(
                *old(world),
                *world,
                e2,
            ) by {
                assert(slots_unchanged(*old(world), prev, e2));
            }
        }
        e = e + 1;
    }
    let dl = drops.len();
    let ghost all_drops = drops_upto(*old(world), n as int);
    proof {
        lemma_drops_len(*old(world), n as int);
    }
    let mut last: Option<Entity> = None;
    let mut j: usize = 0;
    while j < dl
        invariant
            world.wf(),
            n == old(world).n(),
            dl == all_drops.len(),
            all_drops == drops_upto(*old(world), n as int),
            j <= dl,
            world.n() == n + j,
            n + dl < usize::MAX,
            forall|e2: int|
                0 <= e2 < n ==> if dead_marked(*old(world), e2) {
                    slot_dead(*world, e2)
                } else {
                    slots_unchanged(*old(world), *world, e2)
                },
            forall|j2: int|
                0 <= j2 < dl ==> {
                    let d = all_drops[j2];
                    (#[trigger] drops@[j2]).0@ == d.0 && drops@[j2].1 == d.1 && drops@[j2].2 == d.2
                },
            drops@.len() == dl,
            forall|j2: int|
                0 <= j2 < j ==> loot_slot(
                    *world,
                    n + j2,
                    all_drops[j2].0,
                    all_drops[j2].1,
                    all_drops[j2].2,
                ),
            last == if j == 0 {
                Option::<Entity>::None
            } else {
                Option::<Entity>::Some((n + j - 1) as Entity)
            },
        decreases dl - j,
    {
        let ghost prev = *world;
        let item_name = drops[j].0.clone();
        let item_x = drops[j].1;
        let item_y = drops[j].2;
        let d = drop_item(world, item_x, item_y, item_name);
        last = Some(d);
        proof {
            assert forall|e2: int|
                0 <= e2 < n implies if dead_marked(*old(world), e2) {
                slot_dead(*world, e2)
            } else {
                slots_unchanged(*old(world), *world, e2)
            } by {
                assert(slots_unchanged(prev, *world, e2));
                if dead_marked(*old(world), e2) {
                    assert(slot_dead(prev, e2));
                } else {
                    assert(slots_unchanged(*old(world), prev, e2));
                }
            }
            assert forall|j2: int| 0 <= j2 < j as int + 1 implies loot_slot(
                *world,
                n + j2,
                all_drops[j2].0,
                all_drops[j2].1,
                all_drops[j2].2,
            ) by {
                if j2 < j as int {
                    assert(loot_slot(prev, n + j2, all_drops[j2].0, all_drops[j2].1, all_drops[j2].2));
                    assert(slots_unchanged(prev, *world, n + j2));
                }
            }
        }
        j = j + 1;
    }
    last
}

} // verus!
