//! The visibility engine: recomputes each entity's viewshed from its
//! position and sight range.
//!
//! A tile is visible when it lies within the sight radius and no
//! solid tile stands strictly between it and the viewer along the
//! discretized line between the two tiles. The line is always walked
//! from the lexicographically smaller endpoint, so visibility is
//! symmetric by construction; walls and corners block sight, doors
//! and floor do not.

use vstd::prelude::*;

use crate::components::Position;
use crate::components::Viewshed;
use crate::map::GameMap;
use crate::map::is_solid;
use crate::map_index::positions_in_bounds;
use crate::world::World;

verus! {

/// The absolute value of an integer.
pub open spec fn abs_i(a: int) -> int {
    if a >= 0 {
        a
    } else {
        -a
    }
}

/// The larger of two integers.
pub open spec fn max_i(a: int, b: int) -> int {
    if a >= b {
        a
    } else {
        b
    }
}

/// Whether `(ax, ay)` comes no later than `(bx, by)` in column-major
/// lexicographic order.
pub open spec fn lex_le(ax: int, ay: int, bx: int, by: int) -> bool {
    ax < bx || (ax == bx && ay <= by)
}

/// Division of `a` by `n`, rounded to the nearest integer (ties
/// rounding up), for `a >= 0` and `n > 0`.
pub open spec fn round_div(a: int, n: int) -> int {
    (2 * a + n) / (2 * n)
}

/// The column of the `i`-th cell on the walk from `(ax, _)` towards
/// `(bx, _)` in `n` steps, for `ax <= bx`.
pub open spec fn walk_x(ax: int, bx: int, n: int, i: int) -> int {
    ax + round_div(i * (bx - ax), n)
}

/// The row of the `i`-th cell on the walk from `(_, ay)` towards
/// `(_, by)` in `n` steps.
pub open spec fn walk_y(ay: int, by: int, n: int, i: int) -> int {
    if by >= ay {
        ay + round_div(i * (by - ay), n)
    } else {
        ay - round_div(i * (ay - by), n)
    }
}

/// Whether no solid tile stands strictly between `(ax, ay)` and
/// `(bx, by)` on the walk from the former to the latter, for
/// `(ax, ay)` lexicographically no later than `(bx, by)`.
pub open spec fn seg_clear(m: GameMap, ax: int, ay: int, bx: int, by: int) -> bool {
    let n = max_i(bx - ax, abs_i(by - ay));
    forall|i: int|
        0 < i < n ==> !is_solid(
            m.tiles@[#[trigger] m.idx_of(walk_x(ax, bx, n, i), walk_y(ay, by, n, i))],
        )
}

/// Whether sight passes between two tiles: the walk between them,
/// taken from the lexicographically smaller endpoint so that the
/// relation is symmetric, meets no solid tile strictly in between.
pub open spec fn sight_clear(m: GameMap, ax: int, ay: int, bx: int, by: int) -> bool {
    if lex_le(ax, ay, bx, by) {
        seg_clear(m, ax, ay, bx, by)
    } else {
        seg_clear(m, bx, by, ax, ay)
    }
}

/// Whether the tile `(tx, ty)` is visible to a viewer on `(px, py)`
/// with sight radius `range`: on the grid, within Euclidean range,
/// and with a clear line of sight.
pub open spec fn visible_from(
    m: GameMap,
    px: int,
    py: int,
    tx: int,
    ty: int,
    range: int,
) -> bool {
    &&& m.in_bounds(tx, ty)
    &&& (tx - px) * (tx - px) + (ty - py) * (ty - py) <= range * range
    &&& sight_clear(m, px, py, tx, ty)
}

/// The rounded division of `i * d` by `n` stays between `0` and `d`
/// when `0 <= i <= n` and `0 <= d <= n`.
pub proof fn lemma_round_div_bounds(d: int, n: int, i: int)
    requires
        1 <= n,
        0 <= d <= n,
        0 <= i <= n,
    ensures
        0 <= round_div(i * d, n) <= d,
{
    let a = i * d;
    assert(0 <= a <= n * d) by (nonlinear_arith)
        requires
            a == i * d,
            0 <= i <= n,
            0 <= d,
    ;
    let q = (2 * a + n) / (2 * n);
    let r = (2 * a + n) % (2 * n);
    vstd::arithmetic::div_mod::lemma_fundamental_div_mod(2 * a + n, 2 * n);
    vstd::arithmetic::div_mod::lemma_mod_bound(2 * a + n, 2 * n);
    assert(0 <= q <= d) by (nonlinear_arith)
        requires
            2 * a + n == 2 * n * q + r,
            0 <= r < 2 * n,
            0 <= a <= n * d,
            1 <= n,
    ;
}

/// Checks whether sight passes between tiles `a` and `b`.
pub fn line_clear(m: &GameMap, a: Position, b: Position) -> (r: bool)
    requires
        m.wf(),
        m.in_bounds(a.x as int, a.y as int),
        m.in_bounds(b.x as int, b.y as int),
    ensures
        r == sight_clear(*m, a.x as int, a.y as int, b.x as int, b.y as int),
{
    let (ax, ay, bx, by) = if a.x < b.x || (a.x == b.x && a.y <= b.y) {
        (a.x, a.y, b.x, b.y)
    } else {
        (b.x, b.y, a.x, a.y)
    };
    let dx = bx - ax;
    let ady = if by >= ay {
        by - ay
    } else {
        ay - by
    };
    let n = if dx >= ady {
        dx
    } else {
        ady
    };
    let mut i: i32 = 1;
    while i < n
        invariant
            m.wf(),
            m.in_bounds(ax as int, ay as int),
            m.in_bounds(bx as int, by as int),
            ax <= bx,
            sight_clear(*m, a.x as int, a.y as int, b.x as int, b.y as int) == seg_clear(
                *m,
                ax as int,
                ay as int,
                bx as int,
                by as int,
            ),
            dx == bx - ax,
            ady == abs_i(by as int - ay as int),
            n == max_i(dx as int, ady as int),
            1 <= i,
            i <= n || n < 1,
            forall|j: int|
                0 < j < i ==> !is_solid(
                    m.tiles@[#[trigger] m.idx_of(
                        walk_x(ax as int, bx as int, n as int, j),
                        walk_y(ay as int, by as int, n as int, j),
                    )],
                ),
        decreases n - i,
    {
        proof {
            let ii = i as int;
            let dxi = dx as int;
            let adyi = ady as int;
            let ni = n as int;
            assert(2 * ii * dxi == 2 * (ii * dxi) && 0 <= 2 * ii * dxi + ni < 0x4000000 && 2 * ii
                * adyi == 2 * (ii * adyi) && 0 <= 2 * ii * adyi + ni < 0x4000000)
                by (nonlinear_arith)
                requires
                    0 <= ii < 0x1000,
                    0 <= dxi < 0x1000,
                    0 <= adyi < 0x1000,
                    0 <= ni < 0x1000,
            ;
            lemma_round_div_bounds(dxi, ni, ii);
            lemma_round_div_bounds(adyi, ni, ii);
        }
        let qx = ((2 * (i as u64) * (dx as u64) + (n as u64)) / (2 * (n as u64))) as i32;
        let qy = ((2 * (i as u64) * (ady as u64) + (n as u64)) / (2 * (n as u64))) as i32;
        let cx = ax + qx;
        let cy = if by >= ay {
            ay + qy
        } else {
            ay - qy
        };
        assert(cx as int == walk_x(ax as int, bx as int, n as int, i as int));
        assert(cy as int == walk_y(ay as int, by as int, n as int, i as int));
        let idx = m.index(cx, cy);
        if m.is_opaque(idx) {
            proof {
                assert(is_solid(
                    m.tiles@[m.idx_of(
                        walk_x(ax as int, bx as int, n as int, i as int),
                        walk_y(ay as int, by as int, n as int, i as int),
                    )],
                ));
                assert(!seg_clear(*m, ax as int, ay as int, bx as int, by as int));
            }
            return false;
        }
        i = i + 1;
    }
    true
}

/// Width of the square window that the viewshed scan walks for a
/// sight radius `range`.
pub open spec fn scan_w(range: int) -> int {
    2 * range + 1
}

/// The column of the `j`-th scanned cell around a viewer on column
/// `px`.
pub open spec fn scan_x(px: int, range: int, j: int) -> int {
    px + j % scan_w(range) - range
}

/// The row of the `j`-th scanned cell around a viewer on row `py`.
pub open spec fn scan_y(py: int, range: int, j: int) -> int {
    py + j / scan_w(range) - range
}

/// The visible tiles collected by the first `k` steps of the scan, in
/// scan order.
pub open spec fn fov_upto(m: GameMap, px: int, py: int, range: int, k: int) -> Seq<Position>
    decreases k,
{
    if k <= 0 {
        Seq::empty()
    } else {
        let prev = fov_upto(m, px, py, range, k - 1);
        let tx = scan_x(px, range, k - 1);
        let ty = scan_y(py, range, k - 1);
        if visible_from(m, px, py, tx, ty, range) {
            prev.push(Position { x: tx as i32, y: ty as i32 })
        } else {
            prev
        }
    }
}

/// A squared Euclidean bound confines each coordinate: if the sum of
/// squares is at most `r * r`, both deltas lie within `[-r, r]`.
pub proof fn lemma_dist2_bounds(dx: int, dy: int, r: int)
    requires
        0 <= r,
        dx * dx + dy * dy <= r * r,
    ensures
        -r <= dx <= r,
        -r <= dy <= r,
{
    assert(-r <= dx <= r && -r <= dy <= r) by (nonlinear_arith)
        requires
            0 <= r,
            dx * dx + dy * dy <= r * r,
    ;
}

/// The scan visits each window cell exactly once: membership in the
/// collected sequence coincides with visibility together with the
/// cell's scan step lying below `k`.
pub proof fn lemma_fov_upto_contains(
    m: GameMap,
    px: int,
    py: int,
    range: int,
    k: int,
    t: Position,
)
    requires
        0 <= px < 0x1000,
        0 <= py < 0x1000,
        1 <= range <= 0x1000,
        0 <= k <= scan_w(range) * scan_w(range),
    ensures
        fov_upto(m, px, py, range, k).contains(t) <==> ({
            let j = (t.y - py + range) * scan_w(range) + (t.x - px + range);
            &&& visible_from(m, px, py, t.x as int, t.y as int, range)
            &&& 0 <= j < k
        }),
    decreases k,
{
    broadcast use vstd::seq_lib::lemma_seq_contains_after_push;

    let w = scan_w(range);
    let jt = (t.y - py + range) * w + (t.x - px + range);
    if k <= 0 {
    } else {
        lemma_fov_upto_contains(m, px, py, range, k - 1, t);
        let tx = scan_x(px, range, k - 1);
        let ty = scan_y(py, range, k - 1);
        vstd::arithmetic::div_mod::lemma_fundamental_div_mod(k - 1, w);
        vstd::arithmetic::div_mod::lemma_mod_bound(k - 1, w);
        assert((k - 1) / w < w) by (nonlinear_arith)
            requires
                0 <= k - 1 < w * w,
                1 <= w,
                k - 1 == w * ((k - 1) / w) + (k - 1) % w,
                0 <= (k - 1) % w < w,
        ;
        let c = Position { x: tx as i32, y: ty as i32 };
        assert(c.x as int == tx && c.y as int == ty);
        assert((ty - py + range) * w + (tx - px + range) == k - 1) by (nonlinear_arith)
            requires
                tx - px + range == (k - 1) % w,
                ty - py + range == (k - 1) / w,
                k - 1 == w * ((k - 1) / w) + (k - 1) % w,
        ;
        if visible_from(m, px, py, t.x as int, t.y as int, range) && jt == k - 1 {
            lemma_dist2_bounds(t.x - px, t.y - py, range);
            assert(t.x as int == tx && t.y as int == ty) by (nonlinear_arith)
                requires
                    jt == (t.y - py + range) * w + (t.x - px + range),
                    jt == k - 1,
                    (ty - py + range) * w + (tx - px + range) == k - 1,
                    0 <= t.x - px + range < w,
                    0 <= t.y - py + range < w,
                    tx - px + range == (k - 1) % w,
                    ty - py + range == (k - 1) / w,
                    k - 1 == w * ((k - 1) / w) + (k - 1) % w,
                    0 <= (k - 1) % w < w,
                    0 <= (k - 1) / w < w,
            ;
            assert(t == c);
        }
        if t == c && visible_from(m, px, py, tx, ty, range) {
            assert(jt == k - 1);
        }
    }
}

/// Computes the set of tiles visible from `origin` with the given
/// sight radius: exactly those in range with a clear line of sight.
pub fn field_of_view(m: &GameMap, origin: Position, range: i32) -> (r: Vec<Position>)
    requires
        m.wf(),
        m.in_bounds(origin.x as int, origin.y as int),
        1 <= range <= 0x1000,
    ensures
        forall|t: Position|
            r@.contains(t) == visible_from(
                *m,
                origin.x as int,
                origin.y as int,
                t.x as int,
                t.y as int,
                range as int,
            ),
{
    let px = origin.x;
    let py = origin.y;
    let w: usize = 2 * (range as usize) + 1;
    proof {
        assert(w * w < 0x10000000) by (nonlinear_arith)
            requires
                0 < w < 0x3000,
        ;
    }
    let total: usize = w * w;
    let mut tiles: Vec<Position> = Vec::new();
    let mut j: usize = 0;
    while j < total
        invariant
            m.wf(),
            m.in_bounds(px as int, py as int),
            px == origin.x,
            py == origin.y,
            1 <= range <= 0x1000,
            w == scan_w(range as int),
            total == w * w,
            j <= total,
            tiles@ == fov_upto(*m, px as int, py as int, range as int, j as int),
        decreases total - j,
    {
        proof {
            assert(j / w < w) by (nonlinear_arith)
                requires
                    0 <= j < w * w,
                    1 <= w,
            ;
        }
        let jx = (j % w) as i32;
        let jy = (j / w) as i32;
        let tx = px + jx - range;
        let ty = py + jy - range;
        assert(tx as int == scan_x(px as int, range as int, j as int));
        assert(ty as int == scan_y(py as int, range as int, j as int));
        let mut vis = false;
        if 0 <= tx && tx < m.width && 0 <= ty && ty < m.height {
            let dxx = tx - px;
            let dyy = ty - py;
            proof {
                assert(dxx * dxx <= 0x10000000 && dyy * dyy <= 0x10000000 && range * range
                    <= 0x1000000 && dxx * dxx >= 0 && dyy * dyy >= 0)
                    by (nonlinear_arith)
                    requires
                        -0x3000 <= dxx <= 0x3000,
                        -0x3000 <= dyy <= 0x3000,
                        0 <= range <= 0x1000,
                ;
            }
            if dxx * dxx + dyy * dyy <= range * range {
                if line_clear(m, Position { x: px, y: py }, Position { x: tx, y: ty }) {
                    vis = true;
                }
            }
        }
        if vis {
            assert(visible_from(
                *m,
                px as int,
                py as int,
                tx as int,
                ty as int,
                range as int,
            ));
            tiles.push(Position { x: tx, y: ty });
        } else {
            assert(!visible_from(*m, px as int, py as int, tx as int, ty as int, range as int));
        }
        proof {
            assert(tiles@ == fov_upto(*m, px as int, py as int, range as int, j as int + 1));
        }
        j = j + 1;
    }
    proof {
        assert forall|t: Position|
            tiles@.contains(t) == visible_from(
                *m,
                px as int,
                py as int,
                t.x as int,
                t.y as int,
                range as int,
            ) by {
            lemma_fov_upto_contains(*m, px as int, py as int, range as int, total as int, t);
            if visible_from(*m, px as int, py as int, t.x as int, t.y as int, range as int) {
                lemma_dist2_bounds(t.x - px, t.y - py, range as int);
                let w2 = scan_w(range as int);
                assert(0 <= (t.y - py + range) * w2 + (t.x - px + range) < w2 * w2)
                    by (nonlinear_arith)
                    requires
                        0 <= t.y - py + range < w2,
                        0 <= t.x - px + range < w2,
                        1 <= w2,
                ;
            }
        }
    }
    tiles
}

/// Every viewshed's sight range is positive and small enough for the
/// scan arithmetic.
pub open spec fn viewshed_ranges_ok(w: World) -> bool {
    forall|e: int|
        0 <= e < w.n() && (#[trigger] w.viewsheds@[e]) is Some ==> 1 <= w.viewsheds@[e]->Some_0.range
            <= 0x1000
}

/// What the visibility pass leaves in one entity's viewshed slot:
/// recomputed visible tiles for a live entity that has both a
/// position and a viewshed, and the old slot for everyone else.
pub open spec fn viewshed_updated(pre: World, post: World, m: GameMap, e: int) -> bool {
    if pre.live(e) && pre.viewsheds@[e] is Some && pre.positions@[e] is Some {
        &&& post.viewsheds@[e] is Some
        &&& post.viewsheds@[e]->Some_0.range == pre.viewsheds@[e]->Some_0.range
        &&& forall|t: Position|
            post.viewsheds@[e]->Some_0.visible_tiles@.contains(t) == visible_from(
                m,
                pre.positions@[e]->Some_0.x as int,
                pre.positions@[e]->Some_0.y as int,
                t.x as int,
                t.y as int,
                pre.viewsheds@[e]->Some_0.range as int,
            )
    } else {
        post.viewsheds@[e] == pre.viewsheds@[e]
    }
}

/// The visibility engine. Runs before the enemy controller so that
/// its decisions use this tick's visibility.
pub struct VisibilitySystem {}

impl VisibilitySystem {
    /// Recomputes the viewshed of every live entity that holds both a
    /// position and a viewshed; nothing else in the world changes.
    pub fn run(&mut self, world: &mut World, map: &GameMap)
        requires
            old(world).wf(),
            map.wf(),
            positions_in_bounds(*old(world), *map),
            viewshed_ranges_ok(*old(world)),
        ensures
            final(world).wf(),
            final(world).n() == old(world).n(),
            final(world).alive == old(world).alive,
            final(world).positions == old(world).positions,
            final(world).renderables == old(world).renderables,
            final(world).players == old(world).players,
            final(world).blobs == old(world).blobs,
            final(world).names == old(world).names,
            final(world).blocks_tiles == old(world).blocks_tiles,
            final(world).combat_stats == old(world).combat_stats,
            final(world).wants_melee == old(world).wants_melee,
            final(world).suffer_damage == old(world).suffer_damage,
            final(world).items == old(world).items,
            final(world).heals == old(world).heals,
            final(world).inventories == old(world).inventories,
            final(world).wants_pickup == old(world).wants_pickup,
            viewshed_ranges_ok(*final(world)),
            forall|e: int|
                0 <= e < old(world).n() ==> viewshed_updated(*old(world), *final(world), *map, e),
    {
        let n = world.len();
        let mut e: usize = 0;
        while e < n
            invariant
                world.wf(),
                map.wf(),
                n == world.n(),
                e <= n,
                positions_in_bounds(*world, *map),
                viewshed_ranges_ok(*world),
                world.alive == old(world).alive,
                world.positions == old(world).positions,
                world.renderables == old(world).renderables,
                world.players == old(world).players,
                world.blobs == old(world).blobs,
                world.names == old(world).names,
                world.blocks_tiles == old(world).blocks_tiles,
                world.combat_stats == old(world).combat_stats,
                world.wants_melee == old(world).wants_melee,
                world.suffer_damage == old(world).suffer_damage,
                world.items == old(world).items,
                world.heals == old(world).heals,
                world.inventories == old(world).inventories,
                world.wants_pickup == old(world).wants_pickup,
                forall|e2: int| 0 <= e2 < e ==> viewshed_updated(*old(world), *world, *map, e2),
                forall|e2: int|
                    e <= e2 < n ==> world.viewsheds@[e2] == old(world).viewsheds@[e2],
            decreases n - e,
        {
            let ghost prev = *world;
            let mut range: i32 = 0;
            let mut wants: bool = false;
            if world.alive[e] {
                match &world.viewsheds[e] {
                    Some(v) => {
                        range = v.range;
                        wants = true;
                    },
                    None => {},
                }
            }
            if wants {
                if let Some(pos) = world.positions[e] {
                    let tiles = field_of_view(map, pos, range);
                    world.viewsheds.set(e, Some(Viewshed { visible_tiles: tiles, range }));
                }
            }
            proof {
                assert(viewshed_updated(*old(world), *world, *map, e as int));
                assert forall|e2: int| 0 <= e2 < e as int + 1 implies viewshed_updated(
                    *old(world),
                    *world,
                    *map,
                    e2,
                ) by {
                    if e2 < e as int {
                        assert(viewshed_updated(*old(world), prev, *map, e2));
                        assert(world.viewsheds@[e2] == prev.viewsheds@[e2]);
                    }
                }
            }
            e = e + 1;
        }
    }
}

} // verus!
