//! The spatial map: tile grid, occupancy bitmap, per-tile contents
//! and the room list produced by generation.

use vstd::prelude::*;

use crate::components::Entity;
use crate::rect::Rect;
use crate::rng::Rng;

verus! {

/// Width of the tile grid.
pub const MAPWIDTH: i32 = 80;

/// Height of the tile grid.
pub const MAPHEIGHT: i32 = 43;

/// The kinds of tile on the map. Walls and corners are solid: they
/// block both movement and sight. Doors and floor are walkable, and
/// sight passes through them.
#[derive(Clone, Copy, PartialEq, Eq, Structural, Debug)]
pub enum TileType {
    VWall,
    HWall,
    Floor,
    HDoor,
    VDoor,
    Cur,
    Cul,
    Clr,
    Cll,
}

/// Whether a tile type is a wall or corner, which makes its tile both
/// impassable and opaque.
pub open spec fn is_solid(t: TileType) -> bool {
    match t {
        TileType::VWall => true,
        TileType::HWall => true,
        TileType::Cur => true,
        TileType::Cul => true,
        TileType::Clr => true,
        TileType::Cll => true,
        TileType::Floor => false,
        TileType::HDoor => false,
        TileType::VDoor => false,
    }
}

/// Number of rooms that generation tries to place.
pub const NUM_ROOMS: i32 = 4;

/// Width of each generated room's bounding rectangle.
pub const ROOM_WIDTH: i32 = 9;

/// Height of each generated room's bounding rectangle.
pub const ROOM_HEIGHT: i32 = 7;

/// Cap on placement attempts, so that generation always terminates
/// even on an adversarial random stream.
pub const ROOM_TRIES: u32 = 10000;

/// The tile a room writes at `(x, y)`, if any. A room draws the
/// outline of its rectangle: horizontal walls along the top and
/// bottom rows, vertical walls along the side columns, distinguished
/// corners, and one door at the midpoint of each of the four sides.
/// The interior and everything outside the outline are left alone.
pub open spec fn room_overlay(room: Rect, x: int, y: int) -> Option<TileType> {
    if room.y1 + 1 <= y <= room.y2 && room.x1 + 1 <= x <= room.x2 {
        if y == room.y1 + 1 || y == room.y2 {
            if x == room.x1 + 1 + (room.x2 - room.x1) / 2 {
                Some(TileType::HDoor)
            } else if x == room.x1 + 1 && y == room.y1 + 1 {
                Some(TileType::Cul)
            } else if x == room.x2 && y == room.y1 + 1 {
                Some(TileType::Cur)
            } else if x == room.x1 + 1 && y == room.y2 {
                Some(TileType::Cll)
            } else if x == room.x2 && y == room.y2 {
                Some(TileType::Clr)
            } else {
                Some(TileType::HWall)
            }
        } else if x == room.x1 + 1 || x == room.x2 {
            if y == room.y1 + 1 + (room.y2 - room.y1) / 2 {
                Some(TileType::VDoor)
            } else {
                Some(TileType::VWall)
            }
        } else {
            Option::None
        }
    } else {
        Option::None
    }
}

/// The tile a list of rooms leaves at `(x, y)`: floor where no room's
/// outline covers the point, and the latest room's outline otherwise.
pub open spec fn rooms_tile(rooms: Seq<Rect>, x: int, y: int) -> TileType
    decreases rooms.len(),
{
    if rooms.len() == 0 {
        TileType::Floor
    } else {
        match room_overlay(rooms.last(), x, y) {
            Some(t) => t,
            Option::None => rooms_tile(rooms.drop_last(), x, y),
        }
    }
}

/// The `k`-th fallback berth for a room: seven fixed, pairwise
/// disjoint rectangles along the top of the grid, ten columns apart.
/// A placed room is nine columns wide, so it can block at most two
/// neighbouring berths — with at most three rooms placed, one of the
/// four even-numbered berths is always free.
pub open spec fn slot_rect(k: int) -> Rect {
    Rect { x1: (10 * k) as i32, y1: 0, x2: (10 * k + 9) as i32, y2: 7 }
}

/// The shared spatial index: the tile grid with its derived occupancy
/// bitmap, the entities currently on each tile, and the rooms laid out
/// at generation time. All grid vectors have length `width * height`,
/// indexed row by row.
pub struct GameMap {
    pub tiles: Vec<TileType>,
    pub rooms: Vec<Rect>,
    pub width: i32,
    pub height: i32,
    pub occupied: Vec<bool>,
    pub tile_content: Vec<Vec<Entity>>,
}

impl GameMap {
    /// Number of tiles on the map.
    pub open spec fn count(self) -> int {
        self.width * self.height
    }

    /// Structural well-formedness: positive dimensions small enough
    /// for index arithmetic, and all grid vectors of matching length.
    pub open spec fn wf(self) -> bool {
        &&& 2 <= self.width < 0x1000
        &&& 2 <= self.height < 0x1000
        &&& self.tiles@.len() == self.count()
        &&& self.occupied@.len() == self.count()
        &&& self.tile_content@.len() == self.count()
    }

    /// The linear offset of the coordinate `(x, y)`.
    pub open spec fn idx_of(self, x: int, y: int) -> int {
        y * self.width + x
    }

    /// The column of a linear offset.
    pub open spec fn x_of(self, idx: int) -> int {
        idx % (self.width as int)
    }

    /// The row of a linear offset.
    pub open spec fn y_of(self, idx: int) -> int {
        idx / (self.width as int)
    }

    /// Whether `(x, y)` lies on the grid.
    pub open spec fn in_bounds(self, x: int, y: int) -> bool {
        0 <= x < self.width && 0 <= y < self.height
    }

    /// A well-formed map has fewer tiles than any index can overflow.
    pub proof fn lemma_count_bound(self)
        requires
            self.wf(),
        ensures
            self.count() < 0x1000000,
    {
        assert(self.width * self.height < 0x1000000) by (nonlinear_arith)
            requires
                0 <= self.width < 0x1000,
                0 <= self.height < 0x1000,
        ;
    }

    /// A coordinate on the grid maps to an offset below `count`.
    pub proof fn lemma_idx_of_bounds(self, x: int, y: int)
        requires
            self.wf(),
            self.in_bounds(x, y),
        ensures
            0 <= self.idx_of(x, y) < self.count(),
            self.x_of(self.idx_of(x, y)) == x,
            self.y_of(self.idx_of(x, y)) == y,
    {
        let w = self.width as int;
        let h = self.height as int;
        assert(0 <= y * w + x < w * h && (y * w + x) % w == x && (y * w + x) / w == y)
            by (nonlinear_arith)
            requires
                0 <= x < w,
                0 <= y < h,
                2 <= w,
        ;
    }

    /// An offset below `count` maps back to a coordinate on the grid.
    pub proof fn lemma_idx_coords(self, idx: int)
        requires
            self.wf(),
            0 <= idx < self.count(),
        ensures
            self.in_bounds(self.x_of(idx), self.y_of(idx)),
            self.idx_of(self.x_of(idx), self.y_of(idx)) == idx,
    {
        let w = self.width as int;
        let h = self.height as int;
        assert(0 <= idx % w < w && 0 <= idx / w < h && (idx / w) * w + idx % w == idx)
            by (nonlinear_arith)
            requires
                0 <= idx < w * h,
                2 <= w,
                2 <= h,
        ;
    }

    /// Finds the linear offset into the grid vectors for `(x, y)`.
    pub fn index(&self, x: i32, y: i32) -> (r: usize)
        requires
            self.wf(),
            self.in_bounds(x as int, y as int),
        ensures
            r == self.idx_of(x as int, y as int),
            r < self.count(),
    {
        proof {
            self.lemma_count_bound();
            self.lemma_idx_of_bounds(x as int, y as int);
        }
        (y as usize * self.width as usize) + x as usize
    }

    /// Returns the grid dimensions as `(width, height)`.
    pub fn dimensions(&self) -> (r: (i32, i32))
        ensures
            r.0 == self.width,
            r.1 == self.height,
    {
        (self.width, self.height)
    }

    /// Whether the tile at `idx` blocks sight. Walls and corners are
    /// opaque; floor and doors are not.
    pub fn is_opaque(&self, idx: usize) -> (r: bool)
        requires
            self.wf(),
            idx < self.count(),
        ensures
            r == is_solid(self.tiles@[idx as int]),
    {
        let t = self.tiles[idx];
        t == TileType::VWall || t == TileType::HWall || t == TileType::Cur || t == TileType::Cul
            || t == TileType::Clr || t == TileType::Cll
    }

    /// The squared Euclidean distance between two tiles, a monotone
    /// stand-in for the Euclidean pathing distance.
    pub open spec fn spec_dist2(self, idx1: int, idx2: int) -> int {
        let dx = self.x_of(idx1) - self.x_of(idx2);
        let dy = self.y_of(idx1) - self.y_of(idx2);
        dx * dx + dy * dy
    }

    /// Returns the squared Euclidean distance between two tiles.
    pub fn get_pathing_distance(&self, idx1: usize, idx2: usize) -> (r: u64)
        requires
            self.wf(),
            idx1 < self.count(),
            idx2 < self.count(),
        ensures
            r == self.spec_dist2(idx1 as int, idx2 as int),
    {
        let w = self.width as usize;
        let x1 = (idx1 % w) as i64;
        let y1 = (idx1 / w) as i64;
        let x2 = (idx2 % w) as i64;
        let y2 = (idx2 / w) as i64;
        proof {
            self.lemma_idx_coords(idx1 as int);
            self.lemma_idx_coords(idx2 as int);
        }
        let dx = x1 - x2;
        let dy = y1 - y2;
        proof {
            assert(0 <= dx * dx < 0x1000000 && 0 <= dy * dy < 0x1000000) by (nonlinear_arith)
                requires
                    -0x1000 < dx < 0x1000,
                    -0x1000 < dy < 0x1000,
            ;
        }
        (dx * dx + dy * dy) as u64
    }

    /// Rebuilds the occupancy bitmap from the static tiles alone:
    /// afterwards a tile is occupied exactly when it is solid.
    pub fn occupied(&mut self)
        requires
            old(self).wf(),
        ensures
            final(self).wf(),
            final(self).tiles == old(self).tiles,
            final(self).rooms == old(self).rooms,
            final(self).width == old(self).width,
            final(self).height == old(self).height,
            final(self).tile_content == old(self).tile_content,
            final(self).occupied@.len() == old(self).occupied@.len(),
            forall|i: int|
                0 <= i < final(self).occupied@.len() ==> final(self).occupied@[i] == is_solid(
                    final(self).tiles@[i],
                ),
    {
        let n = self.tiles.len();
        let mut i: usize = 0;
        while i < n
            invariant
                self.wf(),
                n == self.tiles@.len(),
                i <= n,
                self.tiles == old(self).tiles,
                self.rooms == old(self).rooms,
                self.width == old(self).width,
                self.height == old(self).height,
                self.tile_content == old(self).tile_content,
                self.occupied@.len() == old(self).occupied@.len(),
                forall|j: int| 0 <= j < i ==> self.occupied@[j] == is_solid(self.tiles@[j]),
            decreases n - i,
        {
            let t = self.tiles[i];
            let solid = t == TileType::VWall || t == TileType::HWall || t == TileType::Cur || t
                == TileType::Cul || t == TileType::Clr || t == TileType::Cll;
            self.occupied.set(i, solid);
            i = i + 1;
        }
    }

    /// Whether a step may end on `(x, y)`: the coordinate lies in the
    /// playable interior of the grid and its tile is not occupied.
    pub open spec fn spec_valid_move(self, x: int, y: int) -> bool {
        &&& 1 <= x <= self.width - 1
        &&& 1 <= y <= self.height - 1
        &&& !self.occupied@[self.idx_of(x, y)]
    }

    /// Checks whether a move may end on `(x, y)`.
    pub fn valid_move(&self, x: i32, y: i32) -> (r: bool)
        requires
            self.wf(),
        ensures
            r == self.spec_valid_move(x as int, y as int),
    {
        if x < 1 || x > self.width - 1 || y < 1 || y > self.height - 1 {
            return false;
        }
        let idx = self.index(x, y);
        !self.occupied[idx]
    }

    /// Empties every tile's content list.
    pub fn clear_content_index(&mut self)
        requires
            old(self).wf(),
        ensures
            final(self).wf(),
            final(self).tiles == old(self).tiles,
            final(self).rooms == old(self).rooms,
            final(self).width == old(self).width,
            final(self).height == old(self).height,
            final(self).occupied == old(self).occupied,
            final(self).tile_content@.len() == old(self).tile_content@.len(),
            forall|i: int|
                0 <= i < final(self).tile_content@.len() ==> final(self).tile_content@[i]@
                    == Seq::<Entity>::empty(),
    {
        let n = self.tile_content.len();
        let mut i: usize = 0;
        while i < n
            invariant
                self.wf(),
                n == self.tile_content@.len(),
                i <= n,
                self.tiles == old(self).tiles,
                self.rooms == old(self).rooms,
                self.width == old(self).width,
                self.height == old(self).height,
                self.occupied == old(self).occupied,
                self.tile_content@.len() == old(self).tile_content@.len(),
                forall|j: int| 0 <= j < i ==> self.tile_content@[j]@ == Seq::<Entity>::empty(),
            decreases n - i,
        {
            let content = &mut self.tile_content[i];
            content.clear();
            i = i + 1;
        }
    }

    /// Draws one room's outline onto the tile grid: walls, corners and
    /// the four midpoint doors, as `room_overlay` states tile by tile.
    fn add_room(&mut self, room: &Rect)
        requires
            old(self).wf(),
            room.wf(),
            room.x2 < old(self).width,
            room.y2 < old(self).height,
        ensures
            final(self).wf(),
            final(self).rooms == old(self).rooms,
            final(self).width == old(self).width,
            final(self).height == old(self).height,
            final(self).occupied == old(self).occupied,
            final(self).tile_content == old(self).tile_content,
            final(self).tiles@.len() == old(self).tiles@.len(),
            forall|i: int|
                0 <= i < final(self).tiles@.len() ==> final(self).tiles@[i] == (
                match room_overlay(*room, final(self).x_of(i), final(self).y_of(i)) {
                    Some(t) => t,
                    Option::None => old(self).tiles@[i],
                }),
    {
        let mut yy: i32 = room.y1 + 1;
        while yy <= room.y2
            invariant
                self.wf(),
                self.rooms == old(self).rooms,
                self.width == old(self).width,
                self.height == old(self).height,
                self.occupied == old(self).occupied,
                self.tile_content == old(self).tile_content,
                self.tiles@.len() == old(self).tiles@.len(),
                room.wf(),
                room.x2 < self.width,
                room.y2 < self.height,
                room.y1 + 1 <= yy,
                yy <= room.y2 + 1,
                forall|i: int|
                    0 <= i < self.tiles@.len() ==> self.tiles@[i] == (match room_overlay(
                        *room,
                        self.x_of(i),
                        self.y_of(i),
                    ) {
                        Some(t) => if self.y_of(i) < yy {
                            t
                        } else {
                            old(self).tiles@[i]
                        },
                        Option::None => old(self).tiles@[i],
                    }),
            decreases room.y2 + 1 - yy,
        {
            let mut xx: i32 = room.x1 + 1;
            while xx <= room.x2
                invariant
                    self.wf(),
                    self.rooms == old(self).rooms,
                    self.width == old(self).width,
                    self.height == old(self).height,
                    self.occupied == old(self).occupied,
                    self.tile_content == old(self).tile_content,
                    self.tiles@.len() == old(self).tiles@.len(),
                    room.wf(),
                    room.x2 < self.width,
                    room.y2 < self.height,
                    room.y1 + 1 <= yy,
                    yy <= room.y2,
                    room.x1 + 1 <= xx,
                    xx <= room.x2 + 1,
                    forall|i: int|
                        0 <= i < self.tiles@.len() ==> self.tiles@[i] == (match room_overlay(
                            *room,
                            self.x_of(i),
                            self.y_of(i),
                        ) {
                            Some(t) => if self.y_of(i) < yy || (self.y_of(i) == yy && self.x_of(i)
                                < xx) {
                                t
                            } else {
                                old(self).tiles@[i]
                            },
                            Option::None => old(self).tiles@[i],
                        }),
                decreases room.x2 + 1 - xx,
            {
                let idx = self.index(xx, yy);
                proof {
                    self.lemma_idx_of_bounds(xx as int, yy as int);
                    assert forall|i: int|
                        0 <= i < self.tiles@.len() && i != idx implies !(self.x_of(i) == xx as int
                        && self.y_of(i) == yy as int) by {
                        self.lemma_idx_coords(i);
                    }
                }
                if yy == room.y1 + 1 || yy == room.y2 {
                    if xx == room.x1 + 1 + (room.x2 - room.x1) / 2 {
                        self.tiles.set(idx, TileType::HDoor);
                    } else if xx == room.x1 + 1 && yy == room.y1 + 1 {
                        self.tiles.set(idx, TileType::Cul);
                    } else if xx == room.x2 && yy == room.y1 + 1 {
                        self.tiles.set(idx, TileType::Cur);
                    } else if xx == room.x1 + 1 && yy == room.y2 {
                        self.tiles.set(idx, TileType::Cll);
                    } else if xx == room.x2 && yy == room.y2 {
                        self.tiles.set(idx, TileType::Clr);
                    } else {
                        self.tiles.set(idx, TileType::HWall);
                    }
                } else if xx == room.x1 + 1 || xx == room.x2 {
                    if yy == room.y1 + 1 + (room.y2 - room.y1) / 2 {
                        self.tiles.set(idx, TileType::VDoor);
                    } else {
                        self.tiles.set(idx, TileType::VWall);
                    }
                }
                xx = xx + 1;
            }
            yy = yy + 1;
        }
    }

    /// Generates a fresh map: an all-floor grid on which up to
    /// `NUM_ROOMS` rooms of a fixed size are placed at random,
    /// rerolling any candidate that would overlap one already placed.
    pub fn map_gen(rng: &mut Rng) -> (m: GameMap)
        ensures
            m.wf(),
            m.width == MAPWIDTH,
            m.height == MAPHEIGHT,
            m.rooms@.len() == NUM_ROOMS,
            forall|k: int|
                0 <= k < m.rooms@.len() ==> (#[trigger] m.rooms@[k]).wf() && m.rooms@[k].x2
                    < MAPWIDTH && m.rooms@[k].y2 < MAPHEIGHT,
            forall|k: int|
                0 <= k < m.rooms@.len() ==> (#[trigger] m.rooms@[k]).x2 - m.rooms@[k].x1
                    == ROOM_WIDTH && m.rooms@[k].y2 - m.rooms@[k].y1 == ROOM_HEIGHT,
            forall|j: int, k: int|
                0 <= j < k < m.rooms@.len() ==> !m.rooms@[j].spec_intersect(m.rooms@[k]),
            forall|i: int|
                0 <= i < m.count() ==> m.tiles@[i] == rooms_tile(m.rooms@, m.x_of(i), m.y_of(i)),
            forall|i: int| 0 <= i < m.count() ==> m.occupied@[i] == false,
            forall|i: int| 0 <= i < m.count() ==> m.tile_content@[i]@ == Seq::<Entity>::empty(),
    {
        let count: usize = (MAPWIDTH as usize) * (MAPHEIGHT as usize);
        let mut tiles: Vec<TileType> = Vec::new();
        let mut occupied: Vec<bool> = Vec::new();
        let mut tile_content: Vec<Vec<Entity>> = Vec::new();
        let mut i: usize = 0;
        while i < count
            invariant
                i <= count,
                tiles@.len() == i,
                occupied@.len() == i,
                tile_content@.len() == i,
                forall|j: int| 0 <= j < i ==> tiles@[j] == TileType::Floor,
                forall|j: int| 0 <= j < i ==> occupied@[j] == false,
                forall|j: int| 0 <= j < i ==> tile_content@[j]@ == Seq::<Entity>::empty(),
            decreases count - i,
        {
            tiles.push(TileType::Floor);
            occupied.push(false);
            tile_content.push(Vec::new());
            i = i + 1;
        }
        let mut map = GameMap {
            tiles,
            rooms: Vec::new(),
            width: MAPWIDTH,
            height: MAPHEIGHT,
            occupied,
            tile_content,
        };
        let mut tries: u32 = 0;
        while map.rooms.len() < (NUM_ROOMS as usize) && tries < ROOM_TRIES
            invariant
                map.wf(),
                map.width == MAPWIDTH,
                map.height == MAPHEIGHT,
                map.rooms@.len() <= NUM_ROOMS,
                tries <= ROOM_TRIES,
                forall|k: int|
                    0 <= k < map.rooms@.len() ==> (#[trigger] map.rooms@[k]).wf()
                        && map.rooms@[k].x2 < MAPWIDTH && map.rooms@[k].y2 < MAPHEIGHT,
                forall|k: int|
                    0 <= k < map.rooms@.len() ==> (#[trigger] map.rooms@[k]).x2 - map.rooms@[k].x1
                        == ROOM_WIDTH && map.rooms@[k].y2 - map.rooms@[k].y1 == ROOM_HEIGHT,
                forall|j: int, k: int|
                    0 <= j < k < map.rooms@.len() ==> !map.rooms@[j].spec_intersect(
                        map.rooms@[k],
                    ),
                forall|i2: int|
                    0 <= i2 < map.count() ==> map.tiles@[i2] == rooms_tile(
                        map.rooms@,
                        map.x_of(i2),
                        map.y_of(i2),
                    ),
                forall|i2: int| 0 <= i2 < map.count() ==> map.occupied@[i2] == false,
                forall|i2: int|
                    0 <= i2 < map.count() ==> map.tile_content@[i2]@ == Seq::<Entity>::empty(),
            decreases ROOM_TRIES - tries,
        {
            tries = tries + 1;
            let x = rng.roll_dice(1, MAPWIDTH - ROOM_WIDTH - 1) - 1;
            let y = rng.roll_dice(1, MAPHEIGHT - ROOM_HEIGHT - 1) - 1;
            let new_room = Rect::new(x, y, ROOM_WIDTH, ROOM_HEIGHT);
            let mut overlap = false;
            let mut k: usize = 0;
            while k < map.rooms.len()
                invariant
                    k <= map.rooms@.len(),
                    forall|j: int| 0 <= j < map.rooms@.len() ==> (#[trigger] map.rooms@[j]).wf(),
                    new_room.wf(),
                    overlap == exists|j: int|
                        0 <= j < k && (#[trigger] map.rooms@[j]).spec_intersect(new_room),
                decreases map.rooms@.len() - k,
            {
                if map.rooms[k].intersect(&new_room) {
                    overlap = true;
                }
                k = k + 1;
            }
            if !overlap {
                let ghost old_rooms = map.rooms@;
                let ghost old_tiles = map.tiles@;
                map.add_room(&new_room);
                map.rooms.push(new_room);
                proof {
                    assert(map.rooms@.last() == new_room);
                    assert(map.rooms@.drop_last() =~= old_rooms);
                    assert forall|i2: int| 0 <= i2 < map.count() implies map.tiles@[i2]
                        == rooms_tile(map.rooms@, map.x_of(i2), map.y_of(i2)) by {
                        assert(rooms_tile(map.rooms@, map.x_of(i2), map.y_of(i2)) == (
                        match room_overlay(new_room, map.x_of(i2), map.y_of(i2)) {
                            Some(t) => t,
                            Option::None => rooms_tile(old_rooms, map.x_of(i2), map.y_of(i2)),
                        }));
                    }
                }
            }
        }
        while map.rooms.len() < (NUM_ROOMS as usize)
            invariant
                map.wf(),
                map.width == MAPWIDTH,
                map.height == MAPHEIGHT,
                map.rooms@.len() <= NUM_ROOMS,
                forall|k: int|
                    0 <= k < map.rooms@.len() ==> (#[trigger] map.rooms@[k]).wf()
                        && map.rooms@[k].x2 < MAPWIDTH && map.rooms@[k].y2 < MAPHEIGHT,
                forall|k: int|
                    0 <= k < map.rooms@.len() ==> (#[trigger] map.rooms@[k]).x2 - map.rooms@[k].x1
                        == ROOM_WIDTH && map.rooms@[k].y2 - map.rooms@[k].y1 == ROOM_HEIGHT,
                forall|j: int, k: int|
                    0 <= j < k < map.rooms@.len() ==> !map.rooms@[j].spec_intersect(
                        map.rooms@[k],
                    ),
                forall|i2: int|
                    0 <= i2 < map.count() ==> map.tiles@[i2] == rooms_tile(
                        map.rooms@,
                        map.x_of(i2),
                        map.y_of(i2),
                    ),
                forall|i2: int| 0 <= i2 < map.count() ==> map.occupied@[i2] == false,
                forall|i2: int|
                    0 <= i2 < map.count() ==> map.tile_content@[i2]@ == Seq::<Entity>::empty(),
            decreases (NUM_ROOMS as int) - map.rooms@.len(),
        {
            let ghost pre_len = map.rooms@.len() as int;
            let mut slot: i32 = 0;
            let mut placed = false;
            let ghost mut picks: Seq<int> = Seq::empty();
            while slot < 7 && !placed
                invariant
                    map.wf(),
                    map.width == MAPWIDTH,
                    map.height == MAPHEIGHT,
                    0 <= slot <= 7,
                    pre_len < NUM_ROOMS,
                    !placed ==> map.rooms@.len() == pre_len,
                    placed ==> map.rooms@.len() == pre_len + 1,
                    forall|k: int|
                        0 <= k < map.rooms@.len() ==> (#[trigger] map.rooms@[k]).wf()
                            && map.rooms@[k].x2 < MAPWIDTH && map.rooms@[k].y2 < MAPHEIGHT,
                    forall|k: int|
                        0 <= k < map.rooms@.len() ==> (#[trigger] map.rooms@[k]).x2
                            - map.rooms@[k].x1 == ROOM_WIDTH && map.rooms@[k].y2
                            - map.rooms@[k].y1 == ROOM_HEIGHT,
                    forall|j: int, k: int|
                        0 <= j < k < map.rooms@.len() ==> !map.rooms@[j].spec_intersect(
                            map.rooms@[k],
                        ),
                    forall|i2: int|
                        0 <= i2 < map.count() ==> map.tiles@[i2] == rooms_tile(
                            map.rooms@,
                            map.x_of(i2),
                            map.y_of(i2),
                        ),
                    forall|i2: int| 0 <= i2 < map.count() ==> map.occupied@[i2] == false,
                    forall|i2: int|
                        0 <= i2 < map.count() ==> map.tile_content@[i2]@ == Seq::<Entity>::empty(),
                    !placed ==> picks.len() == slot,
                    !placed ==> forall|i2: int|
                        0 <= i2 < slot ==> 0 <= #[trigger] picks[i2] < map.rooms@.len()
                            && map.rooms@[picks[i2]].spec_intersect(slot_rect(i2)),
                decreases 7 - slot,
            {
                let cand = Rect::new(10 * slot, 0, ROOM_WIDTH, ROOM_HEIGHT);
                proof {
                    assert(cand == slot_rect(slot as int));
                }
                let mut overlap = false;
                let mut k: usize = 0;
                while k < map.rooms.len()
                    invariant
                        k <= map.rooms@.len(),
                        forall|j: int|
                            0 <= j < map.rooms@.len() ==> (#[trigger] map.rooms@[j]).wf(),
                        cand.wf(),
                        overlap == exists|j: int|
                            0 <= j < k && (#[trigger] map.rooms@[j]).spec_intersect(cand),
                    decreases map.rooms@.len() - k,
                {
                    if map.rooms[k].intersect(&cand) {
                        overlap = true;
                    }
                    k = k + 1;
                }
                if !overlap {
                    let ghost old_rooms = map.rooms@;
                    map.add_room(&cand);
                    map.rooms.push(cand);
                    placed = true;
                    proof {
                        assert(map.rooms@.last() == cand);
                        assert(map.rooms@.drop_last() =~= old_rooms);
                        assert forall|i2: int| 0 <= i2 < map.count() implies map.tiles@[i2]
                            == rooms_tile(map.rooms@, map.x_of(i2), map.y_of(i2)) by {
                            assert(rooms_tile(map.rooms@, map.x_of(i2), map.y_of(i2)) == (
                            match room_overlay(cand, map.x_of(i2), map.y_of(i2)) {
                                Some(t) => t,
                                Option::None => rooms_tile(old_rooms, map.x_of(i2), map.y_of(i2)),
                            }));
                        }
                    }
                } else {
                    proof {
                        let j = choose|j: int|
                            0 <= j < map.rooms@.len() && (#[trigger] map.rooms@[j]).spec_intersect(
                                cand,
                            );
                        picks = picks.push(j);
                    }
                }
                slot = slot + 1;
            }
            proof {
                if !placed {
                    // all seven berths blocked: the four even berths would
                    // need four distinct rooms, but at most three exist
                    let rooms = map.rooms@;
                    let r0 = picks[0];
                    let r2 = picks[2];
                    let r4 = picks[4];
                    let r6 = picks[6];
                    assert forall|a: int, b: int|
                        0 <= a < b < 7 && b - a >= 2 && 0 <= picks[a] < rooms.len() && picks[b]
                            == picks[a] implies false by {
                        let rm = rooms[picks[a]];
                        assert(rm.spec_intersect(slot_rect(a)));
                        assert(rm.spec_intersect(slot_rect(b)));
                        assert(rm.x1 <= 10 * a + 9);
                        assert(rm.x2 >= 10 * b);
                        assert(rm.x2 - rm.x1 == ROOM_WIDTH);
                    }
                    assert(r0 != r2 && r0 != r4 && r0 != r6 && r2 != r4 && r2 != r6 && r4 != r6);
                    assert(rooms.len() <= 3);
                    assert(false);
                }
            }
        }
        map
    }

    /// Whether `b` is a tile a walker standing on `a` may step to: a
    /// cardinal neighbour of `a` that passes `spec_valid_move`.
    pub open spec fn step_ok(self, a: int, b: int) -> bool {
        let xa = self.x_of(a);
        let ya = self.y_of(a);
        let xb = self.x_of(b);
        let yb = self.y_of(b);
        &&& 0 <= a < self.count()
        &&& 0 <= b < self.count()
        &&& ((xb == xa - 1 && yb == ya) || (xb == xa + 1 && yb == ya) || (xb == xa && yb == ya - 1)
            || (xb == xa && yb == ya + 1))
        &&& self.spec_valid_move(xb, yb)
    }

    /// Lists the tiles a walker on `idx` may step to: the cardinal
    /// neighbours that pass `valid_move`, each with unit step cost.
    pub fn get_available_exits(&self, idx: usize) -> (r: Vec<usize>)
        requires
            self.wf(),
            idx < self.count(),
        ensures
            forall|j: int| 0 <= j < r@.len() ==> self.step_ok(idx as int, #[trigger] r@[j] as int),
            forall|b: int| self.step_ok(idx as int, b) ==> r@.contains(b as usize),
            r@.no_duplicates(),
            r@.len() <= 4,
    {
        let mut moves: Vec<usize> = Vec::new();
        let w = self.width as usize;
        proof {
            self.lemma_count_bound();
            self.lemma_idx_coords(idx as int);
        }
        let x = (idx % w) as i32;
        let y = (idx / w) as i32;
        proof {
            assert((y as int - 1) * (self.width as int) == (y as int) * (self.width as int) - (
            self.width as int) && (y as int + 1) * (self.width as int) == (y as int) * (
            self.width as int) + (self.width as int)) by (nonlinear_arith);
        }
        let ghost mut west: int = -1;
        let ghost mut east: int = -1;
        let ghost mut north: int = -1;
        let ghost mut south: int = -1;
        if self.valid_move(x - 1, y) {
            proof {
                self.lemma_idx_of_bounds(x - 1, y as int);
                assert(self.step_ok(idx as int, idx - 1));
                west = moves@.len() as int;
            }
            moves.push(idx - 1);
        }
        if self.valid_move(x + 1, y) {
            proof {
                self.lemma_idx_of_bounds(x + 1, y as int);
                assert(self.step_ok(idx as int, idx + 1));
                east = moves@.len() as int;
            }
            moves.push(idx + 1);
        }
        if self.valid_move(x, y - 1) {
            proof {
                self.lemma_idx_of_bounds(x as int, y - 1);
                assert(self.step_ok(idx as int, idx - w));
                north = moves@.len() as int;
            }
            moves.push(idx - w);
        }
        if self.valid_move(x, y + 1) {
            proof {
                self.lemma_idx_of_bounds(x as int, y + 1);
                assert(self.step_ok(idx as int, idx + w));
                south = moves@.len() as int;
            }
            moves.push(idx + w);
        }
        proof {
            assert forall|b: int| self.step_ok(idx as int, b) implies moves@.contains(b as usize) by {
                self.lemma_idx_coords(b);
                if self.x_of(b) == x - 1 && self.y_of(b) == y as int {
                    assert(moves@[west] == (idx - 1) as usize);
                    assert(b == idx - 1);
                } else if self.x_of(b) == x + 1 && self.y_of(b) == y as int {
                    assert(moves@[east] == (idx + 1) as usize);
                    assert(b == idx + 1);
                } else if self.x_of(b) == x as int && self.y_of(b) == y - 1 {
                    assert(moves@[north] == (idx - w) as usize);
                    assert(b == idx - w);
                } else {
                    assert(moves@[south] == (idx + w) as usize);
                    assert(b == idx + w);
                }
                assert(moves@.contains(b as usize));
            }
        }
        moves
    }
}

} // verus!
