//! The authoritative terrain owner: tile grid, discovered rooms, per-tile
//! visibility/reveal flags, the blocking mask and the per-tile occupancy
//! index.

use vstd::prelude::*;
use crate::components::Position;
use crate::rect::Rect;
use crate::rng::rng_range;
use crate::spawner::spawn_room;
use crate::viewport::Viewport;
use crate::world::{Entity, World, entity_unchanged};

verus! {

/// Terrain of one tile.
#[derive(Clone, Copy, PartialEq, Eq, Structural, Debug)]
pub enum TileType {
    Wall,
    Floor,
}

/// The tile grid and the spatial indices rebuilt from it every tick.
#[derive(Clone, Debug)]
pub struct GameMap {
    pub size: Rect,
    pub tiles: Vec<TileType>,
    pub rooms: Vec<Rect>,
    pub revealed_tiles: Vec<bool>,
    pub visible_tiles: Vec<bool>,
    pub blocked: Vec<bool>,
    pub tile_content: Vec<Vec<Entity>>,
}

/// Smaller of two coordinates.
pub open spec fn seg_lo(a: int, b: int) -> int {
    if a <= b {
        a
    } else {
        b
    }
}

/// Larger of two coordinates.
pub open spec fn seg_hi(a: int, b: int) -> int {
    if a <= b {
        b
    } else {
        a
    }
}

/// Does tile index `i` lie on the horizontal segment at row `y` between
/// columns `x1` and `x2` (inclusive at both ends)?
pub open spec fn on_h_segment(size: Rect, i: int, x1: int, x2: int, y: int) -> bool {
    size.spec_idx_y(i) == y && seg_lo(x1, x2) <= size.spec_idx_x(i) <= seg_hi(x1, x2)
}

/// Does tile index `i` lie on the vertical segment at column `x` between rows
/// `y1` and `y2` (inclusive at both ends)?
pub open spec fn on_v_segment(size: Rect, i: int, y1: int, y2: int, x: int) -> bool {
    size.spec_idx_x(i) == x && seg_lo(y1, y2) <= size.spec_idx_y(i) <= seg_hi(y1, y2)
}

/// Does tile index `i` decode to a position inside `room`?
pub open spec fn in_room(size: Rect, i: int, room: Rect) -> bool {
    room.min.x <= size.spec_idx_x(i) < room.max.x && room.min.y <= size.spec_idx_y(i) < room.max.y
}

/// `new` is `old` with exactly the tiles satisfying `sel` carved to Floor:
/// carving is pointwise, never turns Floor back to Wall, and leaves every
/// other tile untouched.
pub open spec fn carved_h(
    size: Rect,
    old: Seq<TileType>,
    new: Seq<TileType>,
    x1: int,
    x2: int,
    y: int,
) -> bool {
    &&& new.len() == old.len()
    &&& forall|i: int|
        0 <= i < old.len() ==> new[i] == (if on_h_segment(size, i, x1, x2, y) {
            TileType::Floor
        } else {
            old[i]
        })
}

pub open spec fn carved_v(
    size: Rect,
    old: Seq<TileType>,
    new: Seq<TileType>,
    y1: int,
    y2: int,
    x: int,
) -> bool {
    &&& new.len() == old.len()
    &&& forall|i: int|
        0 <= i < old.len() ==> new[i] == (if on_v_segment(size, i, y1, y2, x) {
            TileType::Floor
        } else {
            old[i]
        })
}

pub open spec fn carved_room(size: Rect, old: Seq<TileType>, new: Seq<TileType>, room: Rect) -> bool {
    &&& new.len() == old.len()
    &&& forall|i: int|
        0 <= i < old.len() ==> new[i] == (if in_room(size, i, room) {
            TileType::Floor
        } else {
            old[i]
        })
}

/// Carve a straight horizontal corridor segment to Floor.
pub fn apply_horizontal_tunnel(map: &Rect, x1: i32, x2: i32, y: i32, tiles: &mut Vec<TileType>)
    requires
        map.spec_wf(),
        map.min.x == 0 && map.min.y == 0,
        old(tiles)@.len() == map.spec_area(),
        0 <= x1 < map.spec_width(),
        0 <= x2 < map.spec_width(),
        0 <= y < map.spec_height(),
    ensures
        carved_h(*map, old(tiles)@, final(tiles)@, x1 as int, x2 as int, y as int),
{
    let lo = if x1 <= x2 {
        x1
    } else {
        x2
    };
    let hi = if x1 <= x2 {
        x2
    } else {
        x1
    };
    let ghost t0 = tiles@;
    let mut x = lo;
    while x <= hi
        invariant
            map.spec_wf(),
            map.min.x == 0 && map.min.y == 0,
            lo == seg_lo(x1 as int, x2 as int),
            hi == seg_hi(x1 as int, x2 as int),
            0 <= lo <= x,
            x <= hi + 1,
            hi < map.spec_width(),
            0 <= y < map.spec_height(),
            tiles@.len() == t0.len() == map.spec_area(),
            forall|i: int|
                0 <= i < t0.len() ==> tiles@[i] == (if on_h_segment(*map, i, x1 as int, x2 as int, y as int)
                    && map.spec_idx_x(i) < x {
                    TileType::Floor
                } else {
                    t0[i]
                }),
        decreases hi + 1 - x,
    {
        let idx = map.xy_idx(x, y);
        tiles[idx] = TileType::Floor;
        proof {
            crate::rect::lemma_idx_position_roundtrip(*map, x as int, y as int);
            assert forall|i: int|
                0 <= i < t0.len() && map.spec_idx_x(i) == x as int && map.spec_idx_y(i)
                    == y as int implies i == idx as int by {
                crate::rect::lemma_idx_encode_unique(*map, i, x as int, y as int);
            }
        }
        x = x + 1;
    }
}

/// Carve a straight vertical corridor segment to Floor.
pub fn apply_vertical_tunnel(map: &Rect, y1: i32, y2: i32, x: i32, tiles: &mut Vec<TileType>)
    requires
        map.spec_wf(),
        map.min.x == 0 && map.min.y == 0,
        old(tiles)@.len() == map.spec_area(),
        0 <= y1 < map.spec_height(),
        0 <= y2 < map.spec_height(),
        0 <= x < map.spec_width(),
    ensures
        carved_v(*map, old(tiles)@, final(tiles)@, y1 as int, y2 as int, x as int),
{
    let lo = if y1 <= y2 {
        y1
    } else {
        y2
    };
    let hi = if y1 <= y2 {
        y2
    } else {
        y1
    };
    let ghost t0 = tiles@;
    let mut y = lo;
    while y <= hi
        invariant
            map.spec_wf(),
            map.min.x == 0 && map.min.y == 0,
            lo == seg_lo(y1 as int, y2 as int),
            hi == seg_hi(y1 as int, y2 as int),
            0 <= lo <= y,
            y <= hi + 1,
            hi < map.spec_height(),
            0 <= x < map.spec_width(),
            tiles@.len() == t0.len() == map.spec_area(),
            forall|i: int|
                0 <= i < t0.len() ==> tiles@[i] == (if on_v_segment(*map, i, y1 as int, y2 as int, x as int)
                    && map.spec_idx_y(i) < y {
                    TileType::Floor
                } else {
                    t0[i]
                }),
        decreases hi + 1 - y,
    {
        let idx = map.xy_idx(x, y);
        tiles[idx] = TileType::Floor;
        proof {
            crate::rect::lemma_idx_position_roundtrip(*map, x as int, y as int);
            assert forall|i: int|
                0 <= i < t0.len() && map.spec_idx_x(i) == x as int && map.spec_idx_y(i)
                    == y as int implies i == idx as int by {
                crate::rect::lemma_idx_encode_unique(*map, i, x as int, y as int);
            }
        }
        y = y + 1;
    }
}

/// Carve the whole interior of an accepted room to Floor.
pub fn apply_room_to_map(map: &Rect, room: &Rect, tiles: &mut Vec<TileType>)
    requires
        map.spec_wf(),
        room.spec_wf(),
        map.min.x == 0 && map.min.y == 0,
        old(tiles)@.len() == map.spec_area(),
        room.max.x <= map.max.x,
        room.max.y <= map.max.y,
    ensures
        carved_room(*map, old(tiles)@, final(tiles)@, *room),
{
    let ghost t0 = tiles@;
    let mut y = room.min.y;
    while y < room.max.y
        invariant
            map.spec_wf(),
            room.spec_wf(),
            map.min.x == 0 && map.min.y == 0,
            room.max.x <= map.max.x,
            room.max.y <= map.max.y,
            room.min.y <= y <= room.max.y,
            tiles@.len() == t0.len() == map.spec_area(),
            forall|i: int|
                0 <= i < t0.len() ==> tiles@[i] == (if in_room(*map, i, *room) && map.spec_idx_y(i)
                    < y {
                    TileType::Floor
                } else {
                    t0[i]
                }),
        decreases room.max.y - y,
    {
        let mut x = room.min.x;
        while x < room.max.x
            invariant
                map.spec_wf(),
                room.spec_wf(),
                map.min.x == 0 && map.min.y == 0,
                room.max.x <= map.max.x,
                room.max.y <= map.max.y,
                room.min.y <= y < room.max.y,
                room.min.x <= x <= room.max.x,
                tiles@.len() == t0.len() == map.spec_area(),
                forall|i: int|
                    0 <= i < t0.len() ==> tiles@[i] == (if in_room(*map, i, *room) && (
                    map.spec_idx_y(i) < y || (map.spec_idx_y(i) == y && map.spec_idx_x(i) < x)) {
                        TileType::Floor
                    } else {
                        t0[i]
                    }),
            decreases room.max.x - x,
        {
            let idx = map.xy_idx(x, y);
            tiles[idx] = TileType::Floor;
            proof {
                crate::rect::lemma_idx_position_roundtrip(*map, x as int, y as int);
                assert forall|i: int|
                    0 <= i < t0.len() && map.spec_idx_x(i) == x as int && map.spec_idx_y(i)
                        == y as int implies i == idx as int by {
                    crate::rect::lemma_idx_encode_unique(*map, i, x as int, y as int);
                }
            }
            x = x + 1;
        }
        y = y + 1;
    }
}

/// Carving is idempotent: a tile that is already Floor is left unchanged, and
/// carving a region whose tiles are all Floor already changes nothing at all.
pub proof fn lemma_carve_room_idempotent(
    size: Rect,
    t0: Seq<TileType>,
    t1: Seq<TileType>,
    t2: Seq<TileType>,
    room: Rect,
)
    requires
        carved_room(size, t0, t1, room),
        carved_room(size, t1, t2, room),
    ensures
        t2 =~= t1,
        forall|i: int|
            0 <= i < t0.len() && t0[i] == TileType::Floor ==> t1[i] == t0[i],
{
}

/// The corridor segments are idempotent in the same way as rooms.
pub proof fn lemma_carve_tunnels_idempotent(
    size: Rect,
    t0: Seq<TileType>,
    t1: Seq<TileType>,
    t2: Seq<TileType>,
    x1: int,
    x2: int,
    y1: int,
    y2: int,
)
    requires
        carved_h(size, t0, t1, x1, x2, y1),
        carved_h(size, t1, t2, x1, x2, y1),
        carved_v(size, t0, t1, y1, y2, x1),
        carved_v(size, t1, t2, y1, y2, x1),
    ensures
        t2 =~= t1,
        forall|i: int|
            0 <= i < t0.len() && t0[i] == TileType::Floor ==> t1[i] == t0[i],
{
}

impl GameMap {
    /// Well-formed: the grid rectangle is anchored at the origin, non-empty
    /// and bounded, and every per-tile vector covers exactly the area.
    pub open spec fn spec_wf(self) -> bool {
        &&& self.size.spec_wf()
        &&& self.size.min.x == 0
        &&& self.size.min.y == 0
        &&& self.size.spec_width() > 0
        &&& self.size.spec_height() > 0
        &&& self.tiles@.len() == self.size.spec_area()
        &&& self.revealed_tiles@.len() == self.size.spec_area()
        &&& self.visible_tiles@.len() == self.size.spec_area()
        &&& self.blocked@.len() == self.size.spec_area()
        &&& self.tile_content@.len() == self.size.spec_area()
    }

    /// Is `p` inside the grid?
    pub open spec fn spec_in_bounds(self, p: Position) -> bool {
        self.size.spec_contains(p)
    }

    /// Tile index of an in-bounds position.
    pub open spec fn spec_position_idx(self, p: Position) -> int {
        self.size.spec_xy_idx(p.x as int, p.y as int)
    }

    pub fn xy_idx(&self, x: i32, y: i32) -> (idx: usize)
        requires
            self.spec_wf(),
            0 <= x < self.size.spec_width(),
            0 <= y < self.size.spec_height(),
        ensures
            idx == self.size.spec_xy_idx(x as int, y as int),
            idx < self.size.spec_area(),
    {
        self.size.xy_idx(x, y)
    }

    pub fn position_idx(&self, p: Position) -> (idx: usize)
        requires
            self.spec_wf(),
            self.spec_in_bounds(p),
        ensures
            idx == self.spec_position_idx(p),
            idx < self.size.spec_area(),
    {
        self.xy_idx(p.x, p.y)
    }

    /// May a path step onto `(x, y)`: in bounds and not blocked?
    pub open spec fn spec_exit_valid(self, x: int, y: int) -> bool {
        &&& 0 <= x < self.size.spec_width()
        &&& 0 <= y < self.size.spec_height()
        &&& !self.blocked@[self.size.spec_xy_idx(x, y)]
    }

    pub fn is_exit_valid(&self, x: i32, y: i32) -> (r: bool)
        requires
            self.spec_wf(),
        ensures
            r == self.spec_exit_valid(x as int, y as int),
    {
        if !self.size.contains(&Position { x, y }) {
            return false;
        }
        let idx = self.xy_idx(x, y);
        !self.blocked[idx]
    }

    /// Is the tile opaque to sight (a Wall)?
    pub open spec fn spec_opaque(self, idx: int) -> bool {
        self.tiles@[idx] == TileType::Wall
    }

    pub fn is_opaque(&self, idx: usize) -> (r: bool)
        requires
            self.spec_wf(),
            idx < self.size.spec_area(),
        ensures
            r == self.spec_opaque(idx as int),
    {
        self.tiles[idx] == TileType::Wall
    }

    /// Reset the blocking mask to exactly the Wall mask.
    pub fn populate_blocked(&mut self)
        requires
            old(self).spec_wf(),
        ensures
            final(self).spec_wf(),
            *final(self) == (GameMap { blocked: final(self).blocked, ..*old(self) }),
            final(self).blocked@.len() == old(self).blocked@.len(),
            forall|i: int|
                0 <= i < old(self).blocked@.len() ==> final(self).blocked@[i] == (old(
                    self,
                ).tiles@[i] == TileType::Wall),
    {
        let n = self.tiles.len();
        let mut i: usize = 0;
        while i < n
            invariant
                self.spec_wf(),
                n == self.tiles@.len(),
                i <= n,
                *self == (GameMap { blocked: self.blocked, ..*old(self) }),
                self.blocked@.len() == old(self).blocked@.len(),
                forall|j: int| 0 <= j < i ==> self.blocked@[j] == (self.tiles@[j] == TileType::Wall),
                forall|j: int| i <= j < n ==> self.blocked@[j] == old(self).blocked@[j],
            decreases n - i,
        {
            let b = self.tiles[i] == TileType::Wall;
            self.blocked[i] = b;
            i = i + 1;
        }
    }

    /// Reset the per-tile occupancy lists to empty.
    pub fn clear_content_index(&mut self)
        requires
            old(self).spec_wf(),
        ensures
            final(self).spec_wf(),
            *final(self) == (GameMap { tile_content: final(self).tile_content, ..*old(self) }),
            final(self).tile_content@.len() == old(self).tile_content@.len(),
            forall|i: int|
                0 <= i < old(self).tile_content@.len() ==> final(self).tile_content@[i]@
                    == Seq::<Entity>::empty(),
    {
        let n = self.tile_content.len();
        let mut i: usize = 0;
        while i < n
            invariant
                self.spec_wf(),
                n == self.tile_content@.len(),
                i <= n,
                *self == (GameMap { tile_content: self.tile_content, ..*old(self) }),
                self.tile_content@.len() == old(self).tile_content@.len(),
                forall|j: int| 0 <= j < i ==> self.tile_content@[j]@ == Seq::<Entity>::empty(),
            decreases n - i,
        {
            let empty: Vec<Entity> = Vec::new();
            self.tile_content[i] = empty;
            i = i + 1;
        }
    }
}


/// Every entity position the store holds lies inside the map grid.
pub open spec fn positions_in_bounds(w: World, map: GameMap) -> bool {
    forall|e: int|
        0 <= e < w.spec_len() ==> (#[trigger] w.positions@[e] matches Some(p) ==> map.spec_in_bounds(
            p,
        ))
}

/// Consistency of positions with the map carries over to a store whose
/// positions are pointwise unchanged or removed.
pub proof fn lemma_pib_transfer(w1: World, w2: World, map: GameMap)
    requires
        positions_in_bounds(w1, map),
        w2.spec_len() == w1.spec_len(),
        forall|e: int|
            0 <= e < w2.spec_len() ==> #[trigger] w2.positions@[e] == w1.positions@[e]
                || w2.positions@[e] is None,
    ensures
        positions_in_bounds(w2, map),
{
    assert forall|e: int|
        0 <= e < w2.spec_len() implies (#[trigger] w2.positions@[e] matches Some(p)
        ==> map.spec_in_bounds(p)) by {
        if w2.positions@[e] is Some {
            assert(w1.positions@[e] matches Some(q) ==> map.spec_in_bounds(q));
        }
    }
}

/// Every tile on the horizontal segment at row `y` between `x1` and `x2`
/// (inclusive) is Floor.
pub open spec fn spec_h_segment_floor(size: Rect, tiles: Seq<TileType>, x1: int, x2: int, y: int) -> bool {
    forall|t: int|
        0 <= t < tiles.len() && on_h_segment(size, t, x1, x2, y) ==> tiles[t] == TileType::Floor
}

/// Every tile on the vertical segment at column `x` between `y1` and `y2`
/// (inclusive) is Floor.
pub open spec fn spec_v_segment_floor(size: Rect, tiles: Seq<TileType>, y1: int, y2: int, x: int) -> bool {
    forall|t: int|
        0 <= t < tiles.len() && on_v_segment(size, t, y1, y2, x) ==> tiles[t] == TileType::Floor
}

/// An L-shaped corridor of Floor joins `(px, py)` to `(nx, ny)`: one
/// straight vertical and one straight horizontal segment, in one of the two
/// orientations the generator's coin flip chooses between.
pub open spec fn spec_l_corridor(
    size: Rect,
    tiles: Seq<TileType>,
    px: int,
    py: int,
    nx: int,
    ny: int,
) -> bool {
    ||| (spec_v_segment_floor(size, tiles, py, ny, nx) && spec_h_segment_floor(
        size,
        tiles,
        px,
        nx,
        py,
    ))
    ||| (spec_v_segment_floor(size, tiles, py, ny, px) && spec_h_segment_floor(
        size,
        tiles,
        px,
        nx,
        ny,
    ))
}

/// Center coordinates of a rectangle, as the generator computes them.
pub open spec fn spec_center_x(r: Rect) -> int {
    (r.min.x + r.max.x) / 2
}

pub open spec fn spec_center_y(r: Rect) -> int {
    (r.min.y + r.max.y) / 2
}

/// Tile `t` lies inside one of the first `n` rooms.
pub open spec fn spec_in_room_upto(size: Rect, rooms: Seq<Rect>, n: int, t: int) -> bool {
    exists|i: int| 0 <= i < n && i < rooms.len() && in_room(size, t, #[trigger] rooms[i])
}

/// Tile `t` lies on one of the candidate corridor segments joining the
/// centers of a consecutive room pair below `n` (either orientation).
pub open spec fn spec_on_corridor_upto(size: Rect, rooms: Seq<Rect>, n: int, t: int) -> bool {
    exists|i: int|
        1 <= i < n && i < rooms.len() && {
            let px = spec_center_x(#[trigger] rooms[i - 1]);
            let py = spec_center_y(rooms[i - 1]);
            let nx = spec_center_x(rooms[i]);
            let ny = spec_center_y(rooms[i]);
            ||| on_v_segment(size, t, py, ny, nx)
            ||| on_v_segment(size, t, py, ny, px)
            ||| on_h_segment(size, t, px, nx, py)
            ||| on_h_segment(size, t, px, nx, ny)
        }
}

/// Carving more tiles to Floor keeps an existing corridor carved.
proof fn lemma_corridor_preserved(
    size: Rect,
    t0: Seq<TileType>,
    t1: Seq<TileType>,
    px: int,
    py: int,
    nx: int,
    ny: int,
)
    requires
        spec_l_corridor(size, t0, px, py, nx, ny),
        t1.len() == t0.len(),
        forall|t: int| 0 <= t < t0.len() && t0[t] == TileType::Floor ==> t1[t] == TileType::Floor,
    ensures
        spec_l_corridor(size, t1, px, py, nx, ny),
{
    if spec_v_segment_floor(size, t0, py, ny, nx) && spec_h_segment_floor(size, t0, px, nx, py) {
        assert forall|t: int|
            0 <= t < t1.len() && on_v_segment(size, t, py, ny, nx) implies t1[t]
            == TileType::Floor by {
            assert(t0[t] == TileType::Floor);
        }
        assert forall|t: int|
            0 <= t < t1.len() && on_h_segment(size, t, px, nx, py) implies t1[t]
            == TileType::Floor by {
            assert(t0[t] == TileType::Floor);
        }
    } else {
        assert forall|t: int|
            0 <= t < t1.len() && on_v_segment(size, t, py, ny, px) implies t1[t]
            == TileType::Floor by {
            assert(t0[t] == TileType::Floor);
        }
        assert forall|t: int|
            0 <= t < t1.len() && on_h_segment(size, t, px, nx, ny) implies t1[t]
            == TileType::Floor by {
            assert(t0[t] == TileType::Floor);
        }
    }
}

/// Upper bound on room-placement attempts during generation.
pub const MAX_ROOMS: i32 = 30;

/// A vector of `n` copies of a boolean.
fn fill_bool(n: usize, val: bool) -> (v: Vec<bool>)
    ensures
        v@.len() == n,
        forall|i: int| 0 <= i < n ==> v@[i] == val,
{
    let mut v: Vec<bool> = Vec::new();
    let mut i: usize = 0;
    while i < n
        invariant
            i <= n,
            v@.len() == i,
            forall|k: int| 0 <= k < i ==> v@[k] == val,
        decreases n - i,
    {
        v.push(val);
        i = i + 1;
    }
    v
}

/// A vector of `n` Wall tiles.
fn fill_walls(n: usize) -> (v: Vec<TileType>)
    ensures
        v@.len() == n,
        forall|i: int| 0 <= i < n ==> v@[i] == TileType::Wall,
{
    let mut v: Vec<TileType> = Vec::new();
    let mut i: usize = 0;
    while i < n
        invariant
            i <= n,
            v@.len() == i,
            forall|k: int| 0 <= k < i ==> v@[k] == TileType::Wall,
        decreases n - i,
    {
        v.push(TileType::Wall);
        i = i + 1;
    }
    v
}

/// A vector of `n` empty occupancy lists.
fn fill_lists(n: usize) -> (v: Vec<Vec<Entity>>)
    ensures
        v@.len() == n,
        forall|i: int| 0 <= i < n ==> v@[i]@ == Seq::<Entity>::empty(),
{
    let mut v: Vec<Vec<Entity>> = Vec::new();
    let mut i: usize = 0;
    while i < n
        invariant
            i <= n,
            v@.len() == i,
            forall|k: int| 0 <= k < i ==> v@[k]@ == Seq::<Entity>::empty(),
        decreases n - i,
    {
        let inner: Vec<Entity> = Vec::new();
        v.push(inner);
        i = i + 1;
    }
    v
}

impl GameMap {
    /// Generate a fresh dungeon level: sample up to `MAX_ROOMS` candidate
    /// rooms, keeping each candidate only if it does not corner-intersect any
    /// previously accepted room; carve accepted rooms to Floor; connect each
    /// room to its predecessor with one L-shaped corridor whose orientation
    /// is chosen by coin flip; and hand every room to the spawner.
    ///
    /// The first candidate is always accepted, so at least one room exists.
    /// The returned grid is anchored at the origin with the viewport's
    /// dimensions; every accepted room lies strictly inside the border, no
    /// later room corner-intersects an earlier one, every room tile is Floor,
    /// and the visibility, reveal and blocking masks start all-false with
    /// empty occupancy lists.  Existing entities are untouched, and every
    /// spawned entity stands in bounds.
    #[verifier::rlimit(60)]
    pub fn new_map_rooms_and_corridors(
        world: &mut World,
        viewport: &Viewport,
        rng: &mut rltk::RandomNumberGenerator,
    ) -> (map: GameMap)
        requires
            old(world).spec_wf(),
            13 <= viewport.map_width <= 4096,
            13 <= viewport.map_height <= 4096,
            old(world).spec_len() + 200 < usize::MAX,
        ensures
            final(world).spec_wf(),
            map.spec_wf(),
            map.size.spec_width() == viewport.map_width,
            map.size.spec_height() == viewport.map_height,
            1 <= map.rooms@.len() <= MAX_ROOMS,
            forall|i: int|
                0 <= i < map.rooms@.len() ==> (#[trigger] map.rooms@[i]).spec_wf()
                    && 1 <= map.rooms@[i].min.x && map.rooms@[i].max.x <= viewport.map_width - 1
                    && 1 <= map.rooms@[i].min.y && map.rooms@[i].max.y <= viewport.map_height - 1
                    && 6 <= map.rooms@[i].spec_width() <= 9 && 6 <= map.rooms@[i].spec_height()
                    <= 9,
            forall|i: int, j: int|
                0 <= i < j < map.rooms@.len() ==> !(#[trigger] map.rooms@[j]).spec_intersect(
                    #[trigger] map.rooms@[i],
                ),
            forall|i: int, t: int|
                0 <= i < map.rooms@.len() && 0 <= t < map.size.spec_area() && #[trigger] in_room(
                    map.size,
                    t,
                    map.rooms@[i],
                ) ==> map.tiles@[t] == TileType::Floor,
            forall|i: int|
                1 <= i < map.rooms@.len() ==> spec_l_corridor(
                    map.size,
                    map.tiles@,
                    spec_center_x(#[trigger] map.rooms@[i - 1]),
                    spec_center_y(map.rooms@[i - 1]),
                    spec_center_x(map.rooms@[i]),
                    spec_center_y(map.rooms@[i]),
                ),
            forall|t: int|
                0 <= t < map.size.spec_area() && #[trigger] map.tiles@[t] == TileType::Floor
                    ==> spec_in_room_upto(map.size, map.rooms@, map.rooms@.len() as int, t)
                    || spec_on_corridor_upto(map.size, map.rooms@, map.rooms@.len() as int, t),
            forall|t: int|
                0 <= t < map.size.spec_area() ==> !map.revealed_tiles@[t]
                    && !map.visible_tiles@[t] && !map.blocked@[t] && map.tile_content@[t]@
                    == Seq::<Entity>::empty(),
            forall|d: int|
                0 <= d < old(world).spec_len() ==> entity_unchanged(*old(world), *final(world), d),
            forall|e: int|
                old(world).spec_len() <= e < final(world).spec_len() ==> final(world).alive@[e],
            forall|e: int|
                old(world).spec_len() <= e < final(world).spec_len()
                    ==> (#[trigger] final(world).positions@[e] matches Some(p)
                    && map.spec_in_bounds(p)),
            final(world).pending_deletes@ == old(world).pending_deletes@,
    {
        let width = viewport.map_width;
        let height = viewport.map_height;
        let size = Rect::new(0, 0, width, height);
        let area_i = size.area();
        let vec_size = area_i as usize;
        let mut tiles: Vec<TileType> = fill_walls(vec_size);
        let mut rooms: Vec<Rect> = Vec::new();

        let mut attempt: i32 = 0;
        while attempt < MAX_ROOMS
            invariant
                size.spec_wf(),
                size.min.x == 0 && size.min.y == 0,
                size.spec_width() == width,
                size.spec_height() == height,
                13 <= width <= 4096,
                13 <= height <= 4096,
                0 <= attempt <= MAX_ROOMS,
                rooms@.len() <= attempt,
                attempt >= 1 ==> rooms@.len() >= 1,
                forall|i: int|
                    0 <= i < rooms@.len() ==> (#[trigger] rooms@[i]).spec_wf() && 1
                        <= rooms@[i].min.x && rooms@[i].max.x <= width - 1 && 1 <= rooms@[i].min.y
                        && rooms@[i].max.y <= height - 1 && 6 <= rooms@[i].spec_width() <= 9 && 6
                        <= rooms@[i].spec_height() <= 9,
                forall|i: int, j: int|
                    0 <= i < j < rooms@.len() ==> !(#[trigger] rooms@[j]).spec_intersect(
                        #[trigger] rooms@[i],
                    ),
            decreases MAX_ROOMS - attempt,
        {
            let w = rng_range(rng, 6, 10);
            let h = rng_range(rng, 6, 10);
            let x = rng_range(rng, 1, width - w - 1);
            let y = rng_range(rng, 1, height - h - 1);
            let new_room = Rect::new(x, y, w, h);
            let mut ok = true;
            let mut ri: usize = 0;
            while ri < rooms.len() && ok
                invariant
                    ri <= rooms@.len(),
                    rooms@.len() == 0 ==> ok,
                    ok ==> forall|k: int|
                        0 <= k < ri ==> !new_room.spec_intersect(#[trigger] rooms@[k]),
                decreases rooms@.len() - ri,
            {
                if new_room.intersect(&rooms[ri]) {
                    ok = false;
                }
                ri = ri + 1;
            }
            if ok {
                rooms.push(new_room);
            }
            attempt = attempt + 1;
        }

        let mut index: usize = 0;
        while index < rooms.len()
            invariant
                world.spec_wf(),
                size.spec_wf(),
                size.min.x == 0 && size.min.y == 0,
                size.spec_width() == width,
                size.spec_height() == height,
                13 <= width <= 4096,
                13 <= height <= 4096,
                index <= rooms@.len(),
                1 <= rooms@.len() <= MAX_ROOMS,
                tiles@.len() == size.spec_area(),
                forall|i: int|
                    0 <= i < rooms@.len() ==> (#[trigger] rooms@[i]).spec_wf() && 1
                        <= rooms@[i].min.x && rooms@[i].max.x <= width - 1 && 1 <= rooms@[i].min.y
                        && rooms@[i].max.y <= height - 1 && 6 <= rooms@[i].spec_width() <= 9 && 6
                        <= rooms@[i].spec_height() <= 9,
                forall|i: int, j: int|
                    0 <= i < j < rooms@.len() ==> !(#[trigger] rooms@[j]).spec_intersect(
                        #[trigger] rooms@[i],
                    ),
                forall|i: int, t: int|
                    0 <= i < index && 0 <= t < size.spec_area() && #[trigger] in_room(
                        size,
                        t,
                        rooms@[i],
                    ) ==> tiles@[t] == TileType::Floor,
                forall|i: int|
                    1 <= i < index ==> spec_l_corridor(
                        size,
                        tiles@,
                        spec_center_x(#[trigger] rooms@[i - 1]),
                        spec_center_y(rooms@[i - 1]),
                        spec_center_x(rooms@[i]),
                        spec_center_y(rooms@[i]),
                    ),
                forall|t: int|
                    0 <= t < size.spec_area() && #[trigger] tiles@[t] == TileType::Floor
                        ==> spec_in_room_upto(size, rooms@, index as int, t)
                        || spec_on_corridor_upto(size, rooms@, index as int, t),
                old(world).spec_wf(),
                old(world).spec_len() + 200 < usize::MAX,
                old(world).spec_len() <= world.spec_len() <= old(world).spec_len() + 6 * index,
                forall|d: int|
                    0 <= d < old(world).spec_len() ==> entity_unchanged(*old(world), *world, d),
                forall|e: int|
                    old(world).spec_len() <= e < world.spec_len() ==> world.alive@[e] && (
                    world.positions@[e] matches Some(p) && size.spec_contains(p)),
                world.pending_deletes@ == old(world).pending_deletes@,
            decreases rooms@.len() - index,
        {
            let room = rooms[index];
            let ghost t_pre = tiles@;
            apply_room_to_map(&size, &room, &mut tiles);
            let ghost t_room = tiles@;
            proof {
                assert forall|i: int|
                    1 <= i < index implies spec_l_corridor(
                    size,
                    tiles@,
                    spec_center_x(#[trigger] rooms@[i - 1]),
                    spec_center_y(rooms@[i - 1]),
                    spec_center_x(rooms@[i]),
                    spec_center_y(rooms@[i]),
                ) by {
                    lemma_corridor_preserved(
                        size,
                        t_pre,
                        tiles@,
                        spec_center_x(rooms@[i - 1]),
                        spec_center_y(rooms@[i - 1]),
                        spec_center_x(rooms@[i]),
                        spec_center_y(rooms@[i]),
                    );
                }
                assert forall|t: int|
                    0 <= t < size.spec_area() && #[trigger] tiles@[t]
                        == TileType::Floor implies spec_in_room_upto(
                    size,
                    rooms@,
                    index as int,
                    t,
                ) || spec_on_corridor_upto(size, rooms@, index as int, t) || in_room(
                    size,
                    t,
                    rooms@[index as int],
                ) by {
                    if t_pre[t] == TileType::Floor {
                    } else {
                        assert(in_room(size, t, rooms@[index as int]));
                    }
                }
            }

            if index > 0 {
                let (new_x, new_y) = room.center();
                let (prev_x, prev_y) = rooms[index - 1].center();
                let coin = rng_range(rng, 0, 2);
                let (tunnel_x, tunnel_y) = if coin == 1 {
                    (new_x, prev_y)
                } else {
                    (prev_x, new_y)
                };
                apply_vertical_tunnel(&size, prev_y, new_y, tunnel_x, &mut tiles);
                let ghost t_v = tiles@;
                apply_horizontal_tunnel(&size, prev_x, new_x, tunnel_y, &mut tiles);
                proof {
                    assert(prev_x == spec_center_x(rooms@[index - 1]) && prev_y == spec_center_y(
                        rooms@[index - 1],
                    ) && new_x == spec_center_x(rooms@[index as int]) && new_y == spec_center_y(
                        rooms@[index as int],
                    ));
                    assert(spec_v_segment_floor(
                        size,
                        tiles@,
                        prev_y as int,
                        new_y as int,
                        tunnel_x as int,
                    )) by {
                        assert forall|t: int|
                            0 <= t < tiles@.len() && on_v_segment(
                                size,
                                t,
                                prev_y as int,
                                new_y as int,
                                tunnel_x as int,
                            ) implies tiles@[t] == TileType::Floor by {
                            assert(t_v[t] == TileType::Floor);
                        }
                    }
                    assert(spec_h_segment_floor(
                        size,
                        tiles@,
                        prev_x as int,
                        new_x as int,
                        tunnel_y as int,
                    ));
                    assert(spec_l_corridor(
                        size,
                        tiles@,
                        spec_center_x(rooms@[index - 1]),
                        spec_center_y(rooms@[index - 1]),
                        spec_center_x(rooms@[index as int]),
                        spec_center_y(rooms@[index as int]),
                    ));
                    assert forall|i: int|
                        1 <= i < index + 1 implies spec_l_corridor(
                        size,
                        tiles@,
                        spec_center_x(#[trigger] rooms@[i - 1]),
                        spec_center_y(rooms@[i - 1]),
                        spec_center_x(rooms@[i]),
                        spec_center_y(rooms@[i]),
                    ) by {
                        if i < index {
                            lemma_corridor_preserved(
                                size,
                                t_room,
                                t_v,
                                spec_center_x(rooms@[i - 1]),
                                spec_center_y(rooms@[i - 1]),
                                spec_center_x(rooms@[i]),
                                spec_center_y(rooms@[i]),
                            );
                            lemma_corridor_preserved(
                                size,
                                t_v,
                                tiles@,
                                spec_center_x(rooms@[i - 1]),
                                spec_center_y(rooms@[i - 1]),
                                spec_center_x(rooms@[i]),
                                spec_center_y(rooms@[i]),
                            );
                        }
                    }
                    assert forall|t: int|
                        0 <= t < size.spec_area() && #[trigger] tiles@[t]
                            == TileType::Floor implies spec_in_room_upto(
                        size,
                        rooms@,
                        index + 1,
                        t,
                    ) || spec_on_corridor_upto(size, rooms@, index + 1, t) by {
                        if t_room[t] == TileType::Floor {
                            if spec_in_room_upto(size, rooms@, index as int, t)
                                || spec_on_corridor_upto(size, rooms@, index as int, t)
                                || in_room(size, t, rooms@[index as int]) {
                            }
                        } else if t_v[t] == TileType::Floor {
                            assert(on_v_segment(
                                size,
                                t,
                                prev_y as int,
                                new_y as int,
                                tunnel_x as int,
                            ));
                            assert(tunnel_x == new_x || tunnel_x == prev_x);
                        } else {
                            assert(on_h_segment(
                                size,
                                t,
                                prev_x as int,
                                new_x as int,
                                tunnel_y as int,
                            ));
                            assert(tunnel_y == prev_y || tunnel_y == new_y);
                        }
                    }
                }
            } else {
                proof {
                    assert forall|t: int|
                        0 <= t < size.spec_area() && #[trigger] tiles@[t]
                            == TileType::Floor implies spec_in_room_upto(
                        size,
                        rooms@,
                        index + 1,
                        t,
                    ) || spec_on_corridor_upto(size, rooms@, index + 1, t) by {
                        if t_pre[t] == TileType::Floor {
                        } else {
                            assert(in_room(size, t, rooms@[index as int]));
                        }
                    }
                }
            }

            proof {
                assert(room.spec_area() <= 81) by (nonlinear_arith)
                    requires
                        room.spec_area() == room.spec_width() * room.spec_height(),
                        0 <= room.spec_width() <= 9,
                        0 <= room.spec_height() <= 9,
                ;
            }
            let ghost prev_w = *world;
            spawn_room(world, rng, &room);
            proof {
                assert forall|d: int|
                    0 <= d < old(world).spec_len() implies entity_unchanged(
                    *old(world),
                    *world,
                    d,
                ) by {
                    assert(entity_unchanged(*old(world), prev_w, d));
                    assert(entity_unchanged(prev_w, *world, d));
                }
                assert forall|e: int|
                    old(world).spec_len() <= e < world.spec_len() implies world.alive@[e] && (
                world.positions@[e] matches Some(p) && size.spec_contains(p)) by {
                    if e < prev_w.spec_len() {
                        assert(entity_unchanged(prev_w, *world, e));
                    }
                }
            }
            index = index + 1;
        }

        let revealed_tiles = fill_bool(vec_size, false);
        let visible_tiles = fill_bool(vec_size, false);
        let blocked = fill_bool(vec_size, false);
        let tile_content = fill_lists(vec_size);
        let map = GameMap { size, tiles, rooms, revealed_tiles, visible_tiles, blocked, tile_content };
        proof {
            assert forall|e: int|
                old(world).spec_len() <= e < world.spec_len() implies (#[trigger] world.positions@[e] matches Some(p)
                && map.spec_in_bounds(p)) by {
                assert(world.alive@[e] && (world.positions@[e] matches Some(p)
                    && size.spec_contains(p)));
            }
        }
        map
    }
}

} // verus!
