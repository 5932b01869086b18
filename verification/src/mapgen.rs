//! The dungeon generator: rejection-sampled room placement, L-shaped
//! tunnels, and depth-scaled room population. No two accepted rooms
//! ever overlap: a candidate that touches one is rejected whole.

use vstd::prelude::*;

use crate::consts::{MAP_HEIGHT, MAP_WIDTH, MAX_ROOMS, ROOM_MAX_SIZE, ROOM_MIN_SIZE};
use crate::items::make_item;
use crate::monsters::make_monster;
use crate::rng::{rand_bool, rand_range_i32};
use crate::spawn::{spec_total_weight, weighted_draw, Weighted};
use crate::types::{
    dist_sq, in_map, in_map_interior, map_closed, map_wf, Object, Tile, TileMap,
};
use crate::util::{from_dungeon_level, Transition};

verus! {

/// An axis-aligned room footprint. The interior, carved to floor, is
/// `x1+1..x2` by `y1+1..y2`; the one-tile rim stays wall.
#[derive(Clone, Copy, Debug, PartialEq, Eq, Structural)]
pub struct Rect {
    pub x1: i32,
    pub y1: i32,
    pub x2: i32,
    pub y2: i32,
}

/// Closed-interval overlap on both axes: even rooms that only share
/// their rim count as intersecting and are rejected.
pub open spec fn spec_intersects(a: Rect, b: Rect) -> bool {
    &&& a.x1 <= b.x2
    &&& a.x2 >= b.x1
    &&& a.y1 <= b.y2
    &&& a.y2 >= b.y1
}

/// A room that fits on the grid with its rim, so that its interior
/// lies strictly inside the border.
pub open spec fn room_in_bounds(r: Rect) -> bool {
    &&& 0 <= r.x1 < r.x2 < MAP_WIDTH as int
    &&& 0 <= r.y1 < r.y2 < MAP_HEIGHT as int
}

/// No two rooms of the sequence overlap.
pub open spec fn rooms_disjoint(rooms: Seq<Rect>) -> bool {
    forall|i: int, j: int|
        0 <= i < j < rooms.len() ==> !spec_intersects(#[trigger] rooms[i], #[trigger] rooms[j])
}

impl Rect {
    /// A room of width `w` and height `h` whose rim starts at `(x, y)`.
    pub fn new(x: i32, y: i32, w: i32, h: i32) -> (r: Rect)
        requires
            0 <= x,
            0 <= y,
            0 < w,
            0 < h,
            x + w <= i32::MAX as int,
            y + h <= i32::MAX as int,
        ensures
            r == (Rect { x1: x, y1: y, x2: (x + w) as i32, y2: (y + h) as i32 }),
    {
        Rect { x1: x, y1: y, x2: x + w, y2: y + h }
    }

    /// The integer-truncated midpoint, used as a tunnel endpoint.
    pub fn center(&self) -> (c: (i32, i32))
        requires
            0 <= self.x1 <= self.x2,
            0 <= self.y1 <= self.y2,
            self.x1 + self.x2 <= i32::MAX as int,
            self.y1 + self.y2 <= i32::MAX as int,
        ensures
            c.0 == (self.x1 + self.x2) as int / 2,
            c.1 == (self.y1 + self.y2) as int / 2,
    {
        let center_x = (self.x1 + self.x2) / 2;
        let center_y = (self.y1 + self.y2) / 2;
        (center_x, center_y)
    }

    /// Whether this room overlaps the other under the closed-interval
    /// test.
    pub fn intersects_with(&self, other: &Rect) -> (r: bool)
        ensures
            r == spec_intersects(*self, *other),
    {
        (self.x1 <= other.x2) && (self.x2 >= other.x1) && (self.y1 <= other.y2) && (self.y2
            >= other.y1)
    }
}

/// A tile is blocked, or some blocking entity stands on it.
pub open spec fn spec_is_blocked(x: int, y: int, map: Seq<Vec<Tile>>, objects: Seq<Object>) -> bool {
    ||| map[x]@[y].blocked
    ||| exists|i: int| 0 <= i < objects.len() && (#[trigger] objects[i]).blocks && objects[i].x == x
        && objects[i].y == y
}

/// Whether the tile at `(x, y)` stops movement: it is a wall, or a
/// blocking entity occupies it. Exposed for the input-handling
/// collaborator to reuse for player movement.
pub fn is_blocked(x: i32, y: i32, map: &TileMap, objects: &[Object]) -> (r: bool)
    requires
        map_wf(map@),
        in_map(x as int, y as int),
    ensures
        r == spec_is_blocked(x as int, y as int, map@, objects@),
{
    if map[x as usize][y as usize].blocked {
        return true;
    }
    let n = objects.len();
    let mut i: usize = 0;
    while i < n
        invariant
            i <= n,
            n == objects@.len(),
            forall|j: int|
                0 <= j < i ==> !((#[trigger] objects@[j]).blocks && objects@[j].x == x as int
                    && objects@[j].y == y as int),
        decreases n - i,
    {
        let o = &objects[i];
        if o.blocks && o.x == x && o.y == y {
            return true;
        }
        i = i + 1;
    }
    false
}

/// Write one floor tile at `(x, y)`.
fn set_tile_empty(map: &mut TileMap, x: i32, y: i32)
    requires
        map_wf(old(map)@),
        in_map(x as int, y as int),
    ensures
        map_wf(final(map)@),
        final(map)@.len() == old(map)@.len(),
        forall|i: int, j: int|
            0 <= i < old(map)@.len() && 0 <= j < (#[trigger] old(map)@[i])@.len() ==> (
            #[trigger] final(map)@[i]@[j]) == (if i == x as int && j == y as int {
                Tile { blocked: false, block_sight: false, explored: false }
            } else {
                old(map)@[i]@[j]
            }),
{
    let column = &mut map[x as usize];
    column[y as usize] = Tile::empty();
    proof {
        assert forall|i: int, j: int|
            0 <= i < old(map)@.len() && 0 <= j < (#[trigger] old(map)@[i])@.len() implies (
        #[trigger] final(map)@[i]@[j]) == (if i == x as int && j == y as int {
            Tile { blocked: false, block_sight: false, explored: false }
        } else {
            old(map)@[i]@[j]
        }) by {
            if i == x as int {
                assert(final(map)@[i]@ == old(map)@[i]@.update(y as int, Tile {
                    blocked: false,
                    block_sight: false,
                    explored: false,
                }));
            } else {
                assert(final(map)@[i] == old(map)@[i]);
            }
        }
    }
}

/// The tiles of `b` agree with `a` except that the interior of the
/// room has been carved to floor.
pub open spec fn room_carved(a: Seq<Vec<Tile>>, b: Seq<Vec<Tile>>, room: Rect) -> bool {
    &&& b.len() == a.len()
    &&& forall|x: int, y: int|
        0 <= x < a.len() && 0 <= y < (#[trigger] a[x])@.len() ==> (#[trigger] b[x]@[y]) == (
        if room.x1 < x < room.x2 && room.y1 < y < room.y2 {
            Tile { blocked: false, block_sight: false, explored: false }
        } else {
            a[x]@[y]
        })
}

/// Carve the interior of the room, excluding its one-tile rim, to
/// floor tiles.
pub fn create_room(room: Rect, map: &mut TileMap)
    requires
        map_wf(old(map)@),
        room_in_bounds(room),
    ensures
        map_wf(final(map)@),
        room_carved(old(map)@, final(map)@, room),
{
    let mut x = room.x1 + 1;
    while x < room.x2
        invariant
            map_wf(map@),
            map_wf(old(map)@),
            room.x1 < x <= room.x2 <= MAP_WIDTH as int,
            room_in_bounds(room),
            map@.len() == old(map)@.len(),
            forall|i: int, j: int|
                0 <= i < map@.len() && 0 <= j < (#[trigger] old(map)@[i])@.len() ==> (
                #[trigger] map@[i]@[j]) == (if room.x1 < i < x && room.y1 < j < room.y2 {
                    Tile { blocked: false, block_sight: false, explored: false }
                } else {
                    old(map)@[i]@[j]
                }),
        decreases room.x2 - x,
    {
        let mut y = room.y1 + 1;
        while y < room.y2
            invariant
                map_wf(map@),
                map_wf(old(map)@),
                room.x1 < x < room.x2 <= MAP_WIDTH as int,
                room.y1 < y <= room.y2 <= MAP_HEIGHT as int,
                room_in_bounds(room),
                map@.len() == old(map)@.len(),
                forall|i: int, j: int|
                    0 <= i < map@.len() && 0 <= j < (#[trigger] old(map)@[i])@.len() ==> (
                    #[trigger] map@[i]@[j]) == (if (room.x1 < i < x && room.y1 < j < room.y2) || (i
                        == x && room.y1 < j < y) {
                        Tile { blocked: false, block_sight: false, explored: false }
                    } else {
                        old(map)@[i]@[j]
                    }),
            decreases room.y2 - y,
        {
            let ghost prev = map@;
            set_tile_empty(map, x, y);
            proof {
                assert forall|i: int, j: int|
                    0 <= i < map@.len() && 0 <= j < (#[trigger] old(map)@[i])@.len() implies (
                #[trigger] map@[i]@[j]) == (if (room.x1 < i < x && room.y1 < j < room.y2) || (i
                    == x as int && room.y1 < j < y + 1) {
                    Tile { blocked: false, block_sight: false, explored: false }
                } else {
                    old(map)@[i]@[j]
                }) by {
                    assert(prev[i]@.len() == old(map)@[i]@.len());
                    if !(i == x as int && j == y as int) {
                        assert(map@[i]@[j] == prev[i]@[j]);
                    }
                }
            }
            y = y + 1;
        }
        x = x + 1;
    }
}

/// The tiles of `b` agree with `a` except that the horizontal run at
/// row `y` between the two columns (inclusive) has been carved.
pub open spec fn h_tunnel_carved(a: Seq<Vec<Tile>>, b: Seq<Vec<Tile>>, x1: int, x2: int, y: int) -> bool {
    &&& b.len() == a.len()
    &&& forall|i: int, j: int|
        0 <= i < a.len() && 0 <= j < (#[trigger] a[i])@.len() ==> (#[trigger] b[i]@[j]) == (
        if vstd::math::min(x1, x2) <= i <= vstd::math::max(x1, x2) && j == y {
            Tile { blocked: false, block_sight: false, explored: false }
        } else {
            a[i]@[j]
        })
}

/// The tiles of `b` agree with `a` except that the vertical run at
/// column `x` between the two rows (inclusive) has been carved.
pub open spec fn v_tunnel_carved(a: Seq<Vec<Tile>>, b: Seq<Vec<Tile>>, y1: int, y2: int, x: int) -> bool {
    &&& b.len() == a.len()
    &&& forall|i: int, j: int|
        0 <= i < a.len() && 0 <= j < (#[trigger] a[i])@.len() ==> (#[trigger] b[i]@[j]) == (
        if i == x && vstd::math::min(y1, y2) <= j <= vstd::math::max(y1, y2) {
            Tile { blocked: false, block_sight: false, explored: false }
        } else {
            a[i]@[j]
        })
}

/// Carve a horizontal tunnel at row `y` between the two columns,
/// inclusive on both ends.
pub fn create_h_tunnel(x1: i32, x2: i32, y: i32, map: &mut TileMap)
    requires
        map_wf(old(map)@),
        in_map(x1 as int, y as int),
        in_map(x2 as int, y as int),
    ensures
        map_wf(final(map)@),
        h_tunnel_carved(old(map)@, final(map)@, x1 as int, x2 as int, y as int),
{
    let lo = if x1 < x2 {
        x1
    } else {
        x2
    };
    let hi = if x1 < x2 {
        x2
    } else {
        x1
    };
    let mut x = lo;
    while x < hi + 1
        invariant
            map_wf(map@),
            map_wf(old(map)@),
            lo <= x <= hi + 1,
            lo == vstd::math::min(x1 as int, x2 as int),
            hi == vstd::math::max(x1 as int, x2 as int),
            in_map(lo as int, y as int),
            in_map(hi as int, y as int),
            map@.len() == old(map)@.len(),
            forall|i: int, j: int|
                0 <= i < map@.len() && 0 <= j < (#[trigger] old(map)@[i])@.len() ==> (
                #[trigger] map@[i]@[j]) == (if lo <= i < x && j == y as int {
                    Tile { blocked: false, block_sight: false, explored: false }
                } else {
                    old(map)@[i]@[j]
                }),
        decreases hi + 1 - x,
    {
        let ghost prev = map@;
        set_tile_empty(map, x, y);
        proof {
            assert forall|i: int, j: int|
                0 <= i < map@.len() && 0 <= j < (#[trigger] old(map)@[i])@.len() implies (
            #[trigger] map@[i]@[j]) == (if lo <= i < x + 1 && j == y as int {
                Tile { blocked: false, block_sight: false, explored: false }
            } else {
                old(map)@[i]@[j]
            }) by {
                assert(prev[i]@.len() == old(map)@[i]@.len());
                if !(i == x as int && j == y as int) {
                    assert(map@[i]@[j] == prev[i]@[j]);
                }
            }
        }
        x = x + 1;
    }
}

/// Carve a vertical tunnel at column `x` between the two rows,
/// inclusive on both ends.
pub fn create_v_tunnel(y1: i32, y2: i32, x: i32, map: &mut TileMap)
    requires
        map_wf(old(map)@),
        in_map(x as int, y1 as int),
        in_map(x as int, y2 as int),
    ensures
        map_wf(final(map)@),
        v_tunnel_carved(old(map)@, final(map)@, y1 as int, y2 as int, x as int),
{
    let lo = if y1 < y2 {
        y1
    } else {
        y2
    };
    let hi = if y1 < y2 {
        y2
    } else {
        y1
    };
    let mut y = lo;
    while y < hi + 1
        invariant
            map_wf(map@),
            map_wf(old(map)@),
            lo <= y <= hi + 1,
            lo == vstd::math::min(y1 as int, y2 as int),
            hi == vstd::math::max(y1 as int, y2 as int),
            in_map(x as int, lo as int),
            in_map(x as int, hi as int),
            map@.len() == old(map)@.len(),
            forall|i: int, j: int|
                0 <= i < map@.len() && 0 <= j < (#[trigger] old(map)@[i])@.len() ==> (
                #[trigger] map@[i]@[j]) == (if i == x as int && lo <= j < y {
                    Tile { blocked: false, block_sight: false, explored: false }
                } else {
                    old(map)@[i]@[j]
                }),
        decreases hi + 1 - y,
    {
        let ghost prev = map@;
        set_tile_empty(map, x, y);
        proof {
            assert forall|i: int, j: int|
                0 <= i < map@.len() && 0 <= j < (#[trigger] old(map)@[i])@.len() implies (
            #[trigger] map@[i]@[j]) == (if i == x as int && lo <= j < y + 1 {
                Tile { blocked: false, block_sight: false, explored: false }
            } else {
                old(map)@[i]@[j]
            }) by {
                assert(prev[i]@.len() == old(map)@[i]@.len());
                if !(i == x as int && j == y as int) {
                    assert(map@[i]@[j] == prev[i]@[j]);
                }
            }
        }
        y = y + 1;
    }
}

/// Carving a room only clears tiles.
proof fn lemma_room_carved_only_carves(a: Seq<Vec<Tile>>, b: Seq<Vec<Tile>>, room: Rect)
    requires
        room_carved(a, b, room),
    ensures
        only_carves(a, b),
{
    assert forall|x: int, y: int|
        0 <= x < a.len() && 0 <= y < a[x]@.len() && (#[trigger] b[x]@[y]).blocked implies a[x]@[y].blocked by {}
}

/// Carving a horizontal tunnel only clears tiles.
proof fn lemma_h_tunnel_only_carves(a: Seq<Vec<Tile>>, b: Seq<Vec<Tile>>, x1: int, x2: int, y: int)
    requires
        h_tunnel_carved(a, b, x1, x2, y),
    ensures
        only_carves(a, b),
{
    assert forall|x: int, yy: int|
        0 <= x < a.len() && 0 <= yy < a[x]@.len() && (#[trigger] b[x]@[yy]).blocked implies a[x]@[yy].blocked by {}
}

/// Carving a vertical tunnel only clears tiles.
proof fn lemma_v_tunnel_only_carves(a: Seq<Vec<Tile>>, b: Seq<Vec<Tile>>, y1: int, y2: int, x: int)
    requires
        v_tunnel_carved(a, b, y1, y2, x),
    ensures
        only_carves(a, b),
{
    assert forall|xx: int, yy: int|
        0 <= xx < a.len() && 0 <= yy < a[xx]@.len() && (#[trigger] b[xx]@[yy]).blocked implies a[xx]@[yy].blocked by {}
}

/// Two carving steps in a row still only clear tiles.
proof fn lemma_only_carves_trans(a: Seq<Vec<Tile>>, b: Seq<Vec<Tile>>, c: Seq<Vec<Tile>>)
    requires
        map_wf(a),
        map_wf(b),
        only_carves(a, b),
        only_carves(b, c),
    ensures
        only_carves(a, c),
{
    assert forall|x: int, y: int|
        0 <= x < a.len() && 0 <= y < a[x]@.len() && (#[trigger] c[x]@[y]).blocked implies a[x]@[y].blocked by {
        assert(b[x]@[y].blocked ==> a[x]@[y].blocked);
    }
}

/// A freshly carved horizontal tunnel is all floor.
proof fn lemma_h_tunnel_floor(a: Seq<Vec<Tile>>, b: Seq<Vec<Tile>>, x1: int, x2: int, y: int)
    requires
        map_wf(a),
        h_tunnel_carved(a, b, x1, x2, y),
        in_map(x1, y),
        in_map(x2, y),
    ensures
        h_floor(b, x1, x2, y),
{
    assert forall|i: int|
        vstd::math::min(x1, x2) <= i <= vstd::math::max(x1, x2) implies !(#[trigger] b[i]@[y]).blocked by {
        assert(0 <= i < a.len() && 0 <= y < a[i]@.len());
    }
}

/// A freshly carved vertical tunnel is all floor.
proof fn lemma_v_tunnel_floor(a: Seq<Vec<Tile>>, b: Seq<Vec<Tile>>, y1: int, y2: int, x: int)
    requires
        map_wf(a),
        v_tunnel_carved(a, b, y1, y2, x),
        in_map(x, y1),
        in_map(x, y2),
    ensures
        v_floor(b, y1, y2, x),
{
    assert forall|j: int|
        vstd::math::min(y1, y2) <= j <= vstd::math::max(y1, y2) implies !(#[trigger] b[x]@[j]).blocked by {
        assert(0 <= x < a.len() && 0 <= j < a[x]@.len());
    }
}

/// A freshly carved room interior is all floor.
proof fn lemma_room_carved_floor(a: Seq<Vec<Tile>>, b: Seq<Vec<Tile>>, room: Rect)
    requires
        map_wf(a),
        room_carved(a, b, room),
        room_in_bounds(room),
    ensures
        room_floor(b, room),
{
    assert forall|x: int, y: int|
        room.x1 < x < room.x2 && room.y1 < y < room.y2 implies !(#[trigger] b[x]@[y]).blocked by {
        assert(0 <= x < a.len() && 0 <= y < a[x]@.len());
    }
}

/// Every tile strictly inside the room's rim is floor.
pub open spec fn room_floor(m: Seq<Vec<Tile>>, r: Rect) -> bool {
    forall|x: int, y: int| r.x1 < x < r.x2 && r.y1 < y < r.y2 ==> !(#[trigger] m[x]@[y]).blocked
}

/// The horizontal run at row `y` between the two columns, inclusive,
/// lies on the grid and is all floor.
pub open spec fn h_floor(m: Seq<Vec<Tile>>, x1: int, x2: int, y: int) -> bool {
    &&& in_map(x1, y)
    &&& in_map(x2, y)
    &&& forall|i: int|
        vstd::math::min(x1, x2) <= i <= vstd::math::max(x1, x2) ==> !(#[trigger] m[i]@[y]).blocked
}

/// The vertical run at column `x` between the two rows, inclusive,
/// lies on the grid and is all floor.
pub open spec fn v_floor(m: Seq<Vec<Tile>>, y1: int, y2: int, x: int) -> bool {
    &&& in_map(x, y1)
    &&& in_map(x, y2)
    &&& forall|j: int|
        vstd::math::min(y1, y2) <= j <= vstd::math::max(y1, y2) ==> !(#[trigger] m[x]@[j]).blocked
}

/// The two points are joined by an L-shaped corridor of floor tiles,
/// bending in one of the two possible orders.
pub open spec fn l_connected(m: Seq<Vec<Tile>>, ax: int, ay: int, bx: int, by: int) -> bool {
    ||| h_floor(m, ax, bx, ay) && v_floor(m, ay, by, bx)
    ||| v_floor(m, ay, by, ax) && h_floor(m, ax, bx, by)
}

/// Carving only clears tiles: a floor tile of `a` is still floor in
/// `b`.
pub open spec fn only_carves(a: Seq<Vec<Tile>>, b: Seq<Vec<Tile>>) -> bool {
    &&& b.len() == a.len()
    &&& forall|x: int, y: int|
        0 <= x < a.len() && 0 <= y < a[x]@.len() ==> ((#[trigger] b[x]@[y]).blocked
            ==> a[x]@[y].blocked)
}

/// Floor-only facts survive further carving.
proof fn lemma_floor_persists(a: Seq<Vec<Tile>>, b: Seq<Vec<Tile>>, rooms: Seq<Rect>)
    requires
        map_wf(a),
        only_carves(a, b),
        forall|k: int| 0 <= k < rooms.len() ==> room_in_bounds(#[trigger] rooms[k]),
    ensures
        forall|k: int|
            0 <= k < rooms.len() && room_floor(a, #[trigger] rooms[k]) ==> room_floor(b, rooms[k]),
        forall|x1: int, x2: int, y: int| h_floor(a, x1, x2, y) ==> #[trigger] h_floor(b, x1, x2, y),
        forall|y1: int, y2: int, x: int| v_floor(a, y1, y2, x) ==> #[trigger] v_floor(b, y1, y2, x),
{
    assert forall|k: int|
        0 <= k < rooms.len() && room_floor(a, #[trigger] rooms[k]) implies room_floor(
        b,
        rooms[k],
    ) by {
        let r = rooms[k];
        assert forall|x: int, y: int| r.x1 < x < r.x2 && r.y1 < y < r.y2 implies !(
        #[trigger] b[x]@[y]).blocked by {
            assert(!a[x]@[y].blocked);
        }
    }
    assert forall|x1: int, x2: int, y: int| h_floor(a, x1, x2, y) implies #[trigger] h_floor(
        b,
        x1,
        x2,
        y,
    ) by {
        assert forall|i: int|
            vstd::math::min(x1, x2) <= i <= vstd::math::max(x1, x2) implies !(
        #[trigger] b[i]@[y]).blocked by {
            assert(!a[i]@[y].blocked);
        }
    }
    assert forall|y1: int, y2: int, x: int| v_floor(a, y1, y2, x) implies #[trigger] v_floor(
        b,
        y1,
        y2,
        x,
    ) by {
        assert forall|j: int|
            vstd::math::min(y1, y2) <= j <= vstd::math::max(y1, y2) implies !(
        #[trigger] b[x]@[j]).blocked by {
            assert(!a[x]@[j].blocked);
        }
    }
}

/// A freshly spawned entity: a living monster or a pickupable item,
/// standing strictly inside the grid's border, at creation level.
pub open spec fn spawned_entity(o: Object) -> bool {
    &&& o.level == 1
    &&& in_map_interior(o.x as int, o.y as int)
    &&& (o.blocks && o.alive && o.fighter is Some && o.ai is Some && o.item is None
        && o.equipment is None) || (!o.blocks && !o.alive && o.fighter is None && o.ai is None
        && o.item is Some)
}

/// The stairs marker: inert, never blocking, exempt from fog of war.
pub open spec fn stairs_entity(o: Object) -> bool {
    &&& o.name@ == "stairs"@
    &&& o.always_visible
    &&& !o.blocks
    &&& !o.alive
    &&& o.fighter is None
    &&& o.ai is None
    &&& o.item is None
    &&& o.equipment is None
}

/// An entity freshly spawned by room population: a living monster or
/// a pickupable item, standing inside the given room.
pub open spec fn spawned_in_room(o: Object, room: Rect) -> bool {
    &&& room.x1 < o.x < room.x2
    &&& room.y1 < o.y < room.y2
    &&& o.level == 1
    &&& (o.blocks && o.alive && o.fighter is Some && o.ai is Some && o.item is None
        && o.equipment is None) || (!o.blocks && !o.alive && o.fighter is None && o.ai is None
        && o.item is Some)
}

/// What room population guarantees of each appended entity beyond
/// its shape and position: the tile it was placed on is a floor tile,
/// no blocking entity placed or present earlier stands on it, and its
/// kind has a positive weight in that depth's spawn table.
pub open spec fn spawn_placed_ok(objects: Seq<Object>, k: int, map: Seq<Vec<Tile>>, level: u32) -> bool {
    let o = objects[k];
    &&& !map[o.x as int]@[o.y as int].blocked
    &&& (o.blocks ==> forall|k2: int|
        0 <= k2 < k ==> !((#[trigger] objects[k2]).blocks && objects[k2].x == o.x && objects[k2].y
            == o.y))
    &&& (o.fighter is Some ==> o.fighter == Some(crate::monsters::orc_fighter()) || (o.fighter
        == Some(crate::monsters::troll_fighter()) && crate::monsters::spec_monster_weight(
        level,
        crate::monsters::Monster::Troll,
    ) > 0))
    &&& (o.item matches Some(kind) ==> crate::items::spec_item_weight(level, kind) > 0)
}

/// Populate a freshly carved room: a depth-scaled number of monsters
/// and items, each of a weighted-random kind, each at a random
/// interior position that is not already blocked; a draw that lands
/// on a blocked position is dropped, not retried.
pub fn place_objects(room: Rect, objects: &mut Vec<Object>, map: &TileMap, level: u32)
    requires
        map_wf(map@),
        room_in_bounds(room),
        room.x1 + 1 < room.x2,
        room.y1 + 1 < room.y2,
    ensures
        final(objects)@.len() >= old(objects)@.len(),
        final(objects)@.subrange(0, old(objects)@.len() as int) == old(objects)@,
        forall|k: int|
            old(objects)@.len() <= k < final(objects)@.len() ==> spawned_in_room(
                #[trigger] final(objects)@[k],
                room,
            ),
        forall|k: int|
            old(objects)@.len() <= k < final(objects)@.len() ==> #[trigger] spawn_placed_ok(
                final(objects)@,
                k,
                map@,
                level,
            ),
{
    let ghost base: Seq<Object> = objects@;
    let monster_thresholds: Vec<Transition> = vec![
        Transition { level: 1, value: 2 },
        Transition { level: 4, value: 3 },
        Transition { level: 6, value: 5 },
    ];
    let max_monsters = from_dungeon_level(monster_thresholds.as_slice(), level);
    proof {
        assert(crate::util::table_sorted(monster_thresholds@));
        crate::util::lemma_threshold_value_bound(monster_thresholds@, level);
        assert(monster_thresholds@.last() == monster_thresholds@[2]);
    }
    let num_monsters = rand_range_i32(0, max_monsters as i32 + 1);
    let monster_table = crate::monsters::monster_table_for_level(level);
    proof {
        assert(crate::util::table_sorted(crate::monsters::troll_chance_table()));
        crate::util::lemma_threshold_value_bound(crate::monsters::troll_chance_table(), level);
        assert(crate::monsters::troll_chance_table().last()
            == crate::monsters::troll_chance_table()[2]);
        assert(monster_table@.drop_first() =~= seq![
            Weighted {
                weight: crate::util::spec_from_dungeon_level(
                    crate::monsters::troll_chance_table(),
                    level,
                ),
                item: crate::monsters::Monster::Troll,
            },
        ]);
        assert(monster_table@.drop_first().drop_first()
            =~= Seq::<Weighted<crate::monsters::Monster>>::empty());
        assert(spec_total_weight(Seq::<Weighted<crate::monsters::Monster>>::empty()) == 0);
        assert(spec_total_weight(monster_table@.drop_first())
            == monster_table@.drop_first().first().weight + spec_total_weight(
            monster_table@.drop_first().drop_first(),
        ));
        assert(spec_total_weight(monster_table@) == 80 + crate::util::spec_from_dungeon_level(
            crate::monsters::troll_chance_table(),
            level,
        ));
    }

    let mut placed: i32 = 0;
    while placed < num_monsters
        invariant
            map_wf(map@),
            room_in_bounds(room),
            room.x1 + 1 < room.x2,
            room.y1 + 1 < room.y2,
            0 < spec_total_weight(monster_table@) <= i32::MAX as int,
            monster_table@ =~= seq![
                Weighted { weight: 80u32, item: crate::monsters::Monster::Orc },
                Weighted {
                    weight: crate::util::spec_from_dungeon_level(
                        crate::monsters::troll_chance_table(),
                        level,
                    ),
                    item: crate::monsters::Monster::Troll,
                },
            ],
            objects@.len() >= base.len(),
            objects@.subrange(0, base.len() as int) == base,
            forall|k: int|
                base.len() <= k < objects@.len() ==> spawned_in_room(#[trigger] objects@[k], room),
            forall|k: int|
                base.len() <= k < objects@.len() ==> #[trigger] spawn_placed_ok(
                    objects@,
                    k,
                    map@,
                    level,
                ),
        decreases num_monsters - placed,
    {
        let x = rand_range_i32(room.x1 + 1, room.x2);
        let y = rand_range_i32(room.y1 + 1, room.y2);

        if !is_blocked(x, y, map, objects.as_slice()) {
            let ghost before = objects@;
            let kind = weighted_draw(&monster_table);
            let monster = make_monster(x, y, kind);
            objects.push(monster);
            proof {
                assert(objects@.subrange(0, base.len() as int) =~= base);
                if kind is Troll {
                    let kk = choose|kk: int|
                        0 <= kk < monster_table@.len() && (#[trigger] monster_table@[kk]).item
                            == kind && monster_table@[kk].weight > 0;
                    assert(monster_table@[1].weight == crate::util::spec_from_dungeon_level(
                        crate::monsters::troll_chance_table(),
                        level,
                    ));
                    assert(kk == 1);
                }
                assert forall|k: int|
                    base.len() <= k < objects@.len() implies #[trigger] spawn_placed_ok(
                    objects@,
                    k,
                    map@,
                    level,
                ) by {
                    if k < before.len() {
                        assert(objects@[k] == before[k]);
                        assert(spawn_placed_ok(before, k, map@, level));
                        assert forall|k2: int|
                            0 <= k2 < k implies #[trigger] objects@[k2] == before[k2] by {}
                    } else {
                        assert(objects@[k] == monster);
                        assert(!spec_is_blocked(x as int, y as int, map@, before));
                        assert forall|k2: int|
                            0 <= k2 < k implies !((#[trigger] objects@[k2]).blocks
                            && objects@[k2].x == monster.x && objects@[k2].y == monster.y) by {
                            assert(objects@[k2] == before[k2]);
                        }
                    }
                }
            }
        }
        placed = placed + 1;
    }

    let item_thresholds: Vec<Transition> = vec![
        Transition { level: 1, value: 1 },
        Transition { level: 4, value: 2 },
    ];
    let max_items = from_dungeon_level(item_thresholds.as_slice(), level);
    proof {
        assert(crate::util::table_sorted(item_thresholds@));
        crate::util::lemma_threshold_value_bound(item_thresholds@, level);
        assert(item_thresholds@.last() == item_thresholds@[1]);
    }
    let num_items = rand_range_i32(0, max_items as i32 + 1);

    let mut placed_items: i32 = 0;
    while placed_items < num_items
        invariant
            map_wf(map@),
            room_in_bounds(room),
            room.x1 + 1 < room.x2,
            room.y1 + 1 < room.y2,
            objects@.len() >= base.len(),
            objects@.subrange(0, base.len() as int) == base,
            forall|k: int|
                base.len() <= k < objects@.len() ==> spawned_in_room(#[trigger] objects@[k], room),
            forall|k: int|
                base.len() <= k < objects@.len() ==> #[trigger] spawn_placed_ok(
                    objects@,
                    k,
                    map@,
                    level,
                ),
        decreases num_items - placed_items,
    {
        let x = rand_range_i32(room.x1 + 1, room.x2);
        let y = rand_range_i32(room.y1 + 1, room.y2);

        let item_table = crate::items::item_table_for_level(level);
        proof {
            lemma_item_table_weight_bounds(item_table@, level);
        }

        if !is_blocked(x, y, map, objects.as_slice()) {
            let ghost before = objects@;
            let kind = weighted_draw(&item_table);
            let item = make_item(x, y, kind);
            objects.push(item);
            proof {
                assert(objects@.subrange(0, base.len() as int) =~= base);
                let kk = choose|kk: int|
                    0 <= kk < item_table@.len() && (#[trigger] item_table@[kk]).item == kind
                        && item_table@[kk].weight > 0;
                crate::items::lemma_item_table_weights(level);
                assert(crate::items::item_spawn_table(level)[kk].weight
                    == crate::items::spec_item_weight(
                    level,
                    crate::items::item_spawn_table(level)[kk].item,
                ));
                assert(crate::items::spec_item_weight(level, kind) > 0);
                assert forall|k: int|
                    base.len() <= k < objects@.len() implies #[trigger] spawn_placed_ok(
                    objects@,
                    k,
                    map@,
                    level,
                ) by {
                    if k < before.len() {
                        assert(objects@[k] == before[k]);
                        assert(spawn_placed_ok(before, k, map@, level));
                        assert forall|k2: int|
                            0 <= k2 < k implies #[trigger] objects@[k2] == before[k2] by {}
                    } else {
                        assert(objects@[k] == item);
                        assert(!spec_is_blocked(x as int, y as int, map@, before));
                    }
                }
            }
        }
        placed_items = placed_items + 1;
    }
}

/// The one fatal configuration error: a generated map accepted no
/// rooms, leaving nowhere to put the player or the stairs.
#[derive(Clone, Copy, Debug, PartialEq, Eq, Structural)]
pub enum MapGenError {
    NoRoomsAccepted,
}

/// A room at least as large as the configured minimum.
pub open spec fn room_min_sized(r: Rect) -> bool {
    &&& r.x2 - r.x1 >= ROOM_MIN_SIZE as int
    &&& r.y2 - r.y1 >= ROOM_MIN_SIZE as int
}

pub open spec fn spec_center_x(r: Rect) -> int {
    (r.x1 + r.x2) / 2
}

pub open spec fn spec_center_y(r: Rect) -> int {
    (r.y1 + r.y2) / 2
}

/// The center of an in-bounds room of at least the minimum size lies
/// strictly inside the room's rim, hence strictly inside the grid's
/// border.
pub proof fn lemma_center_interior(r: Rect)
    requires
        room_in_bounds(r),
        room_min_sized(r),
    ensures
        r.x1 < spec_center_x(r) < r.x2,
        r.y1 < spec_center_y(r) < r.y2,
        in_map_interior(spec_center_x(r), spec_center_y(r)),
{
    assert(r.x1 < (r.x1 + r.x2) / 2 < r.x2) by (nonlinear_arith)
        requires
            r.x1 + 2 <= r.x2,
    ;
    assert(r.y1 < (r.y1 + r.y2) / 2 < r.y2) by (nonlinear_arith)
        requires
            r.y1 + 2 <= r.y2,
    ;
}

/// Build a fresh dungeon: start from solid wall, attempt `MAX_ROOMS`
/// random candidate rooms, reject every candidate that overlaps an
/// accepted room, carve and populate the accepted ones, connect each
/// to its predecessor by an L-shaped tunnel, seat the player at the
/// first room's center and the stairs at the last room's center. No
/// two returned rooms overlap. With the fixed configuration the first
/// candidate is always accepted, so generation always succeeds; the
/// zero-rooms case stays an explicit fatal error rather than a silent
/// one.
#[verifier::rlimit(60)]
pub fn make_map(objects: &mut Vec<Object>, level: u32) -> (r: Result<(TileMap, Vec<Rect>), MapGenError>)
    requires
        old(objects)@.len() >= 1,
    ensures
        r is Ok,
        r matches Ok(p) ==> ({
            &&& map_wf(p.0@)
            &&& map_closed(p.0@)
            &&& p.1@.len() >= 1
            &&& rooms_disjoint(p.1@)
            &&& forall|k: int|
                0 <= k < p.1@.len() ==> room_in_bounds(#[trigger] p.1@[k]) && room_min_sized(
                    p.1@[k],
                )
            &&& forall|k: int| 0 <= k < p.1@.len() ==> room_floor(p.0@, #[trigger] p.1@[k])
            &&& forall|j: int|
                1 <= j < p.1@.len() ==> l_connected(
                    p.0@,
                    spec_center_x(p.1@[j - 1]),
                    spec_center_y(p.1@[j - 1]),
                    spec_center_x(#[trigger] p.1@[j]),
                    spec_center_y(p.1@[j]),
                )
            &&& final(objects)@.len() >= 2
            &&& final(objects)@[0] == (Object {
                x: spec_center_x(p.1@[0]) as i32,
                y: spec_center_y(p.1@[0]) as i32,
                ..old(objects)@[0]
            })
            &&& ({
                let stairs = final(objects)@.last();
                &&& stairs_entity(stairs)
                &&& stairs.x == spec_center_x(p.1@.last()) as i32
                &&& stairs.y == spec_center_y(p.1@.last()) as i32
            })
            &&& forall|k: int|
                1 <= k < final(objects)@.len() - 1 ==> exists|j: int|
                    0 <= j < p.1@.len() && spawned_in_room(#[trigger] final(objects)@[k], p.1@[j])
            &&& forall|k: int|
                1 <= k < final(objects)@.len() ==> in_map_interior(
                    (#[trigger] final(objects)@[k]).x as int,
                    final(objects)@[k].y as int,
                )
        }),
{
    let mut map: TileMap = Vec::new();
    while map.len() < MAP_WIDTH as usize
        invariant
            map@.len() <= MAP_WIDTH as int,
            forall|i: int|
                0 <= i < map@.len() ==> (#[trigger] map@[i])@.len() == MAP_HEIGHT as int,
            forall|i: int, j: int|
                0 <= i < map@.len() && 0 <= j < map@[i]@.len() ==> (#[trigger] map@[i]@[j]) == (
                Tile { blocked: true, block_sight: true, explored: false }),
        decreases MAP_WIDTH as int - map@.len(),
    {
        let mut column: Vec<Tile> = Vec::new();
        while column.len() < MAP_HEIGHT as usize
            invariant
                column@.len() <= MAP_HEIGHT as int,
                forall|j: int|
                    0 <= j < column@.len() ==> column@[j] == (Tile {
                        blocked: true,
                        block_sight: true,
                        explored: false,
                    }),
            decreases MAP_HEIGHT as int - column@.len(),
        {
            column.push(Tile::wall());
        }
        map.push(column);
    }

    // The previous level's entities are discarded wholesale; only the
    // player carries over.
    objects.truncate(1);
    let ghost player0: Object = objects@[0];

    let mut rooms: Vec<Rect> = Vec::new();

    let mut attempt: i32 = 0;
    while attempt < MAX_ROOMS
        invariant
            map_wf(map@),
            map_closed(map@),
            rooms_disjoint(rooms@),
            attempt > 0 ==> rooms@.len() >= 1,
            forall|k: int|
                0 <= k < rooms@.len() ==> room_in_bounds(#[trigger] rooms@[k]) && room_min_sized(
                    rooms@[k],
                ),
            forall|k: int| 0 <= k < rooms@.len() ==> room_floor(map@, #[trigger] rooms@[k]),
            forall|j: int|
                1 <= j < rooms@.len() ==> l_connected(
                    map@,
                    spec_center_x(rooms@[j - 1]),
                    spec_center_y(rooms@[j - 1]),
                    spec_center_x(#[trigger] rooms@[j]),
                    spec_center_y(rooms@[j]),
                ),
            objects@.len() >= 1,
            old(objects)@.len() >= 1,
            player0 == old(objects)@[0],
            rooms@.len() == 0 ==> objects@ == old(objects)@.subrange(0, 1),
            rooms@.len() > 0 ==> objects@[0] == (Object {
                x: spec_center_x(rooms@[0]) as i32,
                y: spec_center_y(rooms@[0]) as i32,
                ..player0
            }),
            forall|k: int|
                1 <= k < objects@.len() ==> exists|j: int|
                    0 <= j < rooms@.len() && spawned_in_room(#[trigger] objects@[k], rooms@[j]),
            forall|k: int|
                1 <= k < objects@.len() ==> in_map_interior(
                    (#[trigger] objects@[k]).x as int,
                    objects@[k].y as int,
                ),
        decreases MAX_ROOMS - attempt,
    {
        let w = rand_range_i32(ROOM_MIN_SIZE, ROOM_MAX_SIZE + 1);
        let h = rand_range_i32(ROOM_MIN_SIZE, ROOM_MAX_SIZE + 1);
        let x = rand_range_i32(0, MAP_WIDTH - w);
        let y = rand_range_i32(0, MAP_HEIGHT - h);

        let new_room = Rect::new(x, y, w, h);

        let mut failed = false;
        let mut i: usize = 0;
        let room_count = rooms.len();
        while i < room_count && !failed
            invariant
                i <= room_count,
                room_count == rooms@.len(),
                !failed ==> forall|j: int|
                    0 <= j < i ==> !spec_intersects(new_room, #[trigger] rooms@[j]),
                failed ==> exists|j: int|
                    0 <= j < rooms@.len() && spec_intersects(new_room, #[trigger] rooms@[j]),
            decreases room_count - i,
        {
            let other = rooms[i];
            if new_room.intersects_with(&other) {
                failed = true;
            }
            i = i + 1;
        }

        if !failed {
            let ghost before_carve = map@;
            create_room(new_room, &mut map);
            proof {
                assert forall|bx: int, by: int|
                    in_map(bx, by) && !in_map_interior(bx, by) implies (
                #[trigger] map@[bx]@[by]).blocked by {
                    assert(map@[bx]@[by] == before_carve[bx]@[by]);
                }
                lemma_room_carved_only_carves(before_carve, map@, new_room);
                lemma_floor_persists(before_carve, map@, rooms@);
                lemma_room_carved_floor(before_carve, map@, new_room);
                assert forall|j: int|
                    1 <= j < rooms@.len() implies l_connected(
                    map@,
                    spec_center_x(rooms@[j - 1]),
                    spec_center_y(rooms@[j - 1]),
                    spec_center_x(#[trigger] rooms@[j]),
                    spec_center_y(rooms@[j]),
                ) by {
                    assert(l_connected(
                        before_carve,
                        spec_center_x(rooms@[j - 1]),
                        spec_center_y(rooms@[j - 1]),
                        spec_center_x(rooms@[j]),
                        spec_center_y(rooms@[j]),
                    ));
                }
            }

            let ghost before_place = objects@;
            place_objects(new_room, objects, &map, level);
            proof {
                assert forall|k: int| 0 <= k < before_place.len() implies #[trigger] objects@[k]
                    == before_place[k] by {
                    assert(objects@.subrange(0, before_place.len() as int)[k] == objects@[k]);
                }
                assert forall|k: int| 1 <= k < objects@.len() implies in_map_interior(
                    (#[trigger] objects@[k]).x as int,
                    objects@[k].y as int,
                ) by {
                    if k >= before_place.len() {
                        assert(spawned_in_room(objects@[k], new_room));
                    }
                }
            }

            let (new_x, new_y) = new_room.center();
            proof {
                lemma_center_interior(new_room);
            }

            if room_count > 0 {
                let prev_room = rooms[room_count - 1];
                let (prev_x, prev_y) = prev_room.center();
                proof {
                    lemma_center_interior(prev_room);
                }

                let ghost before_tunnels = map@;
                let ghost all_rooms = rooms@.push(new_room);
                proof {
                    assert forall|k: int| 0 <= k < all_rooms.len() implies room_in_bounds(
                        #[trigger] all_rooms[k],
                    ) && room_floor(before_tunnels, all_rooms[k]) by {
                        if k < rooms@.len() {
                            assert(all_rooms[k] == rooms@[k]);
                        } else {
                            assert(all_rooms[k] == new_room);
                        }
                    }
                }
                if rand_bool() {
                    create_h_tunnel(prev_x, new_x, prev_y, &mut map);
                    let ghost mid = map@;
                    create_v_tunnel(prev_y, new_y, new_x, &mut map);
                    proof {
                        assert forall|bx: int, by: int|
                            in_map(bx, by) && !in_map_interior(bx, by) implies (
                        #[trigger] map@[bx]@[by]).blocked by {
                            assert(mid[bx]@[by] == before_tunnels[bx]@[by]);
                            assert(map@[bx]@[by] == mid[bx]@[by]);
                        }
                        lemma_h_tunnel_only_carves(
                            before_tunnels,
                            mid,
                            prev_x as int,
                            new_x as int,
                            prev_y as int,
                        );
                        lemma_v_tunnel_only_carves(
                            mid,
                            map@,
                            prev_y as int,
                            new_y as int,
                            new_x as int,
                        );
                        lemma_only_carves_trans(before_tunnels, mid, map@);
                        lemma_floor_persists(before_tunnels, map@, all_rooms);
                        lemma_h_tunnel_floor(
                            before_tunnels,
                            mid,
                            prev_x as int,
                            new_x as int,
                            prev_y as int,
                        );
                        lemma_floor_persists(mid, map@, all_rooms);
                        lemma_v_tunnel_floor(
                            mid,
                            map@,
                            prev_y as int,
                            new_y as int,
                            new_x as int,
                        );
                        assert(l_connected(
                            map@,
                            prev_x as int,
                            prev_y as int,
                            new_x as int,
                            new_y as int,
                        ));
                    }
                } else {
                    create_v_tunnel(prev_y, new_y, prev_x, &mut map);
                    let ghost mid = map@;
                    create_h_tunnel(prev_x, new_x, new_y, &mut map);
                    proof {
                        assert forall|bx: int, by: int|
                            in_map(bx, by) && !in_map_interior(bx, by) implies (
                        #[trigger] map@[bx]@[by]).blocked by {
                            assert(mid[bx]@[by] == before_tunnels[bx]@[by]);
                            assert(map@[bx]@[by] == mid[bx]@[by]);
                        }
                        lemma_v_tunnel_only_carves(
                            before_tunnels,
                            mid,
                            prev_y as int,
                            new_y as int,
                            prev_x as int,
                        );
                        lemma_h_tunnel_only_carves(
                            mid,
                            map@,
                            prev_x as int,
                            new_x as int,
                            new_y as int,
                        );
                        lemma_only_carves_trans(before_tunnels, mid, map@);
                        lemma_floor_persists(before_tunnels, map@, all_rooms);
                        lemma_v_tunnel_floor(
                            before_tunnels,
                            mid,
                            prev_y as int,
                            new_y as int,
                            prev_x as int,
                        );
                        lemma_floor_persists(mid, map@, all_rooms);
                        lemma_h_tunnel_floor(
                            mid,
                            map@,
                            prev_x as int,
                            new_x as int,
                            new_y as int,
                        );
                        assert(l_connected(
                            map@,
                            prev_x as int,
                            prev_y as int,
                            new_x as int,
                            new_y as int,
                        ));
                    }
                }
                proof {
                    assert forall|j: int|
                        1 <= j < rooms@.len() implies l_connected(
                        map@,
                        spec_center_x(rooms@[j - 1]),
                        spec_center_y(rooms@[j - 1]),
                        spec_center_x(#[trigger] rooms@[j]),
                        spec_center_y(rooms@[j]),
                    ) by {
                        assert(l_connected(
                            before_tunnels,
                            spec_center_x(rooms@[j - 1]),
                            spec_center_y(rooms@[j - 1]),
                            spec_center_x(rooms@[j]),
                            spec_center_y(rooms@[j]),
                        ));
                    }
                    assert forall|k: int| 0 <= k < all_rooms.len() implies room_floor(
                        map@,
                        #[trigger] all_rooms[k],
                    ) by {}
                }
            } else {
                proof {
                    assert(objects@[0] == before_place[0]);
                    assert(before_place == old(objects)@.subrange(0, 1));
                    assert(before_place[0] == old(objects)@.subrange(0, 1)[0]);
                    assert(old(objects)@.subrange(0, 1)[0] == old(objects)@[0]);
                    assert(before_place[0] == player0);
                }
                let player = &mut objects[0];
                player.set_pos(new_x, new_y);
                proof {
                    assert(objects@[0] == (Object {
                        x: spec_center_x(new_room) as i32,
                        y: spec_center_y(new_room) as i32,
                        ..player0
                    }));
                }
            }

            let ghost rooms_before = rooms@;
            rooms.push(new_room);
            proof {
                if rooms_before.len() > 0 {
                    assert(rooms@[0] == rooms_before[0]);
                } else {
                    assert(rooms@[0] == new_room);
                }
                assert forall|k: int| 0 <= k < rooms@.len() implies room_floor(
                    map@,
                    #[trigger] rooms@[k],
                ) && room_in_bounds(rooms@[k]) && room_min_sized(rooms@[k]) by {
                    if k < rooms_before.len() {
                        assert(rooms@[k] == rooms_before[k]);
                    } else {
                        assert(rooms@[k] == new_room);
                    }
                }
                assert forall|j: int|
                    1 <= j < rooms@.len() implies l_connected(
                    map@,
                    spec_center_x(rooms@[j - 1]),
                    spec_center_y(rooms@[j - 1]),
                    spec_center_x(#[trigger] rooms@[j]),
                    spec_center_y(rooms@[j]),
                ) by {
                    assert(rooms@[j - 1] == if j - 1 < rooms_before.len() as int {
                        rooms_before[j - 1]
                    } else {
                        new_room
                    });
                    if j < rooms_before.len() {
                        assert(rooms@[j] == rooms_before[j]);
                    } else {
                        assert(rooms@[j] == new_room);
                    }
                }
                assert forall|k: int| 1 <= k < objects@.len() implies exists|j: int|
                    0 <= j < rooms@.len() && spawned_in_room(
                        #[trigger] objects@[k],
                        rooms@[j],
                    ) by {
                    if k < before_place.len() {
                        let j0 = choose|j0: int|
                            0 <= j0 < rooms_before.len() && spawned_in_room(
                                before_place[k],
                                #[trigger] rooms_before[j0],
                            );
                        assert(rooms@[j0] == rooms_before[j0]);
                        assert(spawned_in_room(objects@[k], rooms@[j0]));
                    } else {
                        assert(rooms@[rooms_before.len() as int] == new_room);
                        assert(spawned_in_room(objects@[k], rooms@[rooms_before.len() as int]));
                    }
                }
            }
        }
        attempt = attempt + 1;
    }

    // With the fixed configuration the very first candidate room has
    // nothing to intersect and is always accepted, so generation
    // cannot end with zero rooms; the guard keeps the failure explicit
    // rather than silent.
    if rooms.len() == 0 {
        return Err(MapGenError::NoRoomsAccepted);
    }

    let last_room = rooms[rooms.len() - 1];
    let (stairs_x, stairs_y) = last_room.center();
    proof {
        lemma_center_interior(last_room);
    }
    let mut stairs = Object::new(stairs_x, stairs_y, '<', crate::colors::white(), "stairs", false);
    stairs.always_visible = true;
    let ghost before_stairs = objects@;
    objects.push(stairs);
    proof {
        assert forall|k: int| 1 <= k < objects@.len() - 1 implies exists|j: int|
            0 <= j < rooms@.len() && spawned_in_room(#[trigger] objects@[k], rooms@[j]) by {
            assert(objects@[k] == before_stairs[k]);
            let j0 = choose|j0: int|
                0 <= j0 < rooms@.len() && spawned_in_room(before_stairs[k], #[trigger] rooms@[j0]);
            assert(spawned_in_room(objects@[k], rooms@[j0]));
        }
    }

    Ok((map, rooms))
}

/// The item table's total weight is positive (healing potions are
/// always on it) and small.
proof fn lemma_item_table_weight_bounds(table: Seq<Weighted<crate::items::Item>>, level: u32)
    requires
        table =~= crate::items::item_spawn_table(level),
    ensures
        0 < spec_total_weight(table) <= i32::MAX as int,
{
    let t1 = seq![Transition { level: 4u32, value: 25u32 }];
    let t2 = seq![Transition { level: 6u32, value: 25u32 }];
    let t3 = seq![Transition { level: 2u32, value: 10u32 }];
    let t4 = seq![Transition { level: 4u32, value: 5u32 }];
    let t5 = seq![Transition { level: 8u32, value: 15u32 }];
    assert(crate::util::table_sorted(t1));
    assert(crate::util::table_sorted(t2));
    assert(crate::util::table_sorted(t3));
    assert(crate::util::table_sorted(t4));
    assert(crate::util::table_sorted(t5));
    crate::util::lemma_threshold_value_bound(t1, level);
    crate::util::lemma_threshold_value_bound(t2, level);
    crate::util::lemma_threshold_value_bound(t3, level);
    crate::util::lemma_threshold_value_bound(t4, level);
    crate::util::lemma_threshold_value_bound(t5, level);
    assert(spec_total_weight(table) == 35 + crate::util::spec_from_dungeon_level(t1, level)
        + crate::util::spec_from_dungeon_level(t2, level) + crate::util::spec_from_dungeon_level(
        t3,
        level,
    ) + crate::util::spec_from_dungeon_level(t4, level) + crate::util::spec_from_dungeon_level(
        t5,
        level,
    )) by {
        assert(table.drop_first() =~= table.subrange(1, 6));
        assert(table.subrange(1, 6).drop_first() =~= table.subrange(2, 6));
        assert(table.subrange(2, 6).drop_first() =~= table.subrange(3, 6));
        assert(table.subrange(3, 6).drop_first() =~= table.subrange(4, 6));
        assert(table.subrange(4, 6).drop_first() =~= table.subrange(5, 6));
        assert(table.subrange(5, 6).drop_first()
            =~= Seq::<Weighted<crate::items::Item>>::empty());
        assert(spec_total_weight(Seq::<Weighted<crate::items::Item>>::empty()) == 0);
        assert(spec_total_weight(table.subrange(5, 6)) == table.subrange(5, 6).first().weight
            + spec_total_weight(table.subrange(5, 6).drop_first()));
        assert(spec_total_weight(table.subrange(4, 6)) == table.subrange(4, 6).first().weight
            + spec_total_weight(table.subrange(4, 6).drop_first()));
        assert(spec_total_weight(table.subrange(3, 6)) == table.subrange(3, 6).first().weight
            + spec_total_weight(table.subrange(3, 6).drop_first()));
        assert(spec_total_weight(table.subrange(2, 6)) == table.subrange(2, 6).first().weight
            + spec_total_weight(table.subrange(2, 6).drop_first()));
        assert(spec_total_weight(table.subrange(1, 6)) == table.subrange(1, 6).first().weight
            + spec_total_weight(table.subrange(1, 6).drop_first()));
        assert(spec_total_weight(table) == table.first().weight + spec_total_weight(
            table.drop_first(),
        ));
    }
}

} // verus!
