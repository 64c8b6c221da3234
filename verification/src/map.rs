//! The tile grid: bounds, occupancy queries and the walker's adjacency.

use vstd::prelude::*;
use crate::utils::Point;

verus! {

pub const TILEMAP_WIDTH: i32 = 80;

pub const TILEMAP_HEIGHT: i32 = 50;

pub const CAMERA_OFFSET_X: i32 = 40;

pub const CAMERA_OFFSET_Y: i32 = 25;

/// Number of tiles of every map.
pub const NUM_TILES: usize = 4000;

#[derive(PartialEq, Eq, Structural, Clone, Copy, Debug)]
pub enum TileType {
    Wall,
    Floor,
    Exit,
}

/// Whether `p` lies on the grid.
pub open spec fn on_grid(p: Point) -> bool {
    &&& 0 <= p.x < TILEMAP_WIDTH
    &&& 0 <= p.y < TILEMAP_HEIGHT
}

/// The middle of the grid.
pub open spec fn grid_center() -> Point {
    Point { x: 40, y: 25 }
}

/// Row-major index of a point.
pub open spec fn index_of(p: Point) -> int {
    p.y * TILEMAP_WIDTH + p.x
}

/// The point that row-major index `idx` stands for. An index whose row
/// does not fit the coordinate type gets row 0.
pub open spec fn point_at(idx: int) -> Point {
    Point {
        x: (idx % (TILEMAP_WIDTH as int)) as i32,
        y: if idx / (TILEMAP_WIDTH as int) <= i32::MAX {
            (idx / (TILEMAP_WIDTH as int)) as i32
        } else {
            0
        },
    }
}

/// Whether tiles `a` and `b` share an edge on the grid.
pub open spec fn edge_neighbours(a: int, b: int) -> bool {
    &&& 0 <= a < NUM_TILES
    &&& 0 <= b < NUM_TILES
    &&& {
        ||| b == a - 1 && a % (TILEMAP_WIDTH as int) != 0
        ||| b == a + 1 && b % (TILEMAP_WIDTH as int) != 0
        ||| b == a - TILEMAP_WIDTH
        ||| b == a + TILEMAP_WIDTH
    }
}

/// How many of `tiles` are floor.
pub open spec fn count_floor(tiles: Seq<TileType>) -> nat
    decreases tiles.len(),
{
    if tiles.len() == 0 {
        0
    } else {
        count_floor(tiles.drop_last()) + if tiles.last() == TileType::Floor {
            1nat
        } else {
            0nat
        }
    }
}

/// Changing one tile changes the floor count by one at most, and turning
/// it into floor does not lower the count.
pub proof fn lemma_count_floor_update(tiles: Seq<TileType>, at: int, tile: TileType)
    requires
        0 <= at < tiles.len(),
    ensures
        count_floor(tiles.update(at, tile)) <= count_floor(tiles) + 1,
        count_floor(tiles) <= count_floor(tiles.update(at, tile)) + 1,
        tile == TileType::Floor ==> count_floor(tiles.update(at, tile)) >= count_floor(tiles),
        tile == TileType::Floor ==> count_floor(tiles.update(at, tile)) >= 1,
        tile == TileType::Floor && tiles[at] != TileType::Floor ==> count_floor(tiles.update(at, tile))
            == count_floor(tiles) + 1,
        tile == tiles[at] ==> count_floor(tiles.update(at, tile)) == count_floor(tiles),
    decreases tiles.len(),
{
    let changed = tiles.update(at, tile);
    if at == tiles.len() - 1 {
        assert(changed.drop_last() == tiles.drop_last());
    } else {
        assert(changed.drop_last() == tiles.drop_last().update(at, tile));
        lemma_count_floor_update(tiles.drop_last(), at, tile);
    }
}

/// A sequence without floor has a floor count of zero.
pub proof fn lemma_count_floor_none(tiles: Seq<TileType>)
    requires
        forall|i: int| 0 <= i < tiles.len() ==> tiles[i] != TileType::Floor,
    ensures
        count_floor(tiles) == 0,
    decreases tiles.len(),
{
    if tiles.len() > 0 {
        lemma_count_floor_none(tiles.drop_last());
    }
}

pub fn map_idx(x: i32, y: i32) -> (idx: usize)
    requires
        0 <= x < TILEMAP_WIDTH,
        0 <= y < TILEMAP_HEIGHT,
    ensures
        idx == index_of(Point { x, y }),
        idx < NUM_TILES,
{
    ((y * TILEMAP_WIDTH) + x) as usize
}

/// The middle of the grid: half the width, half the height.
pub fn center_point() -> (p: Point)
    ensures
        p == grid_center(),
        on_grid(p),
{
    Point::new(TILEMAP_WIDTH / 2, TILEMAP_HEIGHT / 2)
}

/// The grid of one dungeon level with its fog-of-war memory.
#[derive(Clone, Debug)]
pub struct MapSpec {
    pub tiles: Vec<TileType>,
    pub revealed_tiles: Vec<bool>,
}

impl MapSpec {
    /// Both arrays hold one entry per tile.
    pub open spec fn wf(&self) -> bool {
        &&& self.tiles@.len() == NUM_TILES
        &&& self.revealed_tiles@.len() == NUM_TILES
    }

    pub open spec fn is_floor(&self, idx: int) -> bool {
        0 <= idx < self.tiles@.len() && self.tiles@[idx] == TileType::Floor
    }

    /// Whether a walker may stand on `p`.
    pub open spec fn enterable(&self, p: Point) -> bool {
        on_grid(p) && self.is_floor(index_of(p))
    }

    /// Whether a walker on tile `from` may step onto tile `to`.
    pub open spec fn is_exit(&self, from: int, to: int) -> bool {
        edge_neighbours(from, to) && self.is_floor(to)
    }

    /// The tiles a walker on `idx` may step onto: west, east, north, south.
    pub open spec fn exits(&self, idx: int) -> Seq<usize> {
        let w = TILEMAP_WIDTH as int;
        let west = if self.is_exit(idx, idx - 1) { seq![(idx - 1) as usize] } else { seq![] };
        let east = if self.is_exit(idx, idx + 1) { seq![(idx + 1) as usize] } else { seq![] };
        let north = if self.is_exit(idx, idx - w) { seq![(idx - w) as usize] } else { seq![] };
        let south = if self.is_exit(idx, idx + w) { seq![(idx + w) as usize] } else { seq![] };
        west + east + north + south
    }

    /// The exits of a tile are the floor tiles that share an edge with it.
    pub proof fn lemma_exits_membership(&self, idx: int, to: usize)
        requires
            0 <= idx < NUM_TILES,
        ensures
            self.exits(idx).contains(to) <==> self.is_exit(idx, to as int),
            self.exits(idx).len() <= 4,
    {
        let w = TILEMAP_WIDTH as int;
        let west: Seq<usize> = if self.is_exit(idx, idx - 1) { seq![(idx - 1) as usize] } else { seq![] };
        let east: Seq<usize> = if self.is_exit(idx, idx + 1) { seq![(idx + 1) as usize] } else { seq![] };
        let north: Seq<usize> = if self.is_exit(idx, idx - w) { seq![(idx - w) as usize] } else { seq![] };
        let south: Seq<usize> = if self.is_exit(idx, idx + w) { seq![(idx + w) as usize] } else { seq![] };
        let all = west + east + north + south;
        assert(all == self.exits(idx));
        if self.is_exit(idx, to as int) {
            if to == idx - 1 {
                assert(all[0] == to);
            } else if to == idx + 1 {
                assert(all[west.len() as int] == to);
            } else if to == idx - w {
                assert(all[(west.len() + east.len()) as int] == to);
            } else {
                assert(all[(west.len() + east.len() + north.len()) as int] == to);
            }
        }
        if all.contains(to) {
            let i = choose|i: int| 0 <= i < all.len() && all[i] == to;
            if i < west.len() {
            } else if i < west.len() + east.len() {
            } else if i < west.len() + east.len() + north.len() {
            } else {
            }
        }
    }

    /// A map of floor tiles, none revealed.
    pub fn new() -> (m: MapSpec)
        ensures
            m.wf(),
            forall|i: int| 0 <= i < NUM_TILES ==> m.tiles@[i] == TileType::Floor,
            forall|i: int| 0 <= i < NUM_TILES ==> !m.revealed_tiles@[i],
    {
        MapSpec { tiles: vec![TileType::Floor; NUM_TILES], revealed_tiles: vec![false; NUM_TILES] }
    }

    /// Whether both arrays have the length that every other method relies on.
    pub fn is_valid(&self) -> (ok: bool)
        ensures
            ok == self.wf(),
    {
        self.tiles.len() == NUM_TILES && self.revealed_tiles.len() == NUM_TILES
    }

    pub fn dimensions(&self) -> (d: Point)
        ensures
            d.x == TILEMAP_WIDTH,
            d.y == TILEMAP_HEIGHT,
    {
        Point::new(TILEMAP_WIDTH, TILEMAP_HEIGHT)
    }

    pub fn in_bounds(&self, point: Point) -> (r: bool)
        ensures
            r == on_grid(point),
    {
        point.x >= 0 && point.x < TILEMAP_WIDTH && point.y >= 0 && point.y < TILEMAP_HEIGHT
    }

    pub fn point2d_to_index(&self, pt: Point) -> (idx: usize)
        requires
            on_grid(pt),
        ensures
            idx == index_of(pt),
            idx < NUM_TILES,
    {
        map_idx(pt.x, pt.y)
    }

    pub fn index_to_point2d(&self, idx: usize) -> (p: Point)
        ensures
            p == point_at(idx as int),
            idx < NUM_TILES ==> on_grid(p) && index_of(p) == idx,
    {
        let row: usize = idx / 80;
        Point::new((idx % 80) as i32, if row <= 0x7fff_ffff { row as i32 } else { 0 })
    }

    pub fn try_idx(&self, point: Point) -> (r: Option<usize>)
        ensures
            on_grid(point) ==> r == Some(index_of(point) as usize),
            !on_grid(point) ==> r.is_none(),
    {
        if !self.in_bounds(point) {
            None
        } else {
            Some(map_idx(point.x, point.y))
        }
    }

    /// Only floor tiles on the grid can be entered: never a wall, never a
    /// point off the grid.
    pub fn can_enter_tile(&self, point: Point) -> (r: bool)
        requires
            self.wf(),
        ensures
            r == self.enterable(point),
            !on_grid(point) ==> !r,
            on_grid(point) && self.tiles@[index_of(point)] == TileType::Wall ==> !r,
    {
        self.in_bounds(point) && self.tiles[map_idx(point.x, point.y)] == TileType::Floor
    }

    /// The index of `loc + delta` where a walker may enter it.
    pub fn valid_exit(&self, loc: Point, delta: Point) -> (r: Option<usize>)
        requires
            self.wf(),
            i32::MIN <= loc.x + delta.x <= i32::MAX,
            i32::MIN <= loc.y + delta.y <= i32::MAX,
        ensures
            ({
                let destination = Point { x: (loc.x + delta.x) as i32, y: (loc.y + delta.y) as i32 };
                if self.enterable(destination) {
                    r == Some(index_of(destination) as usize)
                } else {
                    r.is_none()
                }
            }),
    {
        let destination = loc + delta;
        if self.can_enter_tile(destination) {
            let idx = self.point2d_to_index(destination);
            Some(idx)
        } else {
            None
        }
    }

    /// Everything but floor blocks sight.
    pub fn is_opaque(&self, idx: usize) -> (r: bool)
        requires
            idx < self.tiles@.len(),
        ensures
            r == (self.tiles@[idx as int] != TileType::Floor),
    {
        self.tiles[idx] != TileType::Floor
    }

    /// The neighbours of `idx` that a walker may step onto, each at the cost
    /// of one step.
    pub fn get_available_exits(&self, idx: usize) -> (exits: Vec<usize>)
        requires
            self.wf(),
            idx < NUM_TILES,
        ensures
            exits@ == self.exits(idx as int),
            exits@.len() <= 4,
            forall|to: usize| exits@.contains(to) <==> self.is_exit(idx as int, to as int),
    {
        let mut exits: Vec<usize> = Vec::new();
        let location = self.index_to_point2d(idx);
        if let Some(to) = self.valid_exit(location, Point::new(-1, 0)) {
            exits.push(to);
        }
        if let Some(to) = self.valid_exit(location, Point::new(1, 0)) {
            exits.push(to);
        }
        if let Some(to) = self.valid_exit(location, Point::new(0, -1)) {
            exits.push(to);
        }
        if let Some(to) = self.valid_exit(location, Point::new(0, 1)) {
            exits.push(to);
        }
        proof {
            assert(exits@ =~= self.exits(idx as int));
            assert forall|to: usize| exits@.contains(to) <==> self.is_exit(idx as int, to as int) by {
                self.lemma_exits_membership(idx as int, to);
            }
        }
        exits
    }

    /// Counts the floor tiles.
    pub fn floor_count(&self) -> (n: usize)
        ensures
            n == count_floor(self.tiles@),
    {
        let mut n: usize = 0;
        let mut i: usize = 0;
        while i < self.tiles.len()
            invariant
                i <= self.tiles@.len(),
                n == count_floor(self.tiles@.take(i as int)),
                n <= i,
            decreases self.tiles@.len() - i,
        {
            proof {
                assert(self.tiles@.take(i + 1).drop_last() == self.tiles@.take(i as int));
            }
            if self.tiles[i] == TileType::Floor {
                n = n + 1;
            }
            i = i + 1;
        }
        proof {
            assert(self.tiles@.take(i as int) == self.tiles@);
        }
        n
    }

    /// Squared straight-line distance between two tiles.
    pub fn distance_squared(&self, idx1: usize, idx2: usize) -> (d: u32)
        requires
            idx1 < NUM_TILES,
            idx2 < NUM_TILES,
        ensures
            d == point_at(idx1 as int).dist_sq(point_at(idx2 as int)),
    {
        let a = self.index_to_point2d(idx1);
        let b = self.index_to_point2d(idx2);
        let dx: i32 = a.x - b.x;
        let dy: i32 = a.y - b.y;
        assert(dx * dx + dy * dy <= 80 * 80 + 50 * 50) by (nonlinear_arith)
            requires
                -80 < dx < 80,
                -50 < dy < 50,
        ;
        assert(0 <= dx * dx && 0 <= dy * dy) by (nonlinear_arith);
        (dx * dx + dy * dy) as u32
    }
}

/// Converting a point on the grid to its index and back gives the point.
pub proof fn lemma_point_index_round_trip(p: Point)
    requires
        on_grid(p),
    ensures
        0 <= index_of(p) < NUM_TILES,
        point_at(index_of(p)) == p,
{
}

/// Converting an index to its point and back gives the index.
pub proof fn lemma_index_point_round_trip(idx: int)
    requires
        0 <= idx < NUM_TILES,
    ensures
        on_grid(point_at(idx)),
        index_of(point_at(idx)) == idx,
{
}

/// Tiles share an edge exactly when their points are one step apart.
pub proof fn lemma_edge_neighbours_are_adjacent(a: int, b: int)
    requires
        0 <= a < NUM_TILES,
        0 <= b < NUM_TILES,
    ensures
        edge_neighbours(a, b) <==> point_at(a).adjacent(point_at(b)),
{
    let pa = point_at(a);
    let pb = point_at(b);
    let dx = pa.x - pb.x;
    let dy = pa.y - pb.y;
    assert(dx * dx + dy * dy == 1 <==> (dx == 0 && (dy == 1 || dy == -1)) || (dy == 0 && (dx == 1
        || dx == -1))) by (nonlinear_arith);
}

} // verus!
