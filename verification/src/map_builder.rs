//! Level generation: the blueprint of a level and the steps that the
//! architects share.

pub mod cellular;
pub mod drunkard;
pub mod empty;
pub mod prefab;
pub mod rooms;

use vstd::prelude::*;
use rand::rngs::StdRng;
use crate::flood_fill::{
    distances, is_farthest, lemma_reach_monotone, lemma_reach_step, measured, reach_within, DistanceField,
};
use crate::map::{
    count_floor, index_of, on_grid, point_at, MapSpec, TileType, NUM_TILES, TILEMAP_HEIGHT, TILEMAP_WIDTH,
};
use crate::map_builder::cellular::CellularAutomataArchitect;
use crate::map_builder::drunkard::{dug_after, DrunkardsWalkArchitect, DESIRED_FLOOR};
use crate::map_builder::empty::EmptyArchitect;
use crate::map_builder::rooms::RoomsArchitect;
use crate::random::gen_range_i32;
use crate::utils::{Point, Rect};

verus! {

/// How many rooms the room architect places.
pub const NUM_ROOMS: usize = 20;

/// How many monsters a level holds at most.
pub const NUM_MONSTERS: usize = 50;

/// How deep the flood fills of generation look.
pub const FILL_DEPTH: u32 = 1024;

/// A monster never starts closer to the player than this, squared.
pub const SPAWN_CLEARANCE_SQ: i64 = 100;

/// Why an architect gave up.
#[derive(PartialEq, Eq, Structural, Clone, Copy, Debug)]
pub enum BuildError {
    /// The budget of random attempts ran out before the level was complete.
    OutOfAttempts,
    /// The level holds no floor to start on.
    NoFloor,
}

/// The strategies that can build a level.
#[derive(PartialEq, Eq, Structural, Clone, Copy, Debug)]
pub enum Architect {
    Rooms(RoomsArchitect),
    Cellular(CellularAutomataArchitect),
    Drunkard(DrunkardsWalkArchitect),
    Empty(EmptyArchitect),
}

/// Whether `architect` may give up, and `e` is the error with which it
/// does. The room architect runs out of attempts where the rooms drawn leave
/// it short of rooms, the drunkard's where the walks drawn leave it short of
/// floor; the cellular one is left without floor where the smoothing of the
/// noise drawn leaves none; the empty one never gives up.
pub open spec fn gives_up_with(architect: Architect, e: BuildError) -> bool {
    match architect {
        Architect::Rooms(a) => e == BuildError::OutOfAttempts && a.gives_up(),
        Architect::Cellular(_) => e == BuildError::NoFloor && CellularAutomataArchitect::gives_up(),
        Architect::Drunkard(a) => e == BuildError::OutOfAttempts && a.gives_up(),
        Architect::Empty(_) => false,
    }
}

/// A generated level: the map and where its inhabitants start.
#[derive(Clone, Debug)]
pub struct MapBuilder {
    pub map_spec: MapSpec,
    pub rooms: Vec<Rect>,
    pub monster_spawns: Vec<Point>,
    pub player_start: Point,
    pub amulet_start: Point,
}

/// Whether a monster may start on `p` when the player starts on `start`.
pub open spec fn spawnable(map: MapSpec, start: Point, p: Point) -> bool {
    &&& map.enterable(p)
    &&& start.dist_sq(p) > SPAWN_CLEARANCE_SQ
}

/// How many of the first `n` tiles a monster may start on.
pub open spec fn spawnable_count(map: MapSpec, start: Point, n: nat) -> nat
    decreases n,
{
    if n == 0 {
        0
    } else {
        spawnable_count(map, start, (n - 1) as nat) + if spawnable(map, start, point_at(n - 1)) {
            1nat
        } else {
            0nat
        }
    }
}

/// Whether `r` is a room as the room architect draws them: near corner and
/// size within their ranges, which keeps the room off the map's border.
pub open spec fn drawn_room(r: Rect) -> bool {
    &&& 1 <= r.x1 < TILEMAP_WIDTH - 10
    &&& 1 <= r.y1 < TILEMAP_HEIGHT - 10
    &&& 2 <= r.x2 - r.x1 < 10
    &&& 2 <= r.y2 - r.y1 < 10
}

/// Whether carving `room` turns tile `idx` into floor: the room covers it,
/// far edges included, and it lies neither in the first row nor in the first
/// column.
pub open spec fn carved_by(room: Rect, idx: int) -> bool {
    let p = point_at(idx);
    room.covers(p) && p.x > 0 && p.y > 0
}

/// Whether `room` overlaps one of `rooms`.
pub open spec fn overlaps_any(rooms: Seq<Rect>, room: Rect) -> bool {
    exists|i: int| 0 <= i < rooms.len() && (#[trigger] rooms[i]).overlaps(room)
}

/// The rooms that stand once the first `n` of `draws` were tried, one after
/// the other, on top of `rooms`: a drawn room is placed unless it overlaps
/// a room that stands.
pub open spec fn rooms_after(rooms: Seq<Rect>, draws: Seq<Rect>, n: nat) -> Seq<Rect>
    decreases n,
{
    if n == 0 {
        rooms
    } else {
        let standing = rooms_after(rooms, draws, (n - 1) as nat);
        if overlaps_any(standing, draws[n - 1]) {
            standing
        } else {
            standing.push(draws[n - 1])
        }
    }
}

/// Whether `draws` can be the rooms that are drawn for a level that has
/// `before` and that may draw `attempts` rooms, and `after` the rooms that
/// then stand: each draw is a room as the architect draws them, a room is
/// drawn only while fewer than `NUM_ROOMS` stand, and the drawing goes on
/// until `NUM_ROOMS` stand or the attempts are used up.
pub open spec fn rooms_drawn(before: Seq<Rect>, after: Seq<Rect>, draws: Seq<Rect>, attempts: usize) -> bool {
    &&& draws.len() <= attempts
    &&& forall|k: int| 0 <= k < draws.len() ==> drawn_room(#[trigger] draws[k])
    &&& after == rooms_after(before, draws, draws.len())
    &&& forall|k: int| 0 <= k < draws.len() ==> (#[trigger] rooms_after(before, draws, k as nat)).len() < NUM_ROOMS
    &&& after.len() >= NUM_ROOMS || draws.len() == attempts
}

/// The rooms that stand once the first `n` of `draws` were worked through
/// on top of `rooms`: as `rooms_after`, but once `NUM_ROOMS` stand no room is
/// added.
pub open spec fn rooms_kept(rooms: Seq<Rect>, draws: Seq<Rect>, n: nat) -> Seq<Rect>
    decreases n,
{
    if n == 0 {
        rooms
    } else {
        let standing = rooms_kept(rooms, draws, (n - 1) as nat);
        if standing.len() >= NUM_ROOMS || overlaps_any(standing, draws[n - 1]) {
            standing
        } else {
            standing.push(draws[n - 1])
        }
    }
}

/// While fewer than `NUM_ROOMS` stand, the rooms kept are the rooms placed.
pub proof fn lemma_rooms_kept(rooms: Seq<Rect>, draws: Seq<Rect>, n: nat)
    requires
        forall|k: int| 0 <= k < n ==> (#[trigger] rooms_after(rooms, draws, k as nat)).len() < NUM_ROOMS,
    ensures
        rooms_kept(rooms, draws, n) == rooms_after(rooms, draws, n),
    decreases n,
{
    if n > 0 {
        lemma_rooms_kept(rooms, draws, (n - 1) as nat);
        assert(rooms_after(rooms, draws, (n - 1) as nat).len() < NUM_ROOMS);
    }
}

/// Rooms that stand keep standing, and the first room drawn for a level
/// without rooms is placed.
pub proof fn lemma_rooms_stand(rooms: Seq<Rect>, draws: Seq<Rect>, n: nat)
    requires
        n <= draws.len(),
    ensures
        rooms.len() <= rooms_after(rooms, draws, n).len() <= rooms.len() + n,
        rooms_after(rooms, draws, n).take(rooms.len() as int) == rooms,
        rooms.len() == 0 && n >= 1 ==> rooms_after(rooms, draws, n).len() >= 1 && rooms_after(rooms, draws, n)[0]
            == draws[0],
    decreases n,
{
    if n > 0 {
        lemma_rooms_stand(rooms, draws, (n - 1) as nat);
        let standing = rooms_after(rooms, draws, (n - 1) as nat);
        assert(standing.push(draws[n - 1]).take(rooms.len() as int) == standing.take(rooms.len() as int));
        if n == 1 && rooms.len() == 0 {
            assert(!overlaps_any(standing, draws[0]));
        }
    } else {
        assert(rooms.take(rooms.len() as int) == rooms);
    }
}

/// The first draws decide which rooms stand after them.
pub proof fn lemma_rooms_prefix(rooms: Seq<Rect>, draws: Seq<Rect>, more: Seq<Rect>, n: nat)
    requires
        n <= draws.len() <= more.len(),
        forall|i: int| 0 <= i < draws.len() ==> draws[i] == more[i],
    ensures
        rooms_after(rooms, more, n) == rooms_after(rooms, draws, n),
    decreases n,
{
    if n > 0 {
        lemma_rooms_prefix(rooms, draws, more, (n - 1) as nat);
    }
}

/// Whether tile `idx` lies on the horizontal run of row `y` between columns
/// `x1` and `x2`, in either order.
pub open spec fn on_horizontal_run(x1: int, x2: int, y: int, idx: int) -> bool {
    let p = point_at(idx);
    p.y == y && (x1 <= p.x <= x2 || x2 <= p.x <= x1)
}

/// Whether tile `idx` lies on the vertical run of column `x` between rows
/// `y1` and `y2`, in either order.
pub open spec fn on_vertical_run(y1: int, y2: int, x: int, idx: int) -> bool {
    let p = point_at(idx);
    p.x == x && (y1 <= p.y <= y2 || y2 <= p.y <= y1)
}

/// Whether tile `idx` lies on the elbow between `a` and `b` that starts
/// along `a`'s row and ends along `b`'s column, where `row_first` holds, or
/// on the one that starts along `a`'s column and ends along `b`'s row.
pub open spec fn on_elbow(a: Point, b: Point, row_first: bool, idx: int) -> bool {
    if row_first {
        on_horizontal_run(a.x as int, b.x as int, a.y as int, idx) || on_vertical_run(
            a.y as int,
            b.y as int,
            b.x as int,
            idx,
        )
    } else {
        on_vertical_run(a.y as int, b.y as int, a.x as int, idx) || on_horizontal_run(
            a.x as int,
            b.x as int,
            b.y as int,
            idx,
        )
    }
}

/// Whether the elbow between `a` and `b` is floor, as far as it lies on the
/// map.
pub open spec fn dug(map: MapSpec, a: Point, b: Point, row_first: bool) -> bool {
    forall|idx: int| 0 <= idx < NUM_TILES && on_elbow(a, b, row_first, idx) ==> #[trigger] map.is_floor(idx)
}

/// Whether a corridor of floor joins `a` and `b` along one of the two
/// elbows between them.
pub open spec fn joined(map: MapSpec, a: Point, b: Point) -> bool {
    dug(map, a, b, true) || dug(map, a, b, false)
}

/// The column of each room's centre.
pub open spec fn center_columns(rooms: Seq<Rect>) -> Seq<int> {
    rooms.map_values(|r: Rect| r.center_spec().x as int)
}

/// Whether tile `idx` lies on one of the corridors that join each room of
/// `order`, from the second on, to the room before it; `turns` tells for
/// each which elbow it takes.
pub open spec fn on_corridor(rooms: Seq<Rect>, order: Seq<usize>, turns: Seq<bool>, idx: int) -> bool {
    exists|k: int|
        1 <= k < order.len() && #[trigger] on_elbow(
            rooms[order[k - 1] as int].center_spec(),
            rooms[order[k] as int].center_spec(),
            turns[k],
            idx,
        )
}

/// Whether `after` is `before` with the corridors dug: the tiles on a
/// corridor are floor, the others what they were.
pub open spec fn corridors_dug(
    before: Seq<TileType>,
    after: Seq<TileType>,
    rooms: Seq<Rect>,
    order: Seq<usize>,
    turns: Seq<bool>,
) -> bool {
    &&& stable_order(center_columns(rooms), order)
    &&& turns.len() == order.len()
    &&& after.len() == NUM_TILES
    &&& forall|idx: int|
        0 <= idx < NUM_TILES ==> #[trigger] after[idx] == if on_corridor(rooms, order, turns, idx) {
            TileType::Floor
        } else {
            before[idx]
        }
}

/// A walker who has reached one end of a row of floor reaches the other
/// end in as many further steps as the row is long.
pub proof fn lemma_walk_row(map: MapSpec, sources: Seq<usize>, y: int, from: int, to: int, n: nat)
    requires
        map.wf(),
        0 <= y < TILEMAP_HEIGHT,
        0 <= from < TILEMAP_WIDTH,
        0 <= to < TILEMAP_WIDTH,
        forall|idx: int| 0 <= idx < NUM_TILES && on_horizontal_run(from, to, y, idx) ==> #[trigger] map.is_floor(idx),
        reach_within(map, sources, (y * TILEMAP_WIDTH + from) as usize, n),
    ensures
        reach_within(map, sources, (y * TILEMAP_WIDTH + to) as usize, n + vstd::math::abs(to - from) as nat),
    decreases vstd::math::abs(to - from),
{
    if from != to {
        let next = if from < to { from + 1 } else { from - 1 };
        let here = y * TILEMAP_WIDTH + from;
        let there = y * TILEMAP_WIDTH + next;
        assert(on_horizontal_run(from, to, y, there));
        assert(map.is_floor(there));
        assert(map.is_exit(here, there));
        lemma_reach_step(map, sources, here as usize, there as usize, n);
        assert forall|idx: int| 0 <= idx < NUM_TILES && on_horizontal_run(next, to, y, idx) implies #[trigger] map.is_floor(
            idx,
        ) by {
            assert(on_horizontal_run(from, to, y, idx));
        }
        lemma_walk_row(map, sources, y, next, to, n + 1);
    }
}

/// A walker who has reached one end of a column of floor reaches the other
/// end in as many further steps as the column is long.
pub proof fn lemma_walk_column(map: MapSpec, sources: Seq<usize>, x: int, from: int, to: int, n: nat)
    requires
        map.wf(),
        0 <= x < TILEMAP_WIDTH,
        0 <= from < TILEMAP_HEIGHT,
        0 <= to < TILEMAP_HEIGHT,
        forall|idx: int| 0 <= idx < NUM_TILES && on_vertical_run(from, to, x, idx) ==> #[trigger] map.is_floor(idx),
        reach_within(map, sources, (from * TILEMAP_WIDTH + x) as usize, n),
    ensures
        reach_within(map, sources, (to * TILEMAP_WIDTH + x) as usize, n + vstd::math::abs(to - from) as nat),
    decreases vstd::math::abs(to - from),
{
    if from != to {
        let next = if from < to { from + 1 } else { from - 1 };
        let here = from * TILEMAP_WIDTH + x;
        let there = next * TILEMAP_WIDTH + x;
        assert(on_vertical_run(from, to, x, there));
        assert(map.is_floor(there));
        assert(map.is_exit(here, there));
        lemma_reach_step(map, sources, here as usize, there as usize, n);
        assert forall|idx: int| 0 <= idx < NUM_TILES && on_vertical_run(next, to, x, idx) implies #[trigger] map.is_floor(
            idx,
        ) by {
            assert(on_vertical_run(from, to, x, idx));
        }
        lemma_walk_column(map, sources, x, next, to, n + 1);
    }
}

/// A walker in a block of floor reaches every tile of the block: first
/// along its row, then along the column of the tile.
pub proof fn lemma_walk_block(map: MapSpec, sources: Seq<usize>, block: Rect, from: Point, to: Point, n: nat)
    requires
        map.wf(),
        on_grid(from),
        on_grid(to),
        block.covers(from),
        block.covers(to),
        forall|idx: int| 0 <= idx < NUM_TILES && block.covers(point_at(idx)) ==> #[trigger] map.is_floor(idx),
        reach_within(map, sources, index_of(from) as usize, n),
    ensures
        reach_within(
            map,
            sources,
            index_of(to) as usize,
            n + (vstd::math::abs(to.x - from.x) + vstd::math::abs(to.y - from.y)) as nat,
        ),
{
    lemma_walk_row(map, sources, from.y as int, from.x as int, to.x as int, n);
    lemma_walk_column(
        map,
        sources,
        to.x as int,
        from.y as int,
        to.y as int,
        n + vstd::math::abs(to.x - from.x) as nat,
    );
}

/// A walker on one end of a dug elbow reaches every tile of it.
pub proof fn lemma_walk_elbow(map: MapSpec, sources: Seq<usize>, a: Point, b: Point, row_first: bool, t: int, n: nat)
    requires
        map.wf(),
        on_grid(a),
        on_grid(b),
        dug(map, a, b, row_first),
        0 <= t < NUM_TILES,
        on_elbow(a, b, row_first, t),
        reach_within(map, sources, index_of(a) as usize, n),
    ensures
        reach_within(
            map,
            sources,
            t as usize,
            n + (vstd::math::abs(b.x - a.x) + vstd::math::abs(b.y - a.y)) as nat,
        ),
{
    let p = point_at(t);
    let far = n + (vstd::math::abs(b.x - a.x) + vstd::math::abs(b.y - a.y)) as nat;
    assert forall|idx: int|
        0 <= idx < NUM_TILES && (on_horizontal_run(a.x as int, p.x as int, p.y as int, idx) || on_vertical_run(
            a.y as int,
            p.y as int,
            p.x as int,
            idx,
        )) && on_elbow(a, b, row_first, idx) implies #[trigger] map.is_floor(idx) by {}
    if row_first {
        if on_horizontal_run(a.x as int, b.x as int, a.y as int, t) {
            assert forall|idx: int|
                0 <= idx < NUM_TILES && on_horizontal_run(a.x as int, p.x as int, a.y as int, idx) implies #[trigger] map.is_floor(
                idx,
            ) by {
                assert(on_elbow(a, b, row_first, idx));
            }
            lemma_walk_row(map, sources, a.y as int, a.x as int, p.x as int, n);
            lemma_reach_monotone(map, sources, t as usize, n + vstd::math::abs(p.x - a.x) as nat, far);
        } else {
            assert forall|idx: int|
                0 <= idx < NUM_TILES && on_horizontal_run(a.x as int, b.x as int, a.y as int, idx) implies #[trigger] map.is_floor(
                idx,
            ) by {
                assert(on_elbow(a, b, row_first, idx));
            }
            lemma_walk_row(map, sources, a.y as int, a.x as int, b.x as int, n);
            assert forall|idx: int|
                0 <= idx < NUM_TILES && on_vertical_run(a.y as int, p.y as int, b.x as int, idx) implies #[trigger] map.is_floor(
                idx,
            ) by {
                assert(on_elbow(a, b, row_first, idx));
            }
            lemma_walk_column(
                map,
                sources,
                b.x as int,
                a.y as int,
                p.y as int,
                n + vstd::math::abs(b.x - a.x) as nat,
            );
            lemma_reach_monotone(
                map,
                sources,
                t as usize,
                n + vstd::math::abs(b.x - a.x) as nat + vstd::math::abs(p.y - a.y) as nat,
                far,
            );
        }
    } else {
        if on_vertical_run(a.y as int, b.y as int, a.x as int, t) {
            assert forall|idx: int|
                0 <= idx < NUM_TILES && on_vertical_run(a.y as int, p.y as int, a.x as int, idx) implies #[trigger] map.is_floor(
                idx,
            ) by {
                assert(on_elbow(a, b, row_first, idx));
            }
            lemma_walk_column(map, sources, a.x as int, a.y as int, p.y as int, n);
            lemma_reach_monotone(map, sources, t as usize, n + vstd::math::abs(p.y - a.y) as nat, far);
        } else {
            assert forall|idx: int|
                0 <= idx < NUM_TILES && on_vertical_run(a.y as int, b.y as int, a.x as int, idx) implies #[trigger] map.is_floor(
                idx,
            ) by {
                assert(on_elbow(a, b, row_first, idx));
            }
            lemma_walk_column(map, sources, a.x as int, a.y as int, b.y as int, n);
            assert forall|idx: int|
                0 <= idx < NUM_TILES && on_horizontal_run(a.x as int, p.x as int, b.y as int, idx) implies #[trigger] map.is_floor(
                idx,
            ) by {
                assert(on_elbow(a, b, row_first, idx));
            }
            lemma_walk_row(
                map,
                sources,
                b.y as int,
                a.x as int,
                p.x as int,
                n + vstd::math::abs(b.y - a.y) as nat,
            );
            lemma_reach_monotone(
                map,
                sources,
                t as usize,
                n + vstd::math::abs(b.y - a.y) as nat + vstd::math::abs(p.x - a.x) as nat,
                far,
            );
        }
    }
}

/// A corridor is a way: a walker on one end of it reaches the other end in
/// as many steps as the two lie apart by rows and columns.
pub proof fn lemma_joined_reach(map: MapSpec, sources: Seq<usize>, a: Point, b: Point, n: nat)
    requires
        map.wf(),
        on_grid(a),
        on_grid(b),
        joined(map, a, b),
        reach_within(map, sources, index_of(a) as usize, n),
    ensures
        reach_within(
            map,
            sources,
            index_of(b) as usize,
            n + (vstd::math::abs(b.x - a.x) + vstd::math::abs(b.y - a.y)) as nat,
        ),
{
    let row_first = dug(map, a, b, true);
    assert(on_elbow(a, b, row_first, index_of(b)));
    lemma_walk_elbow(map, sources, a, b, row_first, index_of(b), n);
}

/// A corridor leads both ways.
pub proof fn lemma_joined_both_ways(map: MapSpec, a: Point, b: Point)
    requires
        joined(map, a, b),
    ensures
        joined(map, b, a),
{
    let row_first = dug(map, a, b, true);
    assert forall|idx: int| 0 <= idx < NUM_TILES && on_elbow(b, a, !row_first, idx) implies #[trigger] map.is_floor(
        idx,
    ) by {
        assert(on_elbow(a, b, row_first, idx));
    }
}

/// Whether `order` lists the indexes of `keys` by rising key, equal keys in
/// their first order.
pub open spec fn stable_order(keys: Seq<int>, order: Seq<usize>) -> bool {
    &&& order.len() == keys.len()
    &&& forall|a: int| 0 <= a < order.len() ==> #[trigger] order[a] < keys.len()
    &&& forall|i: usize| i < keys.len() ==> order.contains(i)
    &&& forall|a: int, b: int|
        0 <= a < b < order.len() ==> {
            ||| keys[#[trigger] order[a] as int] < keys[#[trigger] order[b] as int]
            ||| keys[order[a] as int] == keys[order[b] as int] && order[a] < order[b]
        }
}

/// Whether `p` is the tile that lies farthest from `start`, among those
/// that a walker can reach from there within the depth of a fill: the
/// steps from `start` are counted for every tile, `p` is reached, no tile
/// that is reached takes more steps, and of those that take as many `p` is
/// the last.
pub open spec fn farthest_from(map: MapSpec, start: Point, p: Point) -> bool {
    let steps = distances(map, seq![index_of(start) as usize], FILL_DEPTH);
    &&& on_grid(p)
    &&& measured(steps, map, seq![index_of(start) as usize], FILL_DEPTH)
    &&& is_farthest(steps, index_of(p))
}

/// No point occurs twice.
pub open spec fn distinct(points: Seq<Point>) -> bool {
    forall|i: int, j: int| 0 <= i < j < points.len() ==> points[i] != points[j]
}

impl MapBuilder {
    pub open spec fn wf(&self) -> bool {
        self.map_spec.wf()
    }

    /// Whether `p` is the tile that lies farthest from the player's start,
    /// among those that a walker can reach from there.
    pub open spec fn most_distant(&self, p: Point) -> bool {
        farthest_from(self.map_spec, self.player_start, p)
    }

    /// Whether everything that the level places stands on the map.
    pub open spec fn placed_on_grid(&self) -> bool {
        &&& self.wf()
        &&& on_grid(self.player_start)
        &&& on_grid(self.amulet_start)
        &&& forall|i: int| 0 <= i < self.monster_spawns@.len() ==> on_grid(#[trigger] self.monster_spawns@[i])
    }

    /// Whether `self` is a level as `architect` builds them, from draws as
    /// it makes them: the rooms are those that stand after the rooms drawn,
    /// the caves are the smoothing of the noise drawn, the floor is what the
    /// walks drawn leave.
    pub open spec fn built_by(&self, architect: Architect) -> bool {
        match architect {
            Architect::Rooms(a) => RoomsArchitect::builds(*self) && exists|draws: Seq<Rect>| #[trigger]
                a.draws_rooms(draws, self.rooms@),
            Architect::Cellular(_) => CellularAutomataArchitect::builds(*self),
            Architect::Drunkard(a) => DrunkardsWalkArchitect::builds(*self) && a.digs_out(self.map_spec.tiles@),
            Architect::Empty(_) => EmptyArchitect::builds(*self),
        }
    }

    /// Has `architect` build a level. An architect that runs out of
    /// attempts, or is left without floor, says so: the level, or the
    /// error, is what the architect makes of its draws.
    pub fn new(rng: &mut StdRng, architect: &Architect) -> (r: Result<MapBuilder, BuildError>)
        ensures
            match r {
                Ok(mb) => mb.built_by(*architect) && mb.placed_on_grid(),
                Err(e) => gives_up_with(*architect, e),
            },
    {
        match architect {
            Architect::Rooms(a) => {
                let r = a.new(rng);
                proof {
                    if r.is_ok() {
                        let mb = r.unwrap();
                        let (draws, standing) = choose|draws: Seq<Rect>, standing: Seq<Rect>|
                            {
                                &&& #[trigger] a.draws_rooms(draws, standing)
                                &&& r.is_err() <==> standing.len() < NUM_ROOMS
                                &&& r matches Ok(mb) ==> mb.rooms@ == standing
                            };
                        assert(a.draws_rooms(draws, mb.rooms@));
                        assert(drawn_room(mb.rooms@[0]));
                        assert forall|i: int| 0 <= i < mb.monster_spawns@.len() implies on_grid(
                            #[trigger] mb.monster_spawns@[i],
                        ) by {
                            assert(drawn_room(mb.rooms@[i + 1]));
                        }
                    }
                }
                r
            },
            Architect::Cellular(a) => a.new(rng),
            Architect::Drunkard(a) => {
                let r = a.new(rng);
                proof {
                    if r.is_ok() {
                        let (first, starts, turns) = choose|
                            first: Seq<i32>,
                            starts: Seq<Point>,
                            turns: Seq<Seq<i32>>,
                        |
                            {
                                &&& #[trigger] a.digs(first, starts, turns)
                                &&& r.is_err() <==> count_floor(dug_after(first, starts, turns, starts.len()))
                                    < DESIRED_FLOOR
                                &&& r matches Ok(mb) ==> mb.map_spec.tiles@ == dug_after(
                                    first,
                                    starts,
                                    turns,
                                    starts.len(),
                                )
                            };
                        assert(a.digs(first, starts, turns));
                    }
                }
                r
            },
            Architect::Empty(a) => Ok(a.new(rng)),
        }
    }

    /// A blueprint with a map of floor, none of it revealed, nothing placed,
    /// and both starts on the origin.
    pub fn blank() -> (mb: MapBuilder)
        ensures
            mb.wf(),
            forall|i: int| 0 <= i < NUM_TILES ==> mb.map_spec.tiles@[i] == TileType::Floor,
            forall|i: int| 0 <= i < NUM_TILES ==> !mb.map_spec.revealed_tiles@[i],
            mb.rooms@ == Seq::<Rect>::empty(),
            mb.monster_spawns@ == Seq::<Point>::empty(),
            mb.player_start == (Point { x: 0, y: 0 }),
            mb.amulet_start == (Point { x: 0, y: 0 }),
    {
        MapBuilder {
            map_spec: MapSpec::new(),
            rooms: Vec::new(),
            monster_spawns: Vec::new(),
            player_start: Point::zero(),
            amulet_start: Point::zero(),
        }
    }

    /// Sets every tile to `tile`.
    pub fn fill(&mut self, tile: TileType)
        requires
            old(self).wf(),
        ensures
            final(self).wf(),
            forall|i: int| 0 <= i < NUM_TILES ==> final(self).map_spec.tiles@[i] == tile,
            final(self).map_spec.revealed_tiles == old(self).map_spec.revealed_tiles,
            final(self).rooms == old(self).rooms,
            final(self).monster_spawns == old(self).monster_spawns,
            final(self).player_start == old(self).player_start,
            final(self).amulet_start == old(self).amulet_start,
    {
        let mut i: usize = 0;
        while i < NUM_TILES
            invariant
                i <= NUM_TILES,
                self.wf(),
                forall|k: int| 0 <= k < i ==> self.map_spec.tiles@[k] == tile,
                self.map_spec.revealed_tiles == old(self).map_spec.revealed_tiles,
                self.rooms == old(self).rooms,
                self.monster_spawns == old(self).monster_spawns,
                self.player_start == old(self).player_start,
                self.amulet_start == old(self).amulet_start,
            decreases NUM_TILES - i,
        {
            self.map_spec.tiles[i] = tile;
            i = i + 1;
        }
    }

    /// Adds `room` unless it overlaps a room placed before, and turns the
    /// tiles that it covers into floor.
    pub fn place_room(&mut self, room: Rect) -> (placed: bool)
        requires
            old(self).wf(),
        ensures
            final(self).wf(),
            placed == !overlaps_any(old(self).rooms@, room),
            placed ==> final(self).rooms@ == old(self).rooms@.push(room),
            !placed ==> final(self).rooms@ == old(self).rooms@,
            forall|idx: int|
                0 <= idx < NUM_TILES ==> #[trigger] final(self).map_spec.tiles@[idx] == if placed && carved_by(
                    room,
                    idx,
                ) {
                    TileType::Floor
                } else {
                    old(self).map_spec.tiles@[idx]
                },
            final(self).map_spec.revealed_tiles == old(self).map_spec.revealed_tiles,
            final(self).monster_spawns == old(self).monster_spawns,
            final(self).player_start == old(self).player_start,
            final(self).amulet_start == old(self).amulet_start,
    {
        let mut overlap = false;
        let mut i: usize = 0;
        while i < self.rooms.len()
            invariant
                i <= self.rooms@.len(),
                self == old(self),
                overlap == overlaps_any(self.rooms@.take(i as int), room),
            decreases self.rooms@.len() - i,
        {
            let hit = self.rooms[i].intersect(&room);
            proof {
                if hit {
                    assert(self.rooms@.take(i + 1)[i as int].overlaps(room));
                } else if overlap {
                    let k = choose|k: int|
                        0 <= k < i && (#[trigger] self.rooms@.take(i as int)[k]).overlaps(room);
                    assert(self.rooms@.take(i + 1)[k].overlaps(room));
                } else {
                    assert forall|k: int| 0 <= k < i + 1 implies !(#[trigger] self.rooms@.take(
                        i + 1,
                    )[k]).overlaps(room) by {
                        if k < i {
                            assert(self.rooms@.take(i as int)[k] == self.rooms@[k]);
                        }
                    }
                }
            }
            if hit {
                overlap = true;
            }
            i = i + 1;
        }
        assert(self.rooms@.take(i as int) == self.rooms@);
        if overlap {
            return false;
        }
        let mut idx: usize = 0;
        while idx < NUM_TILES
            invariant
                idx <= NUM_TILES,
                self.wf(),
                self.rooms == old(self).rooms,
                self.map_spec.revealed_tiles == old(self).map_spec.revealed_tiles,
                self.monster_spawns == old(self).monster_spawns,
                self.player_start == old(self).player_start,
                self.amulet_start == old(self).amulet_start,
                forall|k: int|
                    0 <= k < NUM_TILES ==> #[trigger] self.map_spec.tiles@[k] == if k < idx && carved_by(
                        room,
                        k,
                    ) {
                        TileType::Floor
                    } else {
                        old(self).map_spec.tiles@[k]
                    },
            decreases NUM_TILES - idx,
        {
            let p = self.map_spec.index_to_point2d(idx);
            if p.x > 0 && p.y > 0 && room.x1 <= p.x && p.x <= room.x2 && room.y1 <= p.y && p.y <= room.y2 {
                self.map_spec.tiles[idx] = TileType::Floor;
            }
            idx = idx + 1;
        }
        self.rooms.push(room);
        true
    }

    /// Draws rooms and places those that overlap none placed before, until
    /// `NUM_ROOMS` stand or `attempts` rooms were drawn. Returns whether
    /// `NUM_ROOMS` stand. So the first room drawn for a level without rooms
    /// is always placed.
    pub fn build_random_rooms(&mut self, rng: &mut StdRng, attempts: usize) -> (complete: bool)
        requires
            old(self).wf(),
        ensures
            final(self).wf(),
            complete == (final(self).rooms@.len() >= NUM_ROOMS),
            old(self).rooms@.len() <= final(self).rooms@.len() <= old(self).rooms@.len() + attempts,
            final(self).rooms@.len() <= NUM_ROOMS || final(self).rooms@.len() == old(self).rooms@.len(),
            exists|draws: Seq<Rect>| #[trigger] rooms_drawn(old(self).rooms@, final(self).rooms@, draws, attempts),
            old(self).rooms@.len() == 0 && attempts >= 1 ==> final(self).rooms@.len() >= 1,
            final(self).rooms@.take(old(self).rooms@.len() as int) == old(self).rooms@,
            forall|i: int|
                old(self).rooms@.len() <= i < final(self).rooms@.len() ==> {
                    &&& drawn_room(#[trigger] final(self).rooms@[i])
                    &&& !overlaps_any(final(self).rooms@.take(i), final(self).rooms@[i])
                },
            forall|idx: int|
                0 <= idx < NUM_TILES ==> #[trigger] final(self).map_spec.tiles@[idx] == if exists|i: int|
                    old(self).rooms@.len() <= i < final(self).rooms@.len() && carved_by(
                        #[trigger] final(self).rooms@[i],
                        idx,
                    ) {
                    TileType::Floor
                } else {
                    old(self).map_spec.tiles@[idx]
                },
            final(self).map_spec.revealed_tiles == old(self).map_spec.revealed_tiles,
            final(self).monster_spawns == old(self).monster_spawns,
            final(self).player_start == old(self).player_start,
            final(self).amulet_start == old(self).amulet_start,
    {
        let ghost first = self.rooms@.len();
        let ghost mut draws: Seq<Rect> = Seq::empty();
        let mut tries: usize = 0;
        while self.rooms.len() < NUM_ROOMS && tries < attempts
            invariant
                self.wf(),
                tries <= attempts,
                draws.len() == tries,
                forall|k: int| 0 <= k < draws.len() ==> drawn_room(#[trigger] draws[k]),
                self.rooms@ == rooms_after(old(self).rooms@, draws, draws.len()),
                forall|k: int|
                    0 <= k < draws.len() ==> (#[trigger] rooms_after(old(self).rooms@, draws, k as nat)).len()
                        < NUM_ROOMS,
                first <= self.rooms@.len() <= first + tries,
                self.rooms@.len() <= NUM_ROOMS || self.rooms@.len() == first,
                first == old(self).rooms@.len(),
                self.rooms@.take(first as int) == old(self).rooms@,
                forall|i: int|
                    first <= i < self.rooms@.len() ==> {
                        &&& drawn_room(#[trigger] self.rooms@[i])
                        &&& !overlaps_any(self.rooms@.take(i), self.rooms@[i])
                    },
                forall|idx: int|
                    0 <= idx < NUM_TILES ==> #[trigger] self.map_spec.tiles@[idx] == if exists|i: int|
                        first <= i < self.rooms@.len() && carved_by(#[trigger] self.rooms@[i], idx) {
                        TileType::Floor
                    } else {
                        old(self).map_spec.tiles@[idx]
                    },
                self.map_spec.revealed_tiles == old(self).map_spec.revealed_tiles,
                self.monster_spawns == old(self).monster_spawns,
                self.player_start == old(self).player_start,
                self.amulet_start == old(self).amulet_start,
            decreases attempts - tries,
        {
            let x = gen_range_i32(rng, 1, TILEMAP_WIDTH - 10);
            let y = gen_range_i32(rng, 1, TILEMAP_HEIGHT - 10);
            let w = gen_range_i32(rng, 2, 10);
            let h = gen_range_i32(rng, 2, 10);
            let room = Rect::with_size(x, y, w, h);
            let ghost rooms_before = self.rooms@;
            let ghost tiles_before = self.map_spec.tiles@;
            let ghost drawn = draws;
            let placed = self.place_room(room);
            proof {
                draws = draws.push(room);
                assert forall|k: int| 0 <= k < draws.len() implies (#[trigger] rooms_after(
                    old(self).rooms@,
                    draws,
                    k as nat,
                )).len() < NUM_ROOMS by {
                    lemma_rooms_prefix(old(self).rooms@, drawn, draws, k as nat);
                }
                lemma_rooms_prefix(old(self).rooms@, drawn, draws, drawn.len());
                if placed {
                    let n = rooms_before.len() as int;
                    assert(self.rooms@.take(n) == rooms_before);
                    assert(self.rooms@.take(first as int) == old(self).rooms@);
                    assert forall|i: int| first <= i < self.rooms@.len() implies {
                        &&& drawn_room(#[trigger] self.rooms@[i])
                        &&& !overlaps_any(self.rooms@.take(i), self.rooms@[i])
                    } by {
                        if i < n {
                            assert(self.rooms@[i] == rooms_before[i]);
                            assert(self.rooms@.take(i) == rooms_before.take(i));
                        }
                    }
                    assert forall|idx: int| 0 <= idx < NUM_TILES implies #[trigger] self.map_spec.tiles@[idx]
                        == if exists|i: int|
                        first <= i < self.rooms@.len() && carved_by(#[trigger] self.rooms@[i], idx) {
                        TileType::Floor
                    } else {
                        old(self).map_spec.tiles@[idx]
                    } by {
                        if carved_by(room, idx) {
                            assert(carved_by(self.rooms@[n], idx));
                        } else if exists|i: int|
                            first <= i < rooms_before.len() && carved_by(#[trigger] rooms_before[i], idx) {
                            let i = choose|i: int|
                                first <= i < rooms_before.len() && carved_by(#[trigger] rooms_before[i], idx);
                            assert(carved_by(self.rooms@[i], idx));
                        } else {
                            assert forall|i: int| first <= i < self.rooms@.len() implies !carved_by(
                                #[trigger] self.rooms@[i],
                                idx,
                            ) by {
                                if i < n {
                                    assert(self.rooms@[i] == rooms_before[i]);
                                }
                            }
                        }
                    }
                }
            }
            tries = tries + 1;
        }
        proof {
            assert(rooms_drawn(old(self).rooms@, self.rooms@, draws, attempts));
            lemma_rooms_stand(old(self).rooms@, draws, draws.len());
        }
        self.rooms.len() >= NUM_ROOMS
    }

    /// Turns the tiles of row `y` between columns `x1` and `x2` into floor.
    pub fn apply_horizontal_tunnel(&mut self, x1: i32, x2: i32, y: i32)
        requires
            old(self).wf(),
        ensures
            final(self).wf(),
            forall|idx: int|
                0 <= idx < NUM_TILES ==> #[trigger] final(self).map_spec.tiles@[idx] == if on_horizontal_run(
                    x1 as int,
                    x2 as int,
                    y as int,
                    idx,
                ) {
                    TileType::Floor
                } else {
                    old(self).map_spec.tiles@[idx]
                },
            final(self).map_spec.revealed_tiles == old(self).map_spec.revealed_tiles,
            final(self).rooms == old(self).rooms,
            final(self).monster_spawns == old(self).monster_spawns,
            final(self).player_start == old(self).player_start,
            final(self).amulet_start == old(self).amulet_start,
    {
        let lo: i32 = if x1 <= x2 { x1 } else { x2 };
        let hi: i32 = if x1 <= x2 { x2 } else { x1 };
        if y < 0 || y >= TILEMAP_HEIGHT {
            return ;
        }
        let mut x: i32 = if lo < 0 { 0 } else { lo };
        while x <= hi && x < TILEMAP_WIDTH
            invariant
                0 <= x,
                0 <= y < TILEMAP_HEIGHT,
                lo <= x,
                lo == if x1 <= x2 { x1 } else { x2 },
                hi == if x1 <= x2 { x2 } else { x1 },
                self.wf(),
                forall|idx: int|
                    0 <= idx < NUM_TILES ==> #[trigger] self.map_spec.tiles@[idx] == if on_horizontal_run(
                        x1 as int,
                        x2 as int,
                        y as int,
                        idx,
                    ) && point_at(idx).x < x {
                        TileType::Floor
                    } else {
                        old(self).map_spec.tiles@[idx]
                    },
                self.map_spec.revealed_tiles == old(self).map_spec.revealed_tiles,
                self.rooms == old(self).rooms,
                self.monster_spawns == old(self).monster_spawns,
                self.player_start == old(self).player_start,
                self.amulet_start == old(self).amulet_start,
            decreases TILEMAP_WIDTH - x,
        {
            if let Some(idx) = self.map_spec.try_idx(Point::new(x, y)) {
                self.map_spec.tiles[idx] = TileType::Floor;
            }
            x = x + 1;
        }
    }

    /// Turns the tiles of column `x` between rows `y1` and `y2` into floor.
    pub fn apply_vertical_tunnel(&mut self, y1: i32, y2: i32, x: i32)
        requires
            old(self).wf(),
        ensures
            final(self).wf(),
            forall|idx: int|
                0 <= idx < NUM_TILES ==> #[trigger] final(self).map_spec.tiles@[idx] == if on_vertical_run(
                    y1 as int,
                    y2 as int,
                    x as int,
                    idx,
                ) {
                    TileType::Floor
                } else {
                    old(self).map_spec.tiles@[idx]
                },
            final(self).map_spec.revealed_tiles == old(self).map_spec.revealed_tiles,
            final(self).rooms == old(self).rooms,
            final(self).monster_spawns == old(self).monster_spawns,
            final(self).player_start == old(self).player_start,
            final(self).amulet_start == old(self).amulet_start,
    {
        let lo: i32 = if y1 <= y2 { y1 } else { y2 };
        let hi: i32 = if y1 <= y2 { y2 } else { y1 };
        if x < 0 || x >= TILEMAP_WIDTH {
            return ;
        }
        let mut y: i32 = if lo < 0 { 0 } else { lo };
        while y <= hi && y < TILEMAP_HEIGHT
            invariant
                0 <= y,
                0 <= x < TILEMAP_WIDTH,
                lo <= y,
                lo == if y1 <= y2 { y1 } else { y2 },
                hi == if y1 <= y2 { y2 } else { y1 },
                self.wf(),
                forall|idx: int|
                    0 <= idx < NUM_TILES ==> #[trigger] self.map_spec.tiles@[idx] == if on_vertical_run(
                        y1 as int,
                        y2 as int,
                        x as int,
                        idx,
                    ) && point_at(idx).y < y {
                        TileType::Floor
                    } else {
                        old(self).map_spec.tiles@[idx]
                    },
                self.map_spec.revealed_tiles == old(self).map_spec.revealed_tiles,
                self.rooms == old(self).rooms,
                self.monster_spawns == old(self).monster_spawns,
                self.player_start == old(self).player_start,
                self.amulet_start == old(self).amulet_start,
            decreases TILEMAP_HEIGHT - y,
        {
            if let Some(idx) = self.map_spec.try_idx(Point::new(x, y)) {
                self.map_spec.tiles[idx] = TileType::Floor;
            }
            y = y + 1;
        }
    }

    /// Joins each room to the one before it, in the order of their centres'
    /// columns, by an elbow of floor; a coin picks which of the two elbows.
    pub fn build_corridors(&mut self, rng: &mut StdRng)
        requires
            old(self).wf(),
            forall|i: int| 0 <= i < old(self).rooms@.len() ==> (#[trigger] old(self).rooms@[i]).has_center(),
        ensures
            final(self).wf(),
            final(self).rooms@ == old(self).rooms@,
            final(self).map_spec.revealed_tiles == old(self).map_spec.revealed_tiles,
            final(self).monster_spawns == old(self).monster_spawns,
            final(self).player_start == old(self).player_start,
            final(self).amulet_start == old(self).amulet_start,
            exists|order: Seq<usize>, turns: Seq<bool>| #[trigger]
                corridors_dug(
                    old(self).map_spec.tiles@,
                    final(self).map_spec.tiles@,
                    old(self).rooms@,
                    order,
                    turns,
                ),
    {
        let mut keys: Vec<i32> = Vec::new();
        let mut i: usize = 0;
        while i < self.rooms.len()
            invariant
                i <= self.rooms@.len(),
                self == old(self),
                forall|j: int| 0 <= j < self.rooms@.len() ==> (#[trigger] self.rooms@[j]).has_center(),
                keys@.len() == i,
                forall|j: int| 0 <= j < i ==> #[trigger] keys@[j] == self.rooms@[j].center_spec().x,
            decreases self.rooms@.len() - i,
        {
            keys.push(self.rooms[i].center().x);
            i = i + 1;
        }
        let order = sort_stable(&keys);
        assert(keys@.map_values(|k: i32| k as int) == center_columns(self.rooms@));
        let ghost rooms = self.rooms@;
        if order.len() == 0 {
            proof {
                let none = Seq::<bool>::empty();
                assert(corridors_dug(old(self).map_spec.tiles@, self.map_spec.tiles@, rooms, order@, none));
            }
            return ;
        }
        let ghost mut turns: Seq<bool> = seq![false];
        let mut k: usize = 1;
        while k < order.len()
            invariant
                1 <= k <= order@.len(),
                self.wf(),
                self.rooms@ == rooms,
                rooms == old(self).rooms@,
                self.map_spec.revealed_tiles == old(self).map_spec.revealed_tiles,
                self.monster_spawns == old(self).monster_spawns,
                self.player_start == old(self).player_start,
                self.amulet_start == old(self).amulet_start,
                old(self).wf(),
                forall|j: int| 0 <= j < rooms.len() ==> (#[trigger] rooms[j]).has_center(),
                stable_order(center_columns(rooms), order@),
                turns.len() == k,
                forall|idx: int|
                    0 <= idx < NUM_TILES ==> #[trigger] self.map_spec.tiles@[idx] == if on_corridor(
                        rooms,
                        order@.take(k as int),
                        turns,
                        idx,
                    ) {
                        TileType::Floor
                    } else {
                        old(self).map_spec.tiles@[idx]
                    },
            decreases order@.len() - k,
        {
            let prev = self.rooms[order[k - 1]].center();
            let new = self.rooms[order[k]].center();
            let ghost before = self.map_spec.tiles@;
            let ghost earlier = turns;
            let row_first = gen_range_i32(rng, 0, 2) == 1;
            if row_first {
                self.apply_horizontal_tunnel(prev.x, new.x, prev.y);
                self.apply_vertical_tunnel(prev.y, new.y, new.x);
            } else {
                self.apply_vertical_tunnel(prev.y, new.y, prev.x);
                self.apply_horizontal_tunnel(prev.x, new.x, new.y);
            }
            proof {
                turns = turns.push(row_first);
                let done = order@.take(k as int);
                let now = order@.take(k + 1);
                assert forall|idx: int| 0 <= idx < NUM_TILES implies #[trigger] self.map_spec.tiles@[idx]
                    == if on_corridor(rooms, now, turns, idx) {
                    TileType::Floor
                } else {
                    old(self).map_spec.tiles@[idx]
                } by {
                    assert(self.map_spec.tiles@[idx] == if on_elbow(prev, new, row_first, idx) {
                        TileType::Floor
                    } else {
                        before[idx]
                    });
                    if on_elbow(prev, new, row_first, idx) {
                        assert(on_elbow(
                            rooms[now[k - 1] as int].center_spec(),
                            rooms[now[k as int] as int].center_spec(),
                            turns[k as int],
                            idx,
                        ));
                    } else if on_corridor(rooms, done, earlier, idx) {
                        let j = choose|j: int|
                            1 <= j < done.len() && #[trigger] on_elbow(
                                rooms[done[j - 1] as int].center_spec(),
                                rooms[done[j] as int].center_spec(),
                                earlier[j],
                                idx,
                            );
                        assert(on_elbow(
                            rooms[now[j - 1] as int].center_spec(),
                            rooms[now[j] as int].center_spec(),
                            turns[j],
                            idx,
                        ));
                    } else if on_corridor(rooms, now, turns, idx) {
                        let j = choose|j: int|
                            1 <= j < now.len() && #[trigger] on_elbow(
                                rooms[now[j - 1] as int].center_spec(),
                                rooms[now[j] as int].center_spec(),
                                turns[j],
                                idx,
                            );
                        if j < k {
                            assert(on_elbow(
                                rooms[done[j - 1] as int].center_spec(),
                                rooms[done[j] as int].center_spec(),
                                earlier[j],
                                idx,
                            ));
                        }
                    }
                }
            }
            k = k + 1;
        }
        proof {
            assert(order@.take(k as int) == order@);
            assert(corridors_dug(old(self).map_spec.tiles@, self.map_spec.tiles@, rooms, order@, turns));
        }
    }

    /// The reachable tile with the longest way from the player's start.
    pub fn find_most_distant(&self) -> (p: Point)
        requires
            self.wf(),
            on_grid(self.player_start),
        ensures
            self.most_distant(p),
    {
        let start = self.map_spec.point2d_to_index(self.player_start);
        let mut sources: Vec<usize> = Vec::new();
        sources.push(start);
        assert(sources@ == seq![index_of(self.player_start) as usize]);
        let field = DistanceField::new(&sources, &self.map_spec, FILL_DEPTH);
        assert(sources@[0] == start);
        assert(field.reached(start as int));
        match field.farthest() {
            Some(idx) => self.map_spec.index_to_point2d(idx),
            None => self.player_start,
        }
    }

    /// Draws up to `NUM_MONSTERS` starting tiles, none twice, among the
    /// floor tiles that keep their distance from `start`.
    pub fn spawn_monsters(&self, start: &Point, rng: &mut StdRng) -> (spawns: Vec<Point>)
        requires
            self.wf(),
        ensures
            distinct(spawns@),
            forall|i: int| 0 <= i < spawns@.len() ==> spawnable(self.map_spec, *start, #[trigger] spawns@[i]),
            spawns@.len() == if spawnable_count(self.map_spec, *start, NUM_TILES as nat) < NUM_MONSTERS {
                spawnable_count(self.map_spec, *start, NUM_TILES as nat)
            } else {
                NUM_MONSTERS as nat
            },
    {
        let mut spawnable_tiles: Vec<Point> = Vec::new();
        let mut idx: usize = 0;
        while idx < NUM_TILES
            invariant
                idx <= NUM_TILES,
                self.wf(),
                spawnable_tiles@.len() == spawnable_count(self.map_spec, *start, idx as nat),
                forall|i: int|
                    0 <= i < spawnable_tiles@.len() ==> spawnable(
                        self.map_spec,
                        *start,
                        #[trigger] spawnable_tiles@[i],
                    ),
                forall|i: int|
                    0 <= i < spawnable_tiles@.len() ==> index_of(#[trigger] spawnable_tiles@[i]) < idx,
                distinct(spawnable_tiles@),
                spawnable_tiles@.len() <= idx,
            decreases NUM_TILES - idx,
        {
            let p = self.map_spec.index_to_point2d(idx);
            if self.map_spec.tiles[idx] == TileType::Floor && far_apart(start, &p) {
                spawnable_tiles.push(p);
            }
            idx = idx + 1;
        }
        let mut spawns: Vec<Point> = Vec::new();
        let ghost total = spawnable_tiles@.len();
        while spawns.len() < NUM_MONSTERS && spawnable_tiles.len() > 0
            invariant
                spawns@.len() <= NUM_MONSTERS,
                spawns@.len() + spawnable_tiles@.len() == total,
                total <= NUM_TILES,
                distinct(spawns@),
                distinct(spawnable_tiles@),
                forall|i: int, j: int|
                    0 <= i < spawns@.len() && 0 <= j < spawnable_tiles@.len() ==> spawns@[i]
                        != spawnable_tiles@[j],
                forall|i: int|
                    0 <= i < spawnable_tiles@.len() ==> spawnable(
                        self.map_spec,
                        *start,
                        #[trigger] spawnable_tiles@[i],
                    ),
                forall|i: int| 0 <= i < spawns@.len() ==> spawnable(self.map_spec, *start, #[trigger] spawns@[i]),
            decreases spawnable_tiles@.len(),
        {
            let target_index = gen_range_i32(rng, 0, spawnable_tiles.len() as i32) as usize;
            let picked = spawnable_tiles.remove(target_index);
            spawns.push(picked);
        }
        spawns
    }
}

/// The indexes of `keys` by rising key, equal keys in their first order.
pub fn sort_stable(keys: &Vec<i32>) -> (order: Vec<usize>)
    ensures
        stable_order(keys@.map_values(|k: i32| k as int), order@),
{
    let ghost all = keys@.map_values(|k: i32| k as int);
    let mut order: Vec<usize> = Vec::new();
    let mut i: usize = 0;
    while i < keys.len()
        invariant
            i <= keys@.len(),
            all == keys@.map_values(|k: i32| k as int),
            order@.len() == i,
            forall|a: int| 0 <= a < order@.len() ==> #[trigger] order@[a] < i,
            forall|v: usize| v < i ==> order@.contains(v),
            forall|a: int, b: int|
                0 <= a < b < order@.len() ==> {
                    ||| all[#[trigger] order@[a] as int] < all[#[trigger] order@[b] as int]
                    ||| all[order@[a] as int] == all[order@[b] as int] && order@[a] < order@[b]
                },
        decreases keys@.len() - i,
    {
        let key = keys[i];
        let mut pos: usize = order.len();
        while pos > 0 && keys[order[pos - 1]] > key
            invariant
                pos <= order@.len(),
                order@.len() == i,
                i < keys@.len(),
                key == keys@[i as int],
                forall|a: int| 0 <= a < order@.len() ==> #[trigger] order@[a] < i,
                forall|v: usize| v < i ==> order@.contains(v),
                forall|a: int| pos <= a < order@.len() ==> keys@[#[trigger] order@[a] as int] > key,
            decreases pos,
        {
            pos = pos - 1;
        }
        let ghost before = order@;
        order.insert(pos, i);
        proof {
            assert(order@[pos as int] == i);
            assert forall|v: usize| v < i + 1 implies order@.contains(v) by {
                if v < i {
                    assert(before.contains(v));
                    let at = choose|at: int| 0 <= at < before.len() && before[at] == v;
                    if at < pos {
                        assert(order@[at] == v);
                    } else {
                        assert(order@[at + 1] == v);
                    }
                }
            }
            assert forall|a: int, b: int| 0 <= a < b < order@.len() implies {
                ||| all[#[trigger] order@[a] as int] < all[#[trigger] order@[b] as int]
                ||| all[order@[a] as int] == all[order@[b] as int] && order@[a] < order@[b]
            } by {
                let a0 = if a < pos { a } else { a - 1 };
                let b0 = if b < pos { b } else { b - 1 };
                if a != pos && b != pos {
                    assert(order@[a] == before[a0] && order@[b] == before[b0]);
                } else if a == pos {
                    assert(order@[b] == before[b0]);
                } else {
                    assert(order@[a] == before[a0]);
                    if pos > 0 {
                        assert(keys@[before[pos - 1] as int] <= key);
                        if a0 < pos - 1 {
                            assert(all[before[a0] as int] <= all[before[pos - 1] as int]);
                        }
                    }
                }
            }
        }
        i = i + 1;
    }
    order
}

/// Whether `a` and `b` lie further apart than a monster must keep from the
/// player's start.
pub fn far_apart(a: &Point, b: &Point) -> (far: bool)
    ensures
        far == (a.dist_sq(*b) > SPAWN_CLEARANCE_SQ),
{
    let dx: i64 = a.x as i64 - b.x as i64;
    let dy: i64 = a.y as i64 - b.y as i64;
    if dx > 10 || dx < -10 || dy > 10 || dy < -10 {
        assert(dx * dx + dy * dy > 100) by (nonlinear_arith)
            requires
                dx > 10 || dx < -10 || dy > 10 || dy < -10,
        ;
        true
    } else {
        assert(-100 <= dx * dx <= 100 && -100 <= dy * dy <= 100) by (nonlinear_arith)
            requires
                -10 <= dx <= 10,
                -10 <= dy <= 10,
        ;
        dx * dx + dy * dy > SPAWN_CLEARANCE_SQ
    }
}

} // verus!
