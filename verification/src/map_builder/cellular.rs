//! Cellular automaton: random noise, smoothed into caves.

use vstd::prelude::*;
use rand::rngs::StdRng;
use crate::map::{
    center_point, grid_center, index_of, map_idx, on_grid, point_at, MapSpec, TileType, NUM_TILES, TILEMAP_HEIGHT,
    TILEMAP_WIDTH,
};
use crate::map_builder::{distinct, farthest_from, spawnable, spawnable_count, BuildError, MapBuilder, NUM_MONSTERS};
use crate::random::gen_range_i32;
use crate::utils::Point;

verus! {

/// How often the noise is smoothed.
pub const SMOOTHING_PASSES: usize = 10;

#[derive(PartialEq, Eq, Structural, Clone, Copy, Debug)]
pub struct CellularAutomataArchitect;

/// 1 where the tile at `(x, y)` is a wall, else 0.
pub open spec fn wall_at(tiles: Seq<TileType>, x: int, y: int) -> nat {
    if tiles[y * TILEMAP_WIDTH + x] == TileType::Wall {
        1
    } else {
        0
    }
}

/// How many of the eight tiles around `(x, y)` are walls.
pub open spec fn wall_neighbours(tiles: Seq<TileType>, x: int, y: int) -> nat {
    wall_at(tiles, x - 1, y - 1) + wall_at(tiles, x, y - 1) + wall_at(tiles, x + 1, y - 1) + wall_at(
        tiles,
        x - 1,
        y,
    ) + wall_at(tiles, x + 1, y) + wall_at(tiles, x - 1, y + 1) + wall_at(tiles, x, y + 1) + wall_at(
        tiles,
        x + 1,
        y + 1,
    )
}

/// Whether tile `idx` lies off the border of the map.
pub open spec fn interior(idx: int) -> bool {
    let p = point_at(idx);
    1 <= p.x < TILEMAP_WIDTH - 1 && 1 <= p.y < TILEMAP_HEIGHT - 1
}

/// What one smoothing pass makes of tile `idx`: off the border, a wall where
/// more than four neighbours are walls or none is, else floor; on the
/// border, what it was.
pub open spec fn smoothed_tile(tiles: Seq<TileType>, idx: int) -> TileType {
    if interior(idx) {
        let n = wall_neighbours(tiles, point_at(idx).x as int, point_at(idx).y as int);
        if n > 4 || n == 0 {
            TileType::Wall
        } else {
            TileType::Floor
        }
    } else {
        tiles[idx]
    }
}

/// One smoothing pass over the whole map.
pub open spec fn smooth(tiles: Seq<TileType>) -> Seq<TileType> {
    Seq::new(tiles.len(), |idx: int| smoothed_tile(tiles, idx))
}

/// `n` smoothing passes.
pub open spec fn smooth_times(tiles: Seq<TileType>, n: nat) -> Seq<TileType>
    decreases n,
{
    if n == 0 {
        tiles
    } else {
        smooth(smooth_times(tiles, (n - 1) as nat))
    }
}

/// What a roll of the hundred-sided die makes of a tile.
pub open spec fn noise_tile(roll: int) -> TileType {
    if roll > 55 {
        TileType::Floor
    } else {
        TileType::Wall
    }
}

/// Whether every tile is floor or wall, as the noise leaves them.
pub open spec fn is_noise(tiles: Seq<TileType>) -> bool {
    &&& tiles.len() == NUM_TILES
    &&& forall|i: int| 0 <= i < tiles.len() ==> (#[trigger] tiles[i] == TileType::Floor || tiles[i] == TileType::Wall)
}

/// Whether `p` is the floor tile nearest to the middle of the map, the
/// first such tile in index order where several tie.
pub open spec fn nearest_floor(map: MapSpec, p: Point) -> bool {
    &&& map.enterable(p)
    &&& forall|idx: int|
        0 <= idx < NUM_TILES && #[trigger] map.is_floor(idx) ==> {
            let d = grid_center().dist_sq(point_at(idx));
            let best = grid_center().dist_sq(p);
            best < d || (best == d && index_of(p) <= idx)
        }
}

/// Whether the smoothing of `noise` leaves no floor at all.
pub open spec fn barren(noise: Seq<TileType>) -> bool {
    forall|idx: int| 0 <= idx < NUM_TILES ==> smooth_times(noise, SMOOTHING_PASSES as nat)[idx] != TileType::Floor
}

impl CellularAutomataArchitect {
    /// Whether there is noise that leaves this architect without floor.
    pub open spec fn gives_up() -> bool {
        exists|noise: Seq<TileType>| #[trigger] is_noise(noise) && barren(noise)
    }

    /// Whether `mb` is a level as this architect builds them.
    pub open spec fn builds(mb: MapBuilder) -> bool {
        &&& mb.wf()
        &&& mb.rooms@.len() == 0
        &&& exists|noise: Seq<TileType>| #[trigger]
            is_noise(noise) && mb.map_spec.tiles@ == smooth_times(noise, SMOOTHING_PASSES as nat)
        &&& nearest_floor(mb.map_spec, mb.player_start)
        &&& farthest_from(mb.map_spec, mb.player_start, mb.amulet_start)
        &&& distinct(mb.monster_spawns@)
        &&& forall|i: int|
            0 <= i < mb.monster_spawns@.len() ==> spawnable(
                mb.map_spec,
                mb.player_start,
                #[trigger] mb.monster_spawns@[i],
            )
        &&& mb.monster_spawns@.len() == if spawnable_count(mb.map_spec, mb.player_start, NUM_TILES as nat)
            < NUM_MONSTERS {
            spawnable_count(mb.map_spec, mb.player_start, NUM_TILES as nat)
        } else {
            NUM_MONSTERS as nat
        }
    }

    /// Caves grown from random noise: the level is what `grow` makes of the
    /// noise, and `NoFloor` comes exactly where the smoothing of the noise
    /// left no floor at all.
    pub fn new(&self, rng: &mut StdRng) -> (r: Result<MapBuilder, BuildError>)
        ensures
            match r {
                Ok(mb) => Self::builds(mb),
                Err(e) => e == BuildError::NoFloor,
            },
            exists|noise: Seq<TileType>|
                {
                    &&& #[trigger] is_noise(noise)
                    &&& r.is_err() <==> barren(noise)
                    &&& r matches Ok(mb) ==> mb.map_spec.tiles@ == smooth_times(noise, SMOOTHING_PASSES as nat)
                },
            r.is_err() ==> Self::gives_up(),
    {
        let mut noise = MapSpec::new();
        self.random_noise_map(rng, &mut noise);
        let ghost drawn = noise.tiles@;
        let r = self.grow(noise, rng);
        assert(is_noise(drawn));
        r
    }

    /// Caves grown from `noise`: `SMOOTHING_PASSES` passes over it, the
    /// player on the floor nearest to the middle, the amulet farthest from
    /// the player. `NoFloor` exactly where the passes leave no floor.
    pub fn grow(&self, noise: MapSpec, rng: &mut StdRng) -> (r: Result<MapBuilder, BuildError>)
        requires
            noise.wf(),
        ensures
            match r {
                Ok(mb) => {
                    &&& mb.wf()
                    &&& mb.rooms@.len() == 0
                    &&& mb.map_spec.tiles@ == smooth_times(noise.tiles@, SMOOTHING_PASSES as nat)
                    &&& mb.map_spec.revealed_tiles == noise.revealed_tiles
                    &&& nearest_floor(mb.map_spec, mb.player_start)
                    &&& farthest_from(mb.map_spec, mb.player_start, mb.amulet_start)
                    &&& distinct(mb.monster_spawns@)
                    &&& forall|i: int|
                        0 <= i < mb.monster_spawns@.len() ==> spawnable(
                            mb.map_spec,
                            mb.player_start,
                            #[trigger] mb.monster_spawns@[i],
                        )
                    &&& mb.monster_spawns@.len() == if spawnable_count(
                        mb.map_spec,
                        mb.player_start,
                        NUM_TILES as nat,
                    ) < NUM_MONSTERS {
                        spawnable_count(mb.map_spec, mb.player_start, NUM_TILES as nat)
                    } else {
                        NUM_MONSTERS as nat
                    }
                },
                Err(e) => e == BuildError::NoFloor,
            },
            r.is_err() <==> barren(noise.tiles@),
    {
        let mut mb = MapBuilder {
            map_spec: noise,
            rooms: Vec::new(),
            monster_spawns: Vec::new(),
            player_start: Point::zero(),
            amulet_start: Point::zero(),
        };
        let mut pass: usize = 0;
        while pass < SMOOTHING_PASSES
            invariant
                pass <= SMOOTHING_PASSES,
                mb.wf(),
                mb.rooms@.len() == 0,
                mb.monster_spawns@.len() == 0,
                mb.map_spec.revealed_tiles == noise.revealed_tiles,
                mb.map_spec.tiles@ == smooth_times(noise.tiles@, pass as nat),
            decreases SMOOTHING_PASSES - pass,
        {
            self.iteration(&mut mb.map_spec);
            pass = pass + 1;
        }
        let ghost caves = mb.map_spec;
        match self.find_start(&mb.map_spec) {
            Some(start) => {
                mb.monster_spawns = mb.spawn_monsters(&start, rng);
                mb.player_start = start;
                mb.amulet_start = mb.find_most_distant();
                assert(caves.is_floor(index_of(start)));
                assert(smooth_times(noise.tiles@, SMOOTHING_PASSES as nat)[index_of(start)] == TileType::Floor);
                Ok(mb)
            },
            None => {
                assert forall|idx: int| 0 <= idx < NUM_TILES implies smooth_times(
                    noise.tiles@,
                    SMOOTHING_PASSES as nat,
                )[idx] != TileType::Floor by {
                    assert(!caves.is_floor(idx));
                }
                Err(BuildError::NoFloor)
            },
        }
    }

    /// Rolls a hundred-sided die for every tile: floor above 55, else wall.
    pub fn random_noise_map(&self, rng: &mut StdRng, map_spec: &mut MapSpec)
        requires
            old(map_spec).wf(),
        ensures
            final(map_spec).wf(),
            is_noise(final(map_spec).tiles@),
            final(map_spec).revealed_tiles == old(map_spec).revealed_tiles,
    {
        let mut i: usize = 0;
        while i < NUM_TILES
            invariant
                i <= NUM_TILES,
                map_spec.wf(),
                map_spec.revealed_tiles == old(map_spec).revealed_tiles,
                forall|k: int|
                    0 <= k < i ==> (#[trigger] map_spec.tiles@[k] == TileType::Floor || map_spec.tiles@[k]
                        == TileType::Wall),
            decreases NUM_TILES - i,
        {
            let roll = gen_range_i32(rng, 0, 100);
            map_spec.tiles[i] = tile_for_roll(roll);
            i = i + 1;
        }
    }

    /// 1 where the tile at `(x, y)` is a wall, else 0.
    fn wall(&self, x: i32, y: i32, map_spec: &MapSpec) -> (n: usize)
        requires
            map_spec.wf(),
            0 <= x < TILEMAP_WIDTH,
            0 <= y < TILEMAP_HEIGHT,
        ensures
            n == wall_at(map_spec.tiles@, x as int, y as int),
    {
        if map_spec.tiles[map_idx(x, y)] == TileType::Wall {
            1
        } else {
            0
        }
    }

    /// Counts the walls among the eight tiles around `(x, y)`.
    pub fn count_neighbors(&self, x: i32, y: i32, map_spec: &MapSpec) -> (n: usize)
        requires
            map_spec.wf(),
            1 <= x < TILEMAP_WIDTH - 1,
            1 <= y < TILEMAP_HEIGHT - 1,
        ensures
            n == wall_neighbours(map_spec.tiles@, x as int, y as int),
            n <= 8,
    {
        let mut neighbors: usize = 0;
        neighbors = neighbors + self.wall(x - 1, y - 1, map_spec);
        neighbors = neighbors + self.wall(x, y - 1, map_spec);
        neighbors = neighbors + self.wall(x + 1, y - 1, map_spec);
        neighbors = neighbors + self.wall(x - 1, y, map_spec);
        neighbors = neighbors + self.wall(x + 1, y, map_spec);
        neighbors = neighbors + self.wall(x - 1, y + 1, map_spec);
        neighbors = neighbors + self.wall(x, y + 1, map_spec);
        neighbors = neighbors + self.wall(x + 1, y + 1, map_spec);
        neighbors
    }

    /// One smoothing pass.
    pub fn iteration(&self, map_spec: &mut MapSpec)
        requires
            old(map_spec).wf(),
        ensures
            final(map_spec).wf(),
            final(map_spec).tiles@ == smooth(old(map_spec).tiles@),
            final(map_spec).revealed_tiles == old(map_spec).revealed_tiles,
    {
        let mut new_tiles: Vec<TileType> = Vec::new();
        let mut idx: usize = 0;
        while idx < NUM_TILES
            invariant
                idx <= NUM_TILES,
                map_spec.wf(),
                map_spec == old(map_spec),
                new_tiles@.len() == idx,
                forall|k: int| 0 <= k < idx ==> #[trigger] new_tiles@[k] == smoothed_tile(map_spec.tiles@, k),
            decreases NUM_TILES - idx,
        {
            let p = map_spec.index_to_point2d(idx);
            if 1 <= p.x && p.x < TILEMAP_WIDTH - 1 && 1 <= p.y && p.y < TILEMAP_HEIGHT - 1 {
                let neighbors = self.count_neighbors(p.x, p.y, map_spec);
                if neighbors > 4 || neighbors == 0 {
                    new_tiles.push(TileType::Wall);
                } else {
                    new_tiles.push(TileType::Floor);
                }
            } else {
                new_tiles.push(map_spec.tiles[idx]);
            }
            idx = idx + 1;
        }
        assert(new_tiles@ == smooth(map_spec.tiles@));
        map_spec.tiles = new_tiles;
    }

    /// The floor tile nearest to the middle of the map; `None` where the
    /// map has no floor.
    pub fn find_start(&self, map_spec: &MapSpec) -> (r: Option<Point>)
        requires
            map_spec.wf(),
        ensures
            match r {
                Some(p) => nearest_floor(*map_spec, p),
                None => forall|idx: int| 0 <= idx < NUM_TILES ==> !map_spec.is_floor(idx),
            },
    {
        let center = center_point();
        let mut best: Option<(usize, u32)> = None;
        let mut idx: usize = 0;
        while idx < NUM_TILES
            invariant
                idx <= NUM_TILES,
                map_spec.wf(),
                center == grid_center(),
                match best {
                    Some((at, d)) => {
                        &&& at < idx
                        &&& map_spec.is_floor(at as int)
                        &&& d == grid_center().dist_sq(point_at(at as int))
                        &&& forall|k: int|
                            0 <= k < idx && #[trigger] map_spec.is_floor(k) ==> {
                                let dk = grid_center().dist_sq(point_at(k));
                                d < dk || (d == dk && at <= k)
                            }
                    },
                    None => forall|k: int| 0 <= k < idx ==> !map_spec.is_floor(k),
                },
            decreases NUM_TILES - idx,
        {
            if map_spec.tiles[idx] == TileType::Floor {
                let d = map_spec.distance_squared(map_spec.point2d_to_index(center), idx);
                match best {
                    Some((_, least)) => {
                        if d < least {
                            best = Some((idx, d));
                        }
                    },
                    None => {
                        best = Some((idx, d));
                    },
                }
            }
            idx = idx + 1;
        }
        match best {
            Some((at, _)) => Some(map_spec.index_to_point2d(at)),
            None => None,
        }
    }
}

/// What a roll of the hundred-sided die makes of a tile.
pub fn tile_for_roll(roll: i32) -> (tile: TileType)
    ensures
        tile == noise_tile(roll as int),
{
    if roll > 55 {
        TileType::Floor
    } else {
        TileType::Wall
    }
}

} // verus!
