//! The open level: floor everywhere.

use vstd::prelude::*;
use rand::rngs::StdRng;
use crate::flood_fill::{
    depth_cap, distances, is_farthest, lemma_reach_at_least_taxicab, lemma_reach_monotone, measured,
    reach_within, shortest, taxicab, UNREACHABLE,
};
use crate::map::{
    center_point, grid_center, index_of, on_grid, point_at, MapSpec, TileType, NUM_TILES, TILEMAP_HEIGHT,
    TILEMAP_WIDTH,
};
use crate::map_builder::{farthest_from, lemma_walk_block, MapBuilder, FILL_DEPTH, NUM_MONSTERS};
use crate::utils::Rect;
use crate::random::gen_range_i32;
use crate::utils::Point;

verus! {

#[derive(PartialEq, Eq, Structural, Clone, Copy, Debug)]
pub struct EmptyArchitect;

/// Whether every tile of the map is floor.
pub open spec fn all_floor(map: MapSpec) -> bool {
    forall|i: int| 0 <= i < NUM_TILES ==> map.tiles@[i] == TileType::Floor
}

/// On the open map the way to a tile is as long as the rows and columns
/// that lie between.
pub proof fn lemma_open_map_steps(map: MapSpec, from: Point, t: usize)
    requires
        map.wf(),
        all_floor(map),
        on_grid(from),
        t < NUM_TILES,
    ensures
        shortest(map, seq![index_of(from) as usize], t, taxicab(from, point_at(t as int))),
{
    let sources = seq![index_of(from) as usize];
    let whole = Rect { x1: 0, y1: 0, x2: (TILEMAP_WIDTH - 1) as i32, y2: (TILEMAP_HEIGHT - 1) as i32 };
    assert(sources[0] == index_of(from) as usize);
    assert(reach_within(map, sources, index_of(from) as usize, 0));
    assert forall|idx: int| 0 <= idx < NUM_TILES && whole.covers(point_at(idx)) implies #[trigger] map.is_floor(
        idx,
    ) by {
        assert(map.tiles@[idx] == TileType::Floor);
    }
    lemma_walk_block(map, sources, whole, from, point_at(t as int), 0);
    let d = taxicab(from, point_at(t as int));
    if d > 0 && reach_within(map, sources, t, (d - 1) as nat) {
        lemma_reach_at_least_taxicab(map, from, t, (d - 1) as nat);
    }
}

/// On the open map the tile farthest from the middle is the corner at the
/// origin.
pub proof fn lemma_open_map_farthest(map: MapSpec)
    requires
        map.wf(),
        all_floor(map),
    ensures
        farthest_from(map, grid_center(), Point { x: 0, y: 0 }),
{
    let from = grid_center();
    let sources = seq![index_of(from) as usize];
    let steps = Seq::new(NUM_TILES as nat, |t: int| taxicab(from, point_at(t)) as u32);
    assert forall|t: usize| t < NUM_TILES implies {
        let d = #[trigger] steps[t as int];
        if d == UNREACHABLE {
            !reach_within(map, sources, t, depth_cap(FILL_DEPTH))
        } else {
            d <= depth_cap(FILL_DEPTH) && shortest(map, sources, t, d as nat)
        }
    } by {
        lemma_open_map_steps(map, from, t);
    }
    assert(measured(steps, map, sources, FILL_DEPTH));
    crate::flood_fill::lemma_distances_unique(steps, map, sources, FILL_DEPTH);
    assert(is_farthest(steps, 0));
}

impl EmptyArchitect {
    /// Whether `mb` is a level as this architect builds them: all floor,
    /// the player in the middle, the amulet as far away as can be, which is
    /// in the corner at the origin, and `NUM_MONSTERS` monsters anywhere
    /// off the first row and column.
    pub open spec fn builds(mb: MapBuilder) -> bool {
        &&& mb.wf()
        &&& forall|i: int| 0 <= i < NUM_TILES ==> mb.map_spec.tiles@[i] == TileType::Floor
        &&& mb.rooms@.len() == 0
        &&& mb.player_start == grid_center()
        &&& mb.amulet_start == (Point { x: 0, y: 0 })
        &&& mb.monster_spawns@.len() == NUM_MONSTERS
        &&& forall|i: int|
            0 <= i < mb.monster_spawns@.len() ==> {
                let p = #[trigger] mb.monster_spawns@[i];
                1 <= p.x < TILEMAP_WIDTH && 1 <= p.y < TILEMAP_HEIGHT
            }
    }

    pub fn new(&self, rng: &mut StdRng) -> (mb: MapBuilder)
        ensures
            Self::builds(mb),
    {
        let mut mb = MapBuilder::blank();
        mb.fill(TileType::Floor);
        mb.player_start = center_point();
        mb.amulet_start = mb.find_most_distant();
        proof {
            lemma_open_map_farthest(mb.map_spec);
            let steps = distances(mb.map_spec, seq![index_of(mb.player_start) as usize], FILL_DEPTH);
            let found = index_of(mb.amulet_start);
            assert(steps[found] <= steps[0] && steps[0] <= steps[found]);
        }
        let mut n: usize = 0;
        while n < NUM_MONSTERS
            invariant
                n <= NUM_MONSTERS,
                mb.wf(),
                forall|i: int| 0 <= i < NUM_TILES ==> mb.map_spec.tiles@[i] == TileType::Floor,
                mb.rooms@.len() == 0,
                mb.player_start == grid_center(),
                mb.amulet_start == (Point { x: 0, y: 0 }),
                mb.monster_spawns@.len() == n,
                forall|i: int|
                    0 <= i < mb.monster_spawns@.len() ==> {
                        let p = #[trigger] mb.monster_spawns@[i];
                        1 <= p.x < TILEMAP_WIDTH && 1 <= p.y < TILEMAP_HEIGHT
                    },
            decreases NUM_MONSTERS - n,
        {
            let x = gen_range_i32(rng, 1, TILEMAP_WIDTH);
            let y = gen_range_i32(rng, 1, TILEMAP_HEIGHT);
            mb.monster_spawns.push(Point::new(x, y));
            n = n + 1;
        }
        mb
    }
}

} // verus!
