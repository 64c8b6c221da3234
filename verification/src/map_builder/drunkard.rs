//! The drunkard's walk: random walks dig the floor until a third of the map
//! is open; what the walks leave out of reach is walled up again.

use vstd::prelude::*;
use rand::rngs::StdRng;
use crate::flood_fill::{
    depth_cap, distances, lemma_distances_unique, lemma_reach_monotone, lemma_reach_more_floor, measured,
    reach_within, shortest, DistanceField, UNREACHABLE,
};
use crate::map::{
    center_point, count_floor, edge_neighbours, grid_center, index_of, lemma_count_floor_none,
    lemma_count_floor_update, on_grid, MapSpec, TileType, NUM_TILES,
    TILEMAP_HEIGHT, TILEMAP_WIDTH,
};
use crate::map_builder::{distinct, farthest_from, spawnable, spawnable_count, BuildError, MapBuilder, FILL_DEPTH, NUM_MONSTERS};
use crate::random::gen_range_i32;
use crate::systems::random_move::{stagger, step_for};
use crate::utils::Point;

verus! {

/// The number of steps after which a walk ends.
pub const STAGGER_DISTANCE: usize = 400;

/// The number of floor tiles at which the digging stops.
pub const DESIRED_FLOOR: usize = 1333;

/// Tiles further than this from the middle are walled up after each walk.
pub const PRUNE_BEYOND: u32 = 2000;

#[derive(PartialEq, Eq, Structural, Clone, Copy, Debug)]
pub struct DrunkardsWalkArchitect {
    /// How many walks the architect starts, after the first, before it
    /// gives up.
    pub walks: usize,
}

/// Whether every floor tile of `map` is within reach of `start`.
pub open spec fn all_floor_reachable(map: MapSpec, start: Point) -> bool {
    forall|t: usize|
        t < NUM_TILES && #[trigger] map.is_floor(t as int) ==> reach_within(
            map,
            seq![index_of(start) as usize],
            t,
            depth_cap(FILL_DEPTH),
        )
}

/// Walling up what a fill did not reach leaves every other tile within the
/// reach it had.
pub proof fn lemma_reach_survives_pruning(
    before: MapSpec,
    after: MapSpec,
    field: DistanceField,
    sources: Seq<usize>,
    t: usize,
    n: nat,
)
    requires
        before.wf(),
        after.wf(),
        field.measures(before, sources, FILL_DEPTH),
        forall|idx: int|
            0 <= idx < NUM_TILES ==> #[trigger] after.tiles@[idx] == if field.steps@[idx] > PRUNE_BEYOND {
                TileType::Wall
            } else {
                before.tiles@[idx]
            },
        reach_within(before, sources, t, n),
        n <= depth_cap(FILL_DEPTH),
    ensures
        reach_within(after, sources, t, n),
    decreases n,
{
    if !sources.contains(t) {
        let u = choose|u: usize| #[trigger]
            before.is_exit(u as int, t as int) && reach_within(before, sources, u, (n - 1) as nat);
        lemma_reach_survives_pruning(before, after, field, sources, u, (n - 1) as nat);
        assert(field.steps@[t as int] != UNREACHABLE) by {
            lemma_reach_monotone(before, sources, t, n, depth_cap(FILL_DEPTH));
        }
        assert(after.tiles@[t as int] == before.tiles@[t as int]);
        assert(after.is_exit(u as int, t as int));
    }
}

impl DrunkardsWalkArchitect {
    /// Whether `mb` is a level as this architect builds them: at least
    /// `DESIRED_FLOOR` floor tiles, each within reach of the player, who
    /// starts in the middle.
    pub open spec fn builds(mb: MapBuilder) -> bool {
        &&& mb.wf()
        &&& mb.rooms@.len() == 0
        &&& mb.player_start == grid_center()
        &&& mb.map_spec.enterable(mb.player_start)
        &&& count_floor(mb.map_spec.tiles@) >= DESIRED_FLOOR
        &&& forall|i: int|
            0 <= i < NUM_TILES ==> (#[trigger] mb.map_spec.tiles@[i] == TileType::Floor || mb.map_spec.tiles@[i]
                == TileType::Wall)
        &&& all_floor_reachable(mb.map_spec, mb.player_start)
        &&& farthest_from(mb.map_spec, mb.player_start, mb.amulet_start)
        &&& distinct(mb.monster_spawns@)
        &&& forall|i: int|
            0 <= i < mb.monster_spawns@.len() ==> spawnable(
                mb.map_spec,
                mb.player_start,
                #[trigger] mb.monster_spawns@[i],
            )
        &&& mb.monster_spawns@.len() == if spawnable_count(mb.map_spec, mb.player_start, NUM_TILES as nat)
            < NUM_MONSTERS {
            spawnable_count(mb.map_spec, mb.player_start, NUM_TILES as nat)
        } else {
            NUM_MONSTERS as nat
        }
    }

    /// Whether `first`, `starts` and `turns` are draws as this architect
    /// makes them: the turns of the first walk, from the middle, and the
    /// start and the turns of each further walk. Every walk is taken to its
    /// end, a further walk is made only while fewer than `DESIRED_FLOOR`
    /// tiles are floor, and the walks end with enough floor or with the
    /// last of `walks` further walks.
    pub open spec fn digs(&self, first: Seq<i32>, starts: Seq<Point>, turns: Seq<Seq<i32>>) -> bool {
        &&& starts.len() == turns.len()
        &&& starts.len() <= self.walks
        &&& drawn_walk(grid_center(), first)
        &&& forall|k: int| 0 <= k < starts.len() ==> drawn_walk(#[trigger] starts[k], turns[k])
        &&& forall|k: int|
            0 <= k < starts.len() ==> count_floor(#[trigger] dug_after(first, starts, turns, k as nat))
                < DESIRED_FLOOR
        &&& count_floor(dug_after(first, starts, turns, starts.len())) >= DESIRED_FLOOR || starts.len()
            == self.walks
    }

    /// Whether there are draws as this architect makes them whose walks
    /// leave `tiles`.
    pub open spec fn digs_out(&self, tiles: Seq<TileType>) -> bool {
        exists|first: Seq<i32>, starts: Seq<Point>, turns: Seq<Seq<i32>>| #[trigger]
            self.digs(first, starts, turns) && tiles == dug_after(first, starts, turns, starts.len())
    }

    /// Whether there are draws on which this architect gives up: walks that
    /// leave fewer than `DESIRED_FLOOR` tiles floor after the last of them.
    pub open spec fn gives_up(&self) -> bool {
        exists|first: Seq<i32>, starts: Seq<Point>, turns: Seq<Seq<i32>>| #[trigger]
            self.digs(first, starts, turns) && count_floor(dug_after(first, starts, turns, starts.len()))
                < DESIRED_FLOOR
    }

    /// How many of the further walks given by `starts` and `turns` count
    /// for this architect: a start with its turns makes a walk, and no more
    /// than `walks` of them are made.
    pub open spec fn counted(&self, starts: Seq<Point>, turns: Seq<Seq<i32>>) -> nat {
        let given = if starts.len() <= turns.len() {
            starts.len()
        } else {
            turns.len()
        };
        if given <= self.walks {
            given
        } else {
            self.walks as nat
        }
    }

    /// Digs until `DESIRED_FLOOR` tiles are floor, or gives up with
    /// `OutOfAttempts` where `walks` further walks did not get there. The
    /// map is what the walks drawn leave, pruned after each further walk,
    /// and the architect gives up exactly where that is too little floor.
    pub fn new(&self, rng: &mut StdRng) -> (r: Result<MapBuilder, BuildError>)
        ensures
            match r {
                Ok(mb) => Self::builds(mb),
                Err(e) => e == BuildError::OutOfAttempts,
            },
            self.walks == 0 ==> r.is_err(),
            exists|first: Seq<i32>, starts: Seq<Point>, turns: Seq<Seq<i32>>|
                {
                    &&& #[trigger] self.digs(first, starts, turns)
                    &&& r.is_err() <==> count_floor(dug_after(first, starts, turns, starts.len())) < DESIRED_FLOOR
                    &&& r matches Ok(mb) ==> mb.map_spec.tiles@ == dug_after(first, starts, turns, starts.len())
                },
            r.is_err() ==> self.gives_up(),
    {
        let mut mb = MapBuilder::blank();
        mb.fill(TileType::Wall);
        let center = center_point();
        let ghost sources = seq![index_of(center) as usize];
        proof {
            lemma_count_floor_none(mb.map_spec.tiles@);
            assert(mb.map_spec.tiles@ =~= solid());
        }
        self.drunkard(&center, rng, &mut mb.map_spec);
        let ghost first = choose|turns: Seq<i32>|
            {
                &&& forall|i: int| 0 <= i < turns.len() ==> 0 <= #[trigger] turns[i] < 4
                &&& mb.map_spec.tiles@ == #[trigger] walked(solid(), center, turns)
                &&& walk_after(solid(), center, turns, turns.len()).over
            };
        let ghost mut starts: Seq<Point> = Seq::empty();
        let ghost mut turns: Seq<Seq<i32>> = Seq::empty();
        let mut made: usize = 0;
        let mut floor = mb.map_spec.floor_count();
        proof {
            lemma_walk_ends(solid(), solid(), center, first, first.len());
            assert forall|t: usize| t < NUM_TILES && #[trigger] mb.map_spec.is_floor(t as int) implies reach_within(
                mb.map_spec,
                sources,
                t,
                depth_cap(FILL_DEPTH),
            ) by {
                lemma_reach_monotone(mb.map_spec, sources, t, STAGGER_DISTANCE as nat, depth_cap(FILL_DEPTH));
            }
        }
        while floor < DESIRED_FLOOR
            invariant
                mb.wf(),
                mb.rooms@.len() == 0,
                mb.monster_spawns@.len() == 0,
                made <= self.walks,
                center == grid_center(),
                floor == count_floor(mb.map_spec.tiles@),
                self.settled(mb),
                made == 0 ==> floor <= STAGGER_DISTANCE + 1,
                starts.len() == made,
                turns.len() == made,
                drawn_walk(grid_center(), first),
                forall|k: int| 0 <= k < starts.len() ==> drawn_walk(#[trigger] starts[k], turns[k]),
                forall|k: int|
                    0 <= k < starts.len() ==> count_floor(#[trigger] dug_after(first, starts, turns, k as nat))
                        < DESIRED_FLOOR,
                mb.map_spec.tiles@ == dug_after(first, starts, turns, made as nat),
            decreases self.walks - made,
        {
            if made >= self.walks {
                assert(self.digs(first, starts, turns));
                return Err(BuildError::OutOfAttempts);
            }
            let random_pos = Point::new(
                gen_range_i32(rng, 0, TILEMAP_WIDTH),
                gen_range_i32(rng, 0, TILEMAP_HEIGHT),
            );
            let ghost standing = mb.map_spec.tiles@;
            self.drunkard(&random_pos, rng, &mut mb.map_spec);
            let ghost taken = choose|taken: Seq<i32>|
                {
                    &&& forall|i: int| 0 <= i < taken.len() ==> 0 <= #[trigger] taken[i] < 4
                    &&& mb.map_spec.tiles@ == #[trigger] walked(standing, random_pos, taken)
                    &&& walk_after(standing, random_pos, taken, taken.len()).over
                };
            self.prune(&mut mb.map_spec);
            proof {
                let sooner = starts;
                let earlier = turns;
                lemma_walk_ends(standing, solid(), random_pos, taken, taken.len());
                starts = starts.push(random_pos);
                turns = turns.push(taken);
                assert forall|k: int| 0 <= k < starts.len() implies count_floor(
                    #[trigger] dug_after(first, starts, turns, k as nat),
                ) < DESIRED_FLOOR by {
                    lemma_dug_prefix(first, sooner, earlier, starts, turns, k as nat);
                    if k < made {
                        assert(count_floor(dug_after(first, sooner, earlier, k as nat)) < DESIRED_FLOOR);
                    }
                }
                lemma_dug_prefix(first, sooner, earlier, starts, turns, made as nat);
            }
            made = made + 1;
            floor = mb.map_spec.floor_count();
        }
        proof {
            assert(self.digs(first, starts, turns));
        }
        Ok(self.settle(mb, rng))
    }

    /// The level that the walks given make: what `new` builds where the
    /// draws come out as `first`, the turns of the first walk, and as
    /// `starts` and `turns`, the start and the turns of each further walk.
    /// A further walk is made while fewer than `DESIRED_FLOOR` tiles are
    /// floor and a walk is left that counts. `OutOfAttempts` exactly where
    /// the walks made leave too little floor.
    pub fn with_walks(
        &self,
        first: &Vec<i32>,
        starts: &Vec<Point>,
        turns: &Vec<Vec<i32>>,
        rng: &mut StdRng,
    ) -> (r: Result<MapBuilder, BuildError>)
        requires
            forall|k: int| 0 <= k < starts@.len() ==> on_grid(#[trigger] starts@[k]),
        ensures
            match r {
                Ok(mb) => Self::builds(mb) && mb.map_spec.tiles@ == dug_after(
                    first@,
                    starts@,
                    turn_lists(turns@),
                    walks_made(first@, starts@, turn_lists(turns@), 0, self.counted(starts@, turn_lists(turns@))),
                ),
                Err(e) => e == BuildError::OutOfAttempts,
            },
            r.is_err() <==> count_floor(
                dug_after(
                    first@,
                    starts@,
                    turn_lists(turns@),
                    walks_made(first@, starts@, turn_lists(turns@), 0, self.counted(starts@, turn_lists(turns@))),
                ),
            ) < DESIRED_FLOOR,
    {
        let mut mb = MapBuilder::blank();
        mb.fill(TileType::Wall);
        let center = center_point();
        let ghost lists = turn_lists(turns@);
        let ghost budget = self.counted(starts@, lists);
        proof {
            lemma_count_floor_none(mb.map_spec.tiles@);
            assert(mb.map_spec.tiles@ =~= solid());
        }
        self.walk(&center, first, &mut mb.map_spec);
        let mut made: usize = 0;
        let mut floor = mb.map_spec.floor_count();
        while floor < DESIRED_FLOOR && made < self.walks && made < starts.len() && made < turns.len()
            invariant
                mb.wf(),
                mb.rooms@.len() == 0,
                mb.monster_spawns@.len() == 0,
                made <= budget,
                budget == self.counted(starts@, lists),
                lists == turn_lists(turns@),
                center == grid_center(),
                floor == count_floor(mb.map_spec.tiles@),
                mb.map_spec.is_floor(index_of(grid_center())),
                forall|i: int|
                    0 <= i < NUM_TILES ==> (#[trigger] mb.map_spec.tiles@[i] == TileType::Floor
                        || mb.map_spec.tiles@[i] == TileType::Wall),
                made > 0 ==> all_floor_reachable(mb.map_spec, grid_center()),
                made == 0 ==> floor <= STAGGER_DISTANCE + 1,
                forall|k: int| 0 <= k < starts@.len() ==> on_grid(#[trigger] starts@[k]),
                mb.map_spec.tiles@ == dug_after(first@, starts@, lists, made as nat),
                walks_made(first@, starts@, lists, 0, budget) == walks_made(
                    first@,
                    starts@,
                    lists,
                    made as nat,
                    budget,
                ),
            decreases budget - made,
        {
            self.walk(&starts[made], &turns[made], &mut mb.map_spec);
            self.prune(&mut mb.map_spec);
            made = made + 1;
            floor = mb.map_spec.floor_count();
        }
        if floor < DESIRED_FLOOR {
            return Err(BuildError::OutOfAttempts);
        }
        Ok(self.settle(mb, rng))
    }

    /// Whether `mb` holds a map as the walks and the pruning leave it, and
    /// nothing else yet: the middle is floor, every tile is floor or wall,
    /// and no floor is out of reach of the middle.
    pub open spec fn settled(&self, mb: MapBuilder) -> bool {
        &&& mb.wf()
        &&& mb.rooms@.len() == 0
        &&& mb.monster_spawns@.len() == 0
        &&& mb.map_spec.is_floor(index_of(grid_center()))
        &&& forall|i: int|
            0 <= i < NUM_TILES ==> (#[trigger] mb.map_spec.tiles@[i] == TileType::Floor || mb.map_spec.tiles@[i]
                == TileType::Wall)
        &&& all_floor_reachable(mb.map_spec, grid_center())
    }

    /// Puts the player into the middle, the amulet farthest from there,
    /// and draws the monsters' starts.
    fn settle(&self, mb: MapBuilder, rng: &mut StdRng) -> (r: MapBuilder)
        requires
            self.settled(mb),
            count_floor(mb.map_spec.tiles@) >= DESIRED_FLOOR,
        ensures
            Self::builds(r),
            r.map_spec == mb.map_spec,
    {
        let mut mb = mb;
        let center = center_point();
        mb.monster_spawns = mb.spawn_monsters(&center, rng);
        mb.player_start = center;
        mb.amulet_start = mb.find_most_distant();
        mb
    }

    /// Walls up every tile that a walker from the middle does not reach.
    pub fn prune(&self, map: &mut MapSpec)
        requires
            old(map).wf(),
        ensures
            final(map).wf(),
            final(map).revealed_tiles == old(map).revealed_tiles,
            final(map).tiles@ == pruned(old(map).tiles@),
            all_floor_reachable(*final(map), grid_center()),
            old(map).is_floor(index_of(grid_center())) ==> final(map).is_floor(index_of(grid_center())),
            forall|idx: int|
                0 <= idx < NUM_TILES ==> (#[trigger] final(map).tiles@[idx] == old(map).tiles@[idx]
                    || final(map).tiles@[idx] == TileType::Wall),
    {
        let center = center_point();
        let ghost sources = seq![index_of(center) as usize];
        let mut middle: Vec<usize> = Vec::new();
        middle.push(map.point2d_to_index(center));
        assert(middle@ == sources);
        let field = DistanceField::new(&middle, map, FILL_DEPTH);
        let mut idx: usize = 0;
        while idx < NUM_TILES
            invariant
                idx <= NUM_TILES,
                map.wf(),
                old(map).wf(),
                field.wf(),
                map.revealed_tiles == old(map).revealed_tiles,
                forall|k: int|
                    0 <= k < NUM_TILES ==> #[trigger] map.tiles@[k] == if k < idx && field.steps@[k]
                        > PRUNE_BEYOND {
                        TileType::Wall
                    } else {
                        old(map).tiles@[k]
                    },
            decreases NUM_TILES - idx,
        {
            if field.steps[idx] > PRUNE_BEYOND {
                map.tiles[idx] = TileType::Wall;
            }
            idx = idx + 1;
        }
        proof {
            lemma_steps_by_tiles(*old(map), field.steps@, sources, FILL_DEPTH);
            assert(map.tiles@ =~= pruned(old(map).tiles@));
            assert(sources[0] == index_of(center) as usize);
            assert(field.steps@[index_of(center)] != UNREACHABLE);
            assert forall|t: usize| t < NUM_TILES && #[trigger] map.is_floor(t as int) implies reach_within(
                *map,
                sources,
                t,
                depth_cap(FILL_DEPTH),
            ) by {
                let d = field.steps@[t as int];
                assert(d != UNREACHABLE);
                lemma_reach_monotone(*old(map), sources, t, d as nat, depth_cap(FILL_DEPTH));
                lemma_reach_survives_pruning(*old(map), *map, field, sources, t, depth_cap(FILL_DEPTH));
            }
        }
    }

    /// One walk from `start`: the walker turns the tile under its feet into
    /// floor and staggers one step west, east, north or south, as the
    /// four-sided die falls, until it leaves the map or has taken
    /// `STAGGER_DISTANCE` steps. The walk is that of `walk` for the turns
    /// that the die gives, and it does not end before it is over.
    pub fn drunkard(&self, start: &Point, rng: &mut StdRng, map: &mut MapSpec)
        requires
            old(map).wf(),
            on_grid(*start),
        ensures
            final(map).wf(),
            final(map).revealed_tiles == old(map).revealed_tiles,
            exists|turns: Seq<i32>|
                {
                    &&& forall|i: int| 0 <= i < turns.len() ==> 0 <= #[trigger] turns[i] < 4
                    &&& final(map).tiles@ == #[trigger] walked(old(map).tiles@, *start, turns)
                    &&& walk_after(old(map).tiles@, *start, turns, turns.len()).over
                },
            final(map).is_floor(index_of(*start)),
            count_floor(old(map).tiles@) <= count_floor(final(map).tiles@) <= count_floor(old(map).tiles@)
                + STAGGER_DISTANCE + 1,
            forall|idx: int|
                0 <= idx < NUM_TILES && #[trigger] final(map).tiles@[idx] != old(map).tiles@[idx] ==> {
                    &&& final(map).tiles@[idx] == TileType::Floor
                    &&& reach_within(
                        *final(map),
                        seq![index_of(*start) as usize],
                        idx as usize,
                        STAGGER_DISTANCE as nat,
                    )
                },
    {
        let ghost sources = seq![index_of(*start) as usize];
        let ghost mut turns: Seq<i32> = Seq::empty();
        let start_idx = map.point2d_to_index(*start);
        proof {
            lemma_count_floor_update(map.tiles@, start_idx as int, TileType::Floor);
            assert(sources[0] == index_of(*start) as usize);
        }
        map.tiles[start_idx] = TileType::Floor;
        let mut drunkard_pos = *start;
        let mut distance_staggered: usize = 0;
        loop
            invariant_except_break
                turns.len() == distance_staggered,
                walk_after(old(map).tiles@, *start, turns, turns.len()) == (Walk {
                    tiles: map.tiles@,
                    at: drunkard_pos,
                    over: false,
                }),
                reach_within(*map, sources, index_of(drunkard_pos) as usize, distance_staggered as nat),
                forall|idx: int|
                    0 <= idx < NUM_TILES && #[trigger] map.tiles@[idx] != old(map).tiles@[idx] ==> {
                        &&& map.tiles@[idx] == TileType::Floor
                        &&& reach_within(*map, sources, idx as usize, distance_staggered as nat)
                    },
            invariant
                map.wf(),
                on_grid(*start),
                on_grid(drunkard_pos),
                sources == seq![index_of(*start) as usize],
                sources.contains(index_of(*start) as usize),
                map.revealed_tiles == old(map).revealed_tiles,
                distance_staggered <= STAGGER_DISTANCE,
                forall|i: int| 0 <= i < turns.len() ==> 0 <= #[trigger] turns[i] < 4,
                map.is_floor(index_of(*start)),
                map.is_floor(index_of(drunkard_pos)),
                count_floor(old(map).tiles@) <= count_floor(map.tiles@) <= count_floor(old(map).tiles@)
                    + distance_staggered + 1,
            ensures
                map.wf(),
                map.revealed_tiles == old(map).revealed_tiles,
                forall|i: int| 0 <= i < turns.len() ==> 0 <= #[trigger] turns[i] < 4,
                map.tiles@ == walked(old(map).tiles@, *start, turns),
                walk_after(old(map).tiles@, *start, turns, turns.len()).over,
                map.is_floor(index_of(*start)),
                distance_staggered <= STAGGER_DISTANCE,
                count_floor(old(map).tiles@) <= count_floor(map.tiles@) <= count_floor(old(map).tiles@)
                    + STAGGER_DISTANCE + 1,
                forall|idx: int|
                    0 <= idx < NUM_TILES && #[trigger] map.tiles@[idx] != old(map).tiles@[idx] ==> {
                        &&& map.tiles@[idx] == TileType::Floor
                        &&& reach_within(*map, sources, idx as usize, distance_staggered as nat)
                    },
            decreases STAGGER_DISTANCE - distance_staggered,
        {
            let ghost before = *map;
            let ghost taken = turns;
            let turn = gen_range_i32(rng, 0, 4);
            proof {
                turns = turns.push(turn);
                lemma_walk_prefix(old(map).tiles@, *start, taken, turns, taken.len());
            }
            match self.stagger(drunkard_pos, distance_staggered, turn, map) {
                Some(next) => {
                    proof {
                        lemma_count_floor_update(before.tiles@, index_of(next), TileType::Floor);
                        assert forall|idx: int| before.is_floor(idx) implies #[trigger] map.is_floor(idx) by {}
                        lemma_reach_more_floor(
                            before,
                            *map,
                            sources,
                            index_of(drunkard_pos) as usize,
                            distance_staggered as nat,
                        );
                        assert(edge_neighbours(index_of(drunkard_pos), index_of(next)));
                        assert(map.is_exit(index_of(drunkard_pos), index_of(next)));
                        assert(reach_within(*map, sources, index_of(next) as usize, (distance_staggered + 1) as nat));
                        assert forall|idx: int|
                            0 <= idx < NUM_TILES && #[trigger] map.tiles@[idx] != old(map).tiles@[idx] implies reach_within(
                            *map,
                            sources,
                            idx as usize,
                            (distance_staggered + 1) as nat,
                        ) by {
                            if idx != index_of(next) {
                                lemma_reach_more_floor(
                                    before,
                                    *map,
                                    sources,
                                    idx as usize,
                                    distance_staggered as nat,
                                );
                                lemma_reach_monotone(
                                    *map,
                                    sources,
                                    idx as usize,
                                    distance_staggered as nat,
                                    (distance_staggered + 1) as nat,
                                );
                            }
                        }
                    }
                    drunkard_pos = next;
                    distance_staggered = distance_staggered + 1;
                },
                None => {
                    proof {
                        assert forall|idx: int| before.is_floor(idx) implies #[trigger] map.is_floor(idx) by {}
                        assert forall|idx: int|
                            0 <= idx < NUM_TILES && #[trigger] map.tiles@[idx] != old(map).tiles@[idx] implies reach_within(
                            *map,
                            sources,
                            idx as usize,
                            distance_staggered as nat,
                        ) by {
                            lemma_reach_more_floor(
                                before,
                                *map,
                                sources,
                                idx as usize,
                                distance_staggered as nat,
                            );
                        }
                    }
                    break ;
                },
            }
        }
        proof {
            assert forall|idx: int|
                0 <= idx < NUM_TILES && #[trigger] map.tiles@[idx] != old(map).tiles@[idx] implies reach_within(
                *map,
                sources,
                idx as usize,
                STAGGER_DISTANCE as nat,
            ) by {
                lemma_reach_monotone(
                    *map,
                    sources,
                    idx as usize,
                    distance_staggered as nat,
                    STAGGER_DISTANCE as nat,
                );
            }
        }
    }

    /// The walk from `start` that takes `turns`, one after the other: the
    /// walker turns the tile under its feet into floor and takes the step
    /// that the next turn stands for, until it leaves the map, has taken
    /// `STAGGER_DISTANCE` steps, or is out of turns.
    pub fn walk(&self, start: &Point, turns: &Vec<i32>, map: &mut MapSpec)
        requires
            old(map).wf(),
            on_grid(*start),
        ensures
            final(map).wf(),
            final(map).revealed_tiles == old(map).revealed_tiles,
            final(map).tiles@ == walked(old(map).tiles@, *start, turns@),
            final(map).is_floor(index_of(*start)),
            count_floor(old(map).tiles@) <= count_floor(final(map).tiles@) <= count_floor(old(map).tiles@)
                + STAGGER_DISTANCE + 1,
            forall|idx: int|
                0 <= idx < NUM_TILES ==> (#[trigger] final(map).tiles@[idx] == old(map).tiles@[idx]
                    || final(map).tiles@[idx] == TileType::Floor),
    {
        let start_idx = map.point2d_to_index(*start);
        proof {
            lemma_count_floor_update(map.tiles@, start_idx as int, TileType::Floor);
        }
        map.tiles[start_idx] = TileType::Floor;
        let mut at = *start;
        let mut taken: usize = 0;
        while taken < turns.len()
            invariant
                map.wf(),
                on_grid(at),
                on_grid(*start),
                taken <= turns@.len(),
                taken <= STAGGER_DISTANCE,
                map.revealed_tiles == old(map).revealed_tiles,
                map.is_floor(index_of(*start)),
                count_floor(old(map).tiles@) <= count_floor(map.tiles@) <= count_floor(old(map).tiles@) + taken
                    + 1,
                forall|idx: int|
                    0 <= idx < NUM_TILES ==> (#[trigger] map.tiles@[idx] == old(map).tiles@[idx]
                        || map.tiles@[idx] == TileType::Floor),
                walk_after(old(map).tiles@, *start, turns@, taken as nat) == (Walk {
                    tiles: map.tiles@,
                    at,
                    over: false,
                }),
            decreases turns@.len() - taken,
        {
            let ghost before = map.tiles@;
            match self.stagger(at, taken, turns[taken], map) {
                Some(next) => {
                    proof {
                        lemma_count_floor_update(before, index_of(next), TileType::Floor);
                    }
                    at = next;
                    taken = taken + 1;
                },
                None => {
                    proof {
                        lemma_walk_over(old(map).tiles@, *start, turns@, (taken + 1) as nat, turns@.len());
                    }
                    return ;
                },
            }
        }
    }

    /// One step of a walker who stands on `at` and has taken `taken` steps:
    /// the step that `turn` stands for, onto a tile that becomes floor. The
    /// walk is over, and nothing changes, where the step leads off the map
    /// or `STAGGER_DISTANCE` steps are taken.
    fn stagger(&self, at: Point, taken: usize, turn: i32, map: &mut MapSpec) -> (next: Option<Point>)
        requires
            old(map).wf(),
            on_grid(at),
        ensures
            final(map).wf(),
            final(map).revealed_tiles == old(map).revealed_tiles,
            next == staggered(at, taken as nat, turn),
            final(map).tiles@ == match next {
                Some(p) => old(map).tiles@.update(index_of(p), TileType::Floor),
                None => old(map).tiles@,
            },
            next matches Some(p) ==> on_grid(p) && taken < STAGGER_DISTANCE,
    {
        let next = at + step_for(turn);
        if !map.in_bounds(next) || taken >= STAGGER_DISTANCE {
            return None;
        }
        let idx = map.point2d_to_index(next);
        map.tiles[idx] = TileType::Floor;
        Some(next)
    }
}

/// A map that holds `tiles`.
pub open spec fn level_of(tiles: Seq<TileType>) -> MapSpec {
    choose|map: MapSpec| map.tiles@ == tiles
}

/// The map of walls that the digging starts from.
pub open spec fn solid() -> Seq<TileType> {
    Seq::new(NUM_TILES as nat, |idx: int| TileType::Wall)
}

/// `tiles` with every tile walled up that a walker from the middle does
/// not reach.
pub open spec fn pruned(tiles: Seq<TileType>) -> Seq<TileType> {
    let steps = distances(level_of(tiles), seq![index_of(grid_center()) as usize], FILL_DEPTH);
    Seq::new(
        tiles.len(),
        |idx: int|
            if steps[idx] > PRUNE_BEYOND {
                TileType::Wall
            } else {
                tiles[idx]
            },
    )
}

/// The turns of each of `lists`.
pub open spec fn turn_lists(lists: Seq<Vec<i32>>) -> Seq<Seq<i32>> {
    Seq::new(lists.len(), |k: int| lists[k]@)
}

/// Whether `turns` are the draws of one whole walk from `start`: each the
/// fall of a four-sided die, and the walk is over with the last of them.
pub open spec fn drawn_walk(start: Point, turns: Seq<i32>) -> bool {
    &&& on_grid(start)
    &&& forall|i: int| 0 <= i < turns.len() ==> 0 <= #[trigger] turns[i] < 4
    &&& walk_after(solid(), start, turns, turns.len()).over
}

/// The tiles after the first walk, which starts in the middle of a map of
/// walls and takes the turns of `first`, and `n` further walks: walk `k`
/// starts on `starts[k]` and takes `turns[k]`, and after each further walk
/// what is out of reach of the middle is walled up.
pub open spec fn dug_after(first: Seq<i32>, starts: Seq<Point>, turns: Seq<Seq<i32>>, n: nat) -> Seq<TileType>
    decreases n,
{
    if n == 0 {
        walked(solid(), grid_center(), first)
    } else {
        pruned(walked(dug_after(first, starts, turns, (n - 1) as nat), starts[n - 1], turns[n - 1]))
    }
}

/// How many further walks are made where `done` are made already and
/// `budget` may be made in all: one more while fewer than `DESIRED_FLOOR`
/// tiles are floor.
pub open spec fn walks_made(first: Seq<i32>, starts: Seq<Point>, turns: Seq<Seq<i32>>, done: nat, budget: nat) -> nat
    decreases budget - done,
{
    if done >= budget || count_floor(dug_after(first, starts, turns, done)) >= DESIRED_FLOOR {
        done
    } else {
        walks_made(first, starts, turns, done + 1, budget)
    }
}

/// While the floor stays short, every walk of the budget is made.
pub proof fn lemma_walks_all_made(first: Seq<i32>, starts: Seq<Point>, turns: Seq<Seq<i32>>, done: nat, budget: nat)
    requires
        done <= budget,
        forall|k: int|
            done <= k < budget ==> count_floor(#[trigger] dug_after(first, starts, turns, k as nat)) < DESIRED_FLOOR,
    ensures
        walks_made(first, starts, turns, done, budget) == budget,
    decreases budget - done,
{
    if done < budget {
        let k = done as int;
        assert(count_floor(dug_after(first, starts, turns, k as nat)) < DESIRED_FLOOR);
        lemma_walks_all_made(first, starts, turns, done + 1, budget);
    }
}

/// What the architect builds from its own draws is what `with_walks` builds
/// from the same draws: each of the walks drawn counts and is made, so both
/// end on the same tiles.
pub proof fn lemma_draws_are_walks(
    architect: DrunkardsWalkArchitect,
    first: Seq<i32>,
    starts: Seq<Point>,
    turns: Seq<Seq<i32>>,
)
    requires
        architect.digs(first, starts, turns),
    ensures
        architect.counted(starts, turns) == starts.len(),
        walks_made(first, starts, turns, 0, architect.counted(starts, turns)) == starts.len(),
{
    lemma_walks_all_made(first, starts, turns, 0, starts.len());
}

/// The steps over a map are those over any map with the same tiles.
pub proof fn lemma_steps_by_tiles(map: MapSpec, steps: Seq<u32>, sources: Seq<usize>, max_depth: u32)
    requires
        measured(steps, map, sources, max_depth),
    ensures
        level_of(map.tiles@).tiles@ == map.tiles@,
        distances(level_of(map.tiles@), sources, max_depth) == steps,
{
    let twin = level_of(map.tiles@);
    assert(twin.tiles@ == map.tiles@);
    let cap = depth_cap(max_depth);
    assert forall|idx: int| map.is_floor(idx) <==> twin.is_floor(idx) by {}
    assert forall|t: usize| t < NUM_TILES implies {
        let d = #[trigger] steps[t as int];
        if d == UNREACHABLE {
            !reach_within(twin, sources, t, cap)
        } else {
            d <= cap && shortest(twin, sources, t, d as nat)
        }
    } by {
        let d = steps[t as int];
        if d == UNREACHABLE {
            if reach_within(twin, sources, t, cap) {
                lemma_reach_more_floor(twin, map, sources, t, cap);
            }
        } else {
            lemma_reach_more_floor(map, twin, sources, t, d as nat);
            if d > 0 && reach_within(twin, sources, t, (d - 1) as nat) {
                lemma_reach_more_floor(twin, map, sources, t, (d - 1) as nat);
            }
        }
    }
    lemma_distances_unique(steps, twin, sources, max_depth);
}

/// Whether a walk is over depends on its start and its turns, not on the
/// tiles that it crosses.
pub proof fn lemma_walk_ends(tiles: Seq<TileType>, other: Seq<TileType>, start: Point, turns: Seq<i32>, n: nat)
    ensures
        walk_after(tiles, start, turns, n).over == walk_after(other, start, turns, n).over,
        walk_after(tiles, start, turns, n).at == walk_after(other, start, turns, n).at,
    decreases n,
{
    if n > 0 {
        lemma_walk_ends(tiles, other, start, turns, (n - 1) as nat);
    }
}

/// The first walks decide what is dug after them.
pub proof fn lemma_dug_prefix(
    first: Seq<i32>,
    starts: Seq<Point>,
    turns: Seq<Seq<i32>>,
    more_starts: Seq<Point>,
    more_turns: Seq<Seq<i32>>,
    n: nat,
)
    requires
        n <= starts.len() <= more_starts.len(),
        n <= turns.len() <= more_turns.len(),
        forall|k: int| 0 <= k < starts.len() ==> starts[k] == more_starts[k],
        forall|k: int| 0 <= k < turns.len() ==> turns[k] == more_turns[k],
    ensures
        dug_after(first, more_starts, more_turns, n) == dug_after(first, starts, turns, n),
    decreases n,
{
    if n > 0 {
        lemma_dug_prefix(first, starts, turns, more_starts, more_turns, (n - 1) as nat);
    }
}

/// Where a walk stands: the tiles as the walker has left them, the tile
/// under its feet, and whether the walk is over.
pub struct Walk {
    pub tiles: Seq<TileType>,
    pub at: Point,
    pub over: bool,
}

/// Where a walker who stands on `at` and has taken `taken` steps gets with
/// the step that `turn` stands for; nowhere where the step leads off the
/// map or `STAGGER_DISTANCE` steps are taken.
pub open spec fn staggered(at: Point, taken: nat, turn: i32) -> Option<Point> {
    let step = stagger(turn);
    let next = Point { x: (at.x + step.x) as i32, y: (at.y + step.y) as i32 };
    if on_grid(next) && taken < STAGGER_DISTANCE {
        Some(next)
    } else {
        None
    }
}

/// The walk from `start` over `tiles` after the first `n` of `turns`.
pub open spec fn walk_after(tiles: Seq<TileType>, start: Point, turns: Seq<i32>, n: nat) -> Walk
    decreases n,
{
    if n == 0 {
        Walk { tiles: tiles.update(index_of(start), TileType::Floor), at: start, over: false }
    } else {
        let before = walk_after(tiles, start, turns, (n - 1) as nat);
        if before.over {
            before
        } else {
            match staggered(before.at, (n - 1) as nat, turns[n - 1]) {
                Some(next) => Walk {
                    tiles: before.tiles.update(index_of(next), TileType::Floor),
                    at: next,
                    over: false,
                },
                None => Walk { over: true, ..before },
            }
        }
    }
}

/// The tiles once the walk from `start` that takes `turns` is over: floor
/// wherever the walker stood, the others as they were.
pub open spec fn walked(tiles: Seq<TileType>, start: Point, turns: Seq<i32>) -> Seq<TileType> {
    walk_after(tiles, start, turns, turns.len()).tiles
}

/// A walk that is over stays where it is.
pub proof fn lemma_walk_over(tiles: Seq<TileType>, start: Point, turns: Seq<i32>, n: nat, m: nat)
    requires
        n <= m,
        walk_after(tiles, start, turns, n).over,
    ensures
        walk_after(tiles, start, turns, m) == walk_after(tiles, start, turns, n),
    decreases m,
{
    if n < m {
        lemma_walk_over(tiles, start, turns, n, (m - 1) as nat);
    }
}

/// The first turns of a walk decide its first steps.
pub proof fn lemma_walk_prefix(tiles: Seq<TileType>, start: Point, turns: Seq<i32>, more: Seq<i32>, n: nat)
    requires
        n <= turns.len() <= more.len(),
        forall|i: int| 0 <= i < turns.len() ==> turns[i] == more[i],
    ensures
        walk_after(tiles, start, more, n) == walk_after(tiles, start, turns, n),
    decreases n,
{
    if n > 0 {
        lemma_walk_prefix(tiles, start, turns, more, (n - 1) as nat);
    }
}

} // verus!
