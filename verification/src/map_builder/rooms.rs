//! Rooms and corridors: rectangular rooms that overlap nowhere, each joined
//! to the next by an elbow of floor.

use vstd::prelude::*;
use rand::rngs::StdRng;
use crate::map::{TileType, NUM_TILES};
use crate::flood_fill::reach_within;
use crate::map::{index_of, on_grid, point_at, MapSpec};
use crate::map_builder::{
    carved_by, center_columns, corridors_dug, drawn_room, dug, farthest_from, joined, lemma_joined_both_ways,
    lemma_joined_reach, lemma_rooms_kept, lemma_walk_block, lemma_walk_elbow, on_corridor, on_elbow,
    overlaps_any, rooms_drawn,
    rooms_kept, stable_order, BuildError, MapBuilder, NUM_ROOMS,
};
use crate::utils::{Point, Rect};

verus! {

#[derive(PartialEq, Eq, Structural, Clone, Copy, Debug)]
pub struct RoomsArchitect {
    /// How many rooms the architect draws before it gives up.
    pub attempts: usize,
}

/// Whether a room of `rooms` carves tile `idx`.
pub open spec fn in_a_room(rooms: Seq<Rect>, idx: int) -> bool {
    exists|i: int| 0 <= i < rooms.len() && carved_by(#[trigger] rooms[i], idx)
}

/// Whether `tiles` are those of a level of `rooms`, joined in `order` by
/// corridors that take the elbows of `turns`: floor in the rooms and on the
/// corridors, wall everywhere else.
pub open spec fn laid_out(tiles: Seq<TileType>, rooms: Seq<Rect>, order: Seq<usize>, turns: Seq<bool>) -> bool {
    &&& stable_order(center_columns(rooms), order)
    &&& turns.len() == order.len()
    &&& forall|idx: int|
        0 <= idx < NUM_TILES ==> #[trigger] tiles[idx] == if in_a_room(rooms, idx) || on_corridor(
            rooms,
            order,
            turns,
            idx,
        ) {
            TileType::Floor
        } else {
            TileType::Wall
        }
}

impl RoomsArchitect {
    /// Whether `mb` is a level as this architect builds them.
    pub open spec fn builds(mb: MapBuilder) -> bool {
        &&& mb.wf()
        &&& mb.rooms@.len() == NUM_ROOMS
        &&& forall|i: int|
            0 <= i < mb.rooms@.len() ==> {
                &&& drawn_room(#[trigger] mb.rooms@[i])
                &&& !overlaps_any(mb.rooms@.take(i), mb.rooms@[i])
            }
        &&& mb.player_start == mb.rooms@[0].center_spec()
        &&& farthest_from(mb.map_spec, mb.player_start, mb.amulet_start)
        &&& mb.monster_spawns@.len() == NUM_ROOMS - 1
        &&& forall|i: int|
            0 <= i < mb.monster_spawns@.len() ==> #[trigger] mb.monster_spawns@[i] == mb.rooms@[i + 1].center_spec()
        &&& exists|order: Seq<usize>, turns: Seq<bool>| #[trigger]
            laid_out(mb.map_spec.tiles@, mb.rooms@, order, turns)
    }

    /// Whether `standing` are the rooms of a level without floor once this
    /// architect has drawn `draws`: it draws until `NUM_ROOMS` stand or
    /// `attempts` rooms were drawn.
    pub open spec fn draws_rooms(&self, draws: Seq<Rect>, standing: Seq<Rect>) -> bool {
        rooms_drawn(Seq::empty(), standing, draws, self.attempts)
    }

    /// Whether there are draws that leave this architect short of rooms.
    pub open spec fn gives_up(&self) -> bool {
        exists|draws: Seq<Rect>, standing: Seq<Rect>| #[trigger]
            rooms_drawn(Seq::empty(), standing, draws, self.attempts) && standing.len() < NUM_ROOMS
    }

    /// Whether `mb` holds `NUM_ROOMS` rooms that overlap nowhere, carved
    /// out of a map of walls, and nothing else yet.
    pub open spec fn roomy(mb: MapBuilder) -> bool {
        &&& mb.wf()
        &&& mb.rooms@.len() == NUM_ROOMS
        &&& mb.monster_spawns@.len() == 0
        &&& forall|i: int|
            0 <= i < mb.rooms@.len() ==> {
                &&& drawn_room(#[trigger] mb.rooms@[i])
                &&& !overlaps_any(mb.rooms@.take(i), mb.rooms@[i])
            }
        &&& forall|idx: int|
            0 <= idx < NUM_TILES ==> #[trigger] mb.map_spec.tiles@[idx] == if in_a_room(mb.rooms@, idx) {
                TileType::Floor
            } else {
                TileType::Wall
            }
    }

    /// Builds a level of `NUM_ROOMS` rooms, or gives up with
    /// `OutOfAttempts` once `attempts` rooms were drawn and fewer stand:
    /// the rooms of the level are those that stand after the draws, and the
    /// architect gives up exactly where they are too few.
    pub fn new(&self, rng: &mut StdRng) -> (r: Result<MapBuilder, BuildError>)
        ensures
            match r {
                Ok(mb) => Self::builds(mb),
                Err(e) => e == BuildError::OutOfAttempts,
            },
            self.attempts < NUM_ROOMS ==> r.is_err(),
            exists|draws: Seq<Rect>, standing: Seq<Rect>|
                {
                    &&& #[trigger] self.draws_rooms(draws, standing)
                    &&& r.is_err() <==> standing.len() < NUM_ROOMS
                    &&& r matches Ok(mb) ==> mb.rooms@ == standing
                },
            r.is_err() ==> self.gives_up(),
    {
        let mut mb = MapBuilder::blank();
        mb.fill(TileType::Wall);
        let complete = mb.build_random_rooms(rng, self.attempts);
        let ghost standing = mb.rooms@;
        let ghost draws = choose|draws: Seq<Rect>| #[trigger]
            rooms_drawn(Seq::<Rect>::empty(), standing, draws, self.attempts);
        assert(self.draws_rooms(draws, standing));
        if !complete {
            return Err(BuildError::OutOfAttempts);
        }
        proof {
            assert forall|i: int| 0 <= i < mb.rooms@.len() implies {
                &&& drawn_room(#[trigger] mb.rooms@[i])
                &&& !overlaps_any(mb.rooms@.take(i), mb.rooms@[i])
            } by {}
        }
        Ok(self.furnish(mb, rng))
    }

    /// The level that the rooms of `draws` make, drawn in that order: what
    /// `new` builds where the draws come out as `draws`. Of `draws` the
    /// first `attempts` count, and none once `NUM_ROOMS` rooms stand.
    /// `OutOfAttempts` exactly where fewer stand in the end.
    pub fn with_rooms(&self, draws: &Vec<Rect>, rng: &mut StdRng) -> (r: Result<MapBuilder, BuildError>)
        requires
            forall|i: int| 0 <= i < draws@.len() ==> drawn_room(#[trigger] draws@[i]),
        ensures
            match r {
                Ok(mb) => Self::builds(mb) && mb.rooms@ == rooms_kept(
                    Seq::empty(),
                    draws@,
                    self.counted(draws@.len()),
                ),
                Err(e) => e == BuildError::OutOfAttempts,
            },
            r.is_err() <==> rooms_kept(Seq::empty(), draws@, self.counted(draws@.len())).len() < NUM_ROOMS,
    {
        let mut mb = MapBuilder::blank();
        mb.fill(TileType::Wall);
        let mut tried: usize = 0;
        while tried < draws.len() && tried < self.attempts
            invariant
                mb.wf(),
                tried <= draws@.len(),
                tried <= self.attempts,
                mb.monster_spawns@.len() == 0,
                mb.rooms@ == rooms_kept(Seq::empty(), draws@, tried as nat),
                mb.rooms@.len() <= NUM_ROOMS,
                forall|i: int| 0 <= i < draws@.len() ==> drawn_room(#[trigger] draws@[i]),
                forall|i: int|
                    0 <= i < mb.rooms@.len() ==> {
                        &&& drawn_room(#[trigger] mb.rooms@[i])
                        &&& !overlaps_any(mb.rooms@.take(i), mb.rooms@[i])
                    },
                forall|idx: int|
                    0 <= idx < NUM_TILES ==> #[trigger] mb.map_spec.tiles@[idx] == if in_a_room(mb.rooms@, idx) {
                        TileType::Floor
                    } else {
                        TileType::Wall
                    },
            decreases draws@.len() - tried,
        {
            if mb.rooms.len() < NUM_ROOMS {
                let ghost before = mb.rooms@;
                let room = draws[tried];
                let placed = mb.place_room(room);
                proof {
                    if placed {
                        let n = before.len() as int;
                        assert(mb.rooms@.take(n) == before);
                        assert forall|i: int| 0 <= i < mb.rooms@.len() implies {
                            &&& drawn_room(#[trigger] mb.rooms@[i])
                            &&& !overlaps_any(mb.rooms@.take(i), mb.rooms@[i])
                        } by {
                            if i < n {
                                assert(mb.rooms@[i] == before[i]);
                                assert(mb.rooms@.take(i) == before.take(i));
                            }
                        }
                        assert forall|idx: int| 0 <= idx < NUM_TILES implies #[trigger] mb.map_spec.tiles@[idx]
                            == if in_a_room(mb.rooms@, idx) {
                            TileType::Floor
                        } else {
                            TileType::Wall
                        } by {
                            if carved_by(room, idx) {
                                assert(carved_by(mb.rooms@[n], idx));
                            } else if in_a_room(before, idx) {
                                let i = choose|i: int| 0 <= i < before.len() && carved_by(#[trigger] before[i], idx);
                                assert(carved_by(mb.rooms@[i], idx));
                            } else if in_a_room(mb.rooms@, idx) {
                                let i = choose|i: int|
                                    0 <= i < mb.rooms@.len() && carved_by(#[trigger] mb.rooms@[i], idx);
                                assert(i < n ==> mb.rooms@[i] == before[i]);
                            }
                        }
                    }
                }
            }
            tried = tried + 1;
        }
        if mb.rooms.len() < NUM_ROOMS {
            return Err(BuildError::OutOfAttempts);
        }
        Ok(self.furnish(mb, rng))
    }

    /// How many of `given` draws count for this architect.
    pub open spec fn counted(&self, given: nat) -> nat {
        if given <= self.attempts {
            given
        } else {
            self.attempts as nat
        }
    }

    /// Joins the rooms of `mb` by corridors, puts the player into the first
    /// room, a monster into each other room and the amulet farthest from
    /// the player.
    fn furnish(&self, mb: MapBuilder, rng: &mut StdRng) -> (r: MapBuilder)
        requires
            Self::roomy(mb),
        ensures
            Self::builds(r),
            r.rooms@ == mb.rooms@,
    {
        let mut mb = mb;
        assert(mb.rooms@.take(0) == Seq::<Rect>::empty());
        let ghost roomy = mb.map_spec.tiles@;
        mb.build_corridors(rng);
        mb.player_start = mb.rooms[0].center();
        mb.amulet_start = mb.find_most_distant();
        let ghost rooms = mb.rooms@;
        let ghost map = mb.map_spec;
        proof {
            let (order, turns) = choose|order: Seq<usize>, turns: Seq<bool>| #[trigger]
                corridors_dug(roomy, map.tiles@, rooms, order, turns);
            assert forall|idx: int| 0 <= idx < NUM_TILES implies #[trigger] map.tiles@[idx] == if in_a_room(
                rooms,
                idx,
            ) || on_corridor(rooms, order, turns, idx) {
                TileType::Floor
            } else {
                TileType::Wall
            } by {
                assert(roomy[idx] == if in_a_room(rooms, idx) {
                    TileType::Floor
                } else {
                    TileType::Wall
                });
            }
            assert(laid_out(map.tiles@, rooms, order, turns));
        }
        let mut i: usize = 1;
        while i < mb.rooms.len()
            invariant
                1 <= i <= mb.rooms@.len(),
                mb.monster_spawns@.len() == i - 1,
                forall|k: int| 0 <= k < mb.rooms@.len() ==> drawn_room(#[trigger] mb.rooms@[k]),
                forall|k: int|
                    0 <= k < mb.monster_spawns@.len() ==> #[trigger] mb.monster_spawns@[k] == mb.rooms@[k + 1].center_spec(),
                mb.wf(),
                farthest_from(mb.map_spec, mb.player_start, mb.amulet_start),
                mb.rooms@ == rooms,
                mb.map_spec == map,
                mb.player_start == mb.rooms@[0].center_spec(),
            decreases mb.rooms@.len() - i,
        {
            let c = mb.rooms[i].center();
            mb.monster_spawns.push(c);
            i = i + 1;
        }
        mb
    }
}

/// What the architect builds from its own draws is what `with_rooms`
/// builds from the same draws: each of the rooms drawn counts, and the same
/// rooms stand.
pub proof fn lemma_draws_are_rooms(architect: RoomsArchitect, draws: Seq<Rect>, standing: Seq<Rect>)
    requires
        architect.draws_rooms(draws, standing),
    ensures
        architect.counted(draws.len()) == draws.len(),
        rooms_kept(Seq::empty(), draws, architect.counted(draws.len())) == standing,
{
    lemma_rooms_kept(Seq::empty(), draws, draws.len());
}

/// Whether a walker who starts on `from` can stand on `to` after some
/// number of steps.
pub open spec fn linked(map: MapSpec, from: Point, to: int) -> bool {
    exists|n: nat| #[trigger] reach_within(map, seq![index_of(from) as usize], to as usize, n)
}

/// The centre of a drawn room lies in the room, on the map.
pub proof fn lemma_center_in_room(room: Rect)
    requires
        drawn_room(room),
    ensures
        on_grid(room.center_spec()),
        room.covers(room.center_spec()),
        carved_by(room, index_of(room.center_spec())),
{
}

/// Each corridor of a laid-out level is dug.
pub proof fn lemma_corridor_dug(map: MapSpec, rooms: Seq<Rect>, order: Seq<usize>, turns: Seq<bool>, k: int)
    requires
        map.wf(),
        laid_out(map.tiles@, rooms, order, turns),
        1 <= k < order.len(),
    ensures
        dug(map, rooms[order[k - 1] as int].center_spec(), rooms[order[k] as int].center_spec(), turns[k]),
{
    let a = rooms[order[k - 1] as int].center_spec();
    let b = rooms[order[k] as int].center_spec();
    assert forall|idx: int| 0 <= idx < NUM_TILES && on_elbow(a, b, turns[k], idx) implies #[trigger] map.is_floor(
        idx,
    ) by {
        assert(on_corridor(rooms, order, turns, idx));
        assert(map.tiles@[idx] == TileType::Floor);
    }
}

/// A walker on the centre of one room reaches the centre of every other:
/// the corridors lead from room to room along `order`.
pub proof fn lemma_centers_linked(
    map: MapSpec,
    rooms: Seq<Rect>,
    order: Seq<usize>,
    turns: Seq<bool>,
    from: int,
    to: int,
)
    requires
        map.wf(),
        laid_out(map.tiles@, rooms, order, turns),
        forall|i: int| 0 <= i < rooms.len() ==> drawn_room(#[trigger] rooms[i]),
        0 <= from < order.len(),
        0 <= to < order.len(),
    ensures
        linked(
            map,
            rooms[order[from] as int].center_spec(),
            index_of(rooms[order[to] as int].center_spec()),
        ),
    decreases vstd::math::abs(to - from),
{
    let start = rooms[order[from] as int].center_spec();
    let sources = seq![index_of(start) as usize];
    assert(sources[0] == index_of(start) as usize);
    lemma_center_in_room(rooms[order[from] as int]);
    lemma_center_in_room(rooms[order[to] as int]);
    if from == to {
        assert(reach_within(map, sources, index_of(start) as usize, 0));
    } else {
        let near = if from < to { to - 1 } else { to + 1 };
        lemma_centers_linked(map, rooms, order, turns, from, near);
        let n = choose|n: nat| #[trigger]
            reach_within(map, sources, index_of(rooms[order[near] as int].center_spec()) as usize, n);
        let a = rooms[order[near] as int].center_spec();
        let b = rooms[order[to] as int].center_spec();
        lemma_center_in_room(rooms[order[near] as int]);
        if from < to {
            lemma_corridor_dug(map, rooms, order, turns, to);
            assert(joined(map, a, b));
        } else {
            lemma_corridor_dug(map, rooms, order, turns, near);
            assert(joined(map, b, a));
            lemma_joined_both_ways(map, b, a);
        }
        lemma_joined_reach(map, sources, a, b, n);
    }
}

/// No floor of a level of rooms and corridors is out of reach: a walker on
/// the player's start can stand on every floor tile.
pub proof fn lemma_rooms_all_linked(mb: MapBuilder, t: int)
    requires
        RoomsArchitect::builds(mb),
        0 <= t < NUM_TILES,
        mb.map_spec.is_floor(t),
    ensures
        linked(mb.map_spec, mb.player_start, t),
{
    let map = mb.map_spec;
    let rooms = mb.rooms@;
    let (order, turns) = choose|order: Seq<usize>, turns: Seq<bool>| #[trigger]
        laid_out(map.tiles@, rooms, order, turns);
    let sources = seq![index_of(mb.player_start) as usize];
    assert(order.contains(0usize));
    let first = choose|first: int| 0 <= first < order.len() && order[first] == 0usize;
    assert forall|i: int| 0 <= i < rooms.len() implies drawn_room(#[trigger] rooms[i]) by {}
    if in_a_room(rooms, t) {
        let i = choose|i: int| 0 <= i < rooms.len() && carved_by(#[trigger] rooms[i], t);
        assert(order.contains(i as usize));
        let at = choose|at: int| 0 <= at < order.len() && order[at] == i as usize;
        lemma_centers_linked(map, rooms, order, turns, first, at);
        let n = choose|n: nat| #[trigger] reach_within(map, sources, index_of(rooms[i].center_spec()) as usize, n);
        lemma_center_in_room(rooms[i]);
        assert forall|idx: int| 0 <= idx < NUM_TILES && rooms[i].covers(point_at(idx)) implies #[trigger] map.is_floor(
            idx,
        ) by {
            assert(carved_by(rooms[i], idx));
            assert(in_a_room(rooms, idx));
            assert(map.tiles@[idx] == TileType::Floor);
        }
        lemma_walk_block(map, sources, rooms[i], rooms[i].center_spec(), point_at(t), n);
    } else {
        assert(on_corridor(rooms, order, turns, t));
        let k = choose|k: int|
            1 <= k < order.len() && #[trigger] on_elbow(
                rooms[order[k - 1] as int].center_spec(),
                rooms[order[k] as int].center_spec(),
                turns[k],
                t,
            );
        let a = rooms[order[k - 1] as int].center_spec();
        let b = rooms[order[k] as int].center_spec();
        lemma_centers_linked(map, rooms, order, turns, first, k - 1);
        let n = choose|n: nat| #[trigger] reach_within(map, sources, index_of(a) as usize, n);
        lemma_center_in_room(rooms[order[k - 1] as int]);
        lemma_center_in_room(rooms[order[k] as int]);
        lemma_corridor_dug(map, rooms, order, turns, k);
        lemma_walk_elbow(map, sources, a, b, turns[k], t, n);
    }
}

} // verus!
