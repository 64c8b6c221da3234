//! Leaving a level, and starting the next one or a new game.

use vstd::prelude::*;
use rand::rngs::StdRng;
use crate::components::{Player, Sight};
use crate::map::{index_of, MapSpec, TileType};
use crate::map_builder::{gives_up_with, Architect, BuildError, MapBuilder};
use crate::spawner::template::{drawn, pool, Templates};
use crate::spawner::{amulet_records, player_records, spawn_amulet_of_yala, spawn_level, spawn_player};
use crate::turn_state::TurnState;
use crate::components::Entity;
use crate::map::on_grid;
use crate::spawner::template::{spawned, Kind};
use crate::world::{
    consistent, has_sole_player, on_map, is_player, lemma_more_entities, lemma_same_players, same_players, sole_player,
    the_player, Records, World,
};

verus! {

/// The level on which the amulet lies.
pub const LAST_LEVEL: u32 = 2;

/// Whether the entity stays behind when the player leaves the level: an
/// item that nobody carries, or an enemy.
pub open spec fn stays_behind(r: Records) -> bool {
    r.alive && ((r.item.is_some() && r.carried.is_none()) || r.enemy.is_some())
}

/// Whether the entity goes when the game ends: a player, an item or an
/// enemy.
pub open spec fn ends_with_game(r: Records) -> bool {
    r.alive && (r.player.is_some() || r.item.is_some() || r.enemy.is_some())
}

/// The world once the player has left the level.
pub open spec fn level_left(s: Seq<Records>) -> Seq<Records> {
    Seq::new(
        s.len(),
        |i: int|
            if stays_behind(s[i]) {
                s[i].dead()
            } else {
                s[i]
            },
    )
}

/// The world once the game has ended.
pub open spec fn game_left(s: Seq<Records>) -> Seq<Records> {
    Seq::new(
        s.len(),
        |i: int|
            if ends_with_game(s[i]) {
                s[i].dead()
            } else {
                s[i]
            },
    )
}

/// Whether the player can go down a level: there is one player, who stands
/// somewhere and looks around, and whose level can still be counted.
pub open spec fn can_descend(s: Seq<Records>) -> bool {
    &&& has_sole_player(s)
    &&& s[the_player(s).0 as int].position.is_some()
    &&& s[the_player(s).0 as int].fov.is_some()
    &&& s[the_player(s).0 as int].player.unwrap().map_level < u32::MAX
}

/// The player as it arrives on the next level, on `start`: one level
/// further down, with its view to be computed.
pub open spec fn descended(player: Records, start: crate::utils::Point) -> Records {
    Records {
        position: Some(start),
        fov: Some(Sight { is_dirty: true, ..player.fov.unwrap() }),
        player: Some(Player { map_level: (player.player.unwrap().map_level + 1) as u32 }),
        ..player
    }
}

/// The tiles of a level that `mb` describes once the way on is marked: an
/// exit where the amulet would lie, or, on the last level, floor for the
/// amulet to lie on.
pub open spec fn with_way_on(mb: MapBuilder, level: u32) -> Seq<TileType> {
    mb.map_spec.tiles@.update(
        index_of(mb.amulet_start),
        if level == LAST_LEVEL {
            TileType::Floor
        } else {
            TileType::Exit
        },
    )
}

/// Whether `after` is the world `settled` with, on each tile of `spawns`,
/// an entity of a kind that `kinds` holds for `level`; where no kind occurs
/// on the level, `after` is `settled`.
pub open spec fn populated(
    settled: Seq<Records>,
    after: Seq<Records>,
    kinds: Seq<crate::spawner::template::Kind>,
    level: usize,
    spawns: Seq<crate::utils::Point>,
) -> bool {
    let lots = pool(kinds, level, kinds.len());
    &&& after.take(settled.len() as int) == settled
    &&& lots.len() == 0 ==> after == settled
    &&& lots.len() > 0 ==> {
        &&& after.len() == settled.len() + spawns.len()
        &&& forall|k: int|
            0 <= k < spawns.len() ==> drawn(kinds, level, spawns[k], #[trigger] after[settled.len() + k])
    }
}

/// Despawns what stays behind on the level, and has the game await input.
pub fn despawn_level(turn_state: &mut TurnState, world: &mut World)
    ensures
        final(world)@ == level_left(old(world)@),
        *final(turn_state) == TurnState::AwaitingInput,
{
    let mut i: usize = 0;
    while i < world.entities.len()
        invariant
            i <= world@.len(),
            world@.len() == old(world)@.len(),
            forall|k: int|
                0 <= k < world@.len() ==> #[trigger] world@[k] == if k < i {
                    level_left(old(world)@)[k]
                } else {
                    old(world)@[k]
                },
        decreases world@.len() - i,
    {
        let ghost before = world@;
        let c = &world.entities[i];
        if c.alive && ((c.item.is_some() && c.carried.is_none()) || c.enemy.is_some()) {
            world.entities[i].alive = false;
            assert(world@ =~= before.update(i as int, before[i as int].dead()));
        }
        i = i + 1;
    }
    assert(world@ =~= level_left(old(world)@));
    *turn_state = TurnState::AwaitingInput;
}

/// Despawns the player, the items and the enemies.
pub fn despawn_game_state(world: &mut World)
    ensures
        final(world)@ == game_left(old(world)@),
{
    let mut i: usize = 0;
    while i < world.entities.len()
        invariant
            i <= world@.len(),
            world@.len() == old(world)@.len(),
            forall|k: int|
                0 <= k < world@.len() ==> #[trigger] world@[k] == if k < i {
                    game_left(old(world)@)[k]
                } else {
                    old(world)@[k]
                },
        decreases world@.len() - i,
    {
        let ghost before = world@;
        let c = &world.entities[i];
        if c.alive && (c.player.is_some() || c.item.is_some() || c.enemy.is_some()) {
            world.entities[i].alive = false;
            assert(world@ =~= before.update(i as int, before[i as int].dead()));
        }
        i = i + 1;
    }
    assert(world@ =~= game_left(old(world)@));
}

/// Whether `map` and `after` are what `mb` and `before` become when the
/// player arrives on the level that `mb` describes: the map is that of
/// `mb`, with the way on marked; the player stands on its start, one level
/// further down, its view to be computed; on the last level the amulet lies
/// where the way on would be; and on each tile that `mb` plans a monster
/// for stands an entity of a kind that `kinds` holds for the level.
pub open spec fn arrived_on(
    mb: MapBuilder,
    before: Seq<Records>,
    map: MapSpec,
    after: Seq<Records>,
    kinds: Seq<Kind>,
) -> bool {
    let player = the_player(before);
    let level = (before[player.0 as int].player.unwrap().map_level + 1) as u32;
    let arrived = before.update(player.0 as int, descended(before[player.0 as int], mb.player_start));
    let settled = if level == LAST_LEVEL {
        arrived.push(amulet_records(mb.amulet_start))
    } else {
        arrived
    };
    &&& map.wf()
    &&& map.tiles@ == with_way_on(mb, level)
    &&& map.revealed_tiles == mb.map_spec.revealed_tiles
    &&& populated(settled, after, kinds, level as usize, mb.monster_spawns@)
}

/// Whether `map` and `after` are what `mb` and `before` become when a new
/// game starts on the level that `mb` describes: the map is that of `mb`,
/// with the exit marked where the way on is; a new player stands on its
/// start; and on each tile that `mb` plans a monster for stands an entity
/// of a kind that `kinds` holds for the first level.
pub open spec fn started_on(
    mb: MapBuilder,
    before: Seq<Records>,
    map: MapSpec,
    after: Seq<Records>,
    kinds: Seq<Kind>,
) -> bool {
    &&& map.wf()
    &&& map.tiles@ == with_way_on(mb, 0)
    &&& map.revealed_tiles == mb.map_spec.revealed_tiles
    &&& populated(before.push(player_records(mb.player_start)), after, kinds, 0, mb.monster_spawns@)
}

/// Brings the player onto the level that `mb` describes.
pub fn enter_level(world: &mut World, map_spec: &mut MapSpec, mb: MapBuilder, rng: &mut StdRng, templates: &Templates)
    requires
        can_descend(old(world)@),
        templates.wf(),
        mb.placed_on_grid(),
    ensures
        arrived_on(mb, old(world)@, *final(map_spec), final(world)@, templates@),
{
    let mut mb = mb;
    let ghost built = mb;
    let player = world.find_player().unwrap();
    let ghost s = world@;
    let level: u32 = world.entities[player.0].player.unwrap().map_level + 1;
    let mut view = world.entities[player.0].fov.take().unwrap();
    view.is_dirty = true;
    world.entities[player.0].fov = Some(view);
    world.entities[player.0].position = Some(mb.player_start);
    world.entities[player.0].player = Some(Player { map_level: level });
    assert(world@ =~= s.update(player.0 as int, descended(s[player.0 as int], mb.player_start)));
    let exit_idx = mb.map_spec.point2d_to_index(mb.amulet_start);
    mb.map_spec.tiles[exit_idx] = TileType::Exit;
    if level == LAST_LEVEL {
        spawn_amulet_of_yala(world, mb.amulet_start, &mut mb.map_spec);
    }
    assert(mb.map_spec.tiles@ =~= with_way_on(built, level));
    let ghost settled = world@;
    spawn_level(level as usize, world, &mb.monster_spawns, templates, rng);
    *map_spec = mb.map_spec;
    proof {
        if pool(templates@, level as usize, templates@.len()).len() == 0 {
            assert(world@.take(settled.len() as int) =~= settled);
        }
    }
}

/// Starts a new game on the level that `mb` describes.
pub fn start_level(world: &mut World, map_spec: &mut MapSpec, mb: MapBuilder, rng: &mut StdRng, templates: &Templates)
    requires
        templates.wf(),
        mb.placed_on_grid(),
    ensures
        started_on(mb, old(world)@, *final(map_spec), final(world)@, templates@),
{
    let mut mb = mb;
    let ghost built = mb;
    let exit_idx = mb.map_spec.point2d_to_index(mb.amulet_start);
    mb.map_spec.tiles[exit_idx] = TileType::Exit;
    assert(mb.map_spec.tiles@ =~= with_way_on(built, 0));
    spawn_player(world, mb.player_start);
    let ghost settled = world@;
    spawn_level(0, world, &mb.monster_spawns, templates, rng);
    *map_spec = mb.map_spec;
    proof {
        if pool(templates@, 0, templates@.len()).len() == 0 {
            assert(world@.take(settled.len() as int) =~= settled);
        }
    }
}

/// Builds the next level and brings the player onto it. The level is what
/// the architect makes of its draws; where these leave it short and it
/// gives up, nothing has changed.
pub fn respawn_level(
    world: &mut World,
    map_spec: &mut MapSpec,
    rng: &mut StdRng,
    architect: &Architect,
    templates: &Templates,
) -> (r: Result<(), BuildError>)
    requires
        can_descend(old(world)@),
        templates.wf(),
    ensures
        r.is_err() ==> final(world)@ == old(world)@ && *final(map_spec) == *old(map_spec),
        r matches Err(e) ==> gives_up_with(*architect, e),
        r.is_ok() ==> exists|mb: MapBuilder|
            {
                &&& #[trigger] mb.built_by(*architect)
                &&& mb.placed_on_grid()
                &&& arrived_on(mb, old(world)@, *final(map_spec), final(world)@, templates@)
            },
{
    let mb = match MapBuilder::new(rng, architect) {
        Ok(mb) => mb,
        Err(e) => {
            return Err(e);
        },
    };
    let ghost built = mb;
    enter_level(world, map_spec, mb, rng, templates);
    assert(built.built_by(*architect));
    Ok(())
}

/// Builds the first level of a new game and puts the player on it. The
/// level is what the architect makes of its draws; where these leave it
/// short and it gives up, nothing has changed.
pub fn respawn_game_state(
    world: &mut World,
    map_spec: &mut MapSpec,
    rng: &mut StdRng,
    architect: &Architect,
    templates: &Templates,
) -> (r: Result<(), BuildError>)
    requires
        templates.wf(),
    ensures
        r.is_err() ==> final(world)@ == old(world)@ && *final(map_spec) == *old(map_spec),
        r matches Err(e) ==> gives_up_with(*architect, e),
        r.is_ok() ==> exists|mb: MapBuilder|
            {
                &&& #[trigger] mb.built_by(*architect)
                &&& mb.placed_on_grid()
                &&& started_on(mb, old(world)@, *final(map_spec), final(world)@, templates@)
            },
{
    let mb = match MapBuilder::new(rng, architect) {
        Ok(mb) => mb,
        Err(e) => {
            return Err(e);
        },
    };
    let ghost built = mb;
    start_level(world, map_spec, mb, rng, templates);
    assert(built.built_by(*architect));
    Ok(())
}

/// Leaving a level leaves the world consistent, and the player the
/// player.
pub proof fn lemma_level_left_consistent(s: Seq<Records>)
    requires
        consistent(s),
    ensures
        consistent(level_left(s)),
        the_player(level_left(s)) == the_player(s),
{
    let t = level_left(s);
    assert(same_players(s, t)) by {
        assert forall|i: int| 0 <= i < s.len() implies ((#[trigger] t[i]).alive && t[i].player.is_some()) == (
        s[i].alive && s[i].player.is_some()) by {
            if s[i].alive && s[i].player.is_some() {
                assert(is_player(s, Entity(i as usize)));
            }
        }
    }
    lemma_same_players(s, t);
}

/// Arriving on a level leaves the world consistent, and the player the
/// player.
pub proof fn lemma_descended_consistent(s: Seq<Records>, start: crate::utils::Point)
    requires
        consistent(s),
        on_grid(start),
    ensures
        consistent(s.update(the_player(s).0 as int, descended(s[the_player(s).0 as int], start))),
        the_player(s.update(the_player(s).0 as int, descended(s[the_player(s).0 as int], start))) == the_player(s),
{
    let player = the_player(s);
    let t = s.update(player.0 as int, descended(s[player.0 as int], start));
    assert(same_players(s, t));
    lemma_same_players(s, t);
}

/// Putting entities on the map that are no players, are not carried and
/// do not wander leaves the world consistent, and the player the player.
pub proof fn lemma_settlers_consistent(s: Seq<Records>, t: Seq<Records>)
    requires
        consistent(s),
        s.len() <= t.len() <= usize::MAX,
        t.take(s.len() as int) == s,
        forall|i: int|
            s.len() <= i < t.len() ==> {
                &&& (#[trigger] t[i]).player.is_none()
                &&& t[i].carried.is_none()
                &&& t[i].moving_randomly.is_none()
                &&& t[i].position.is_some()
                &&& on_grid(t[i].position.unwrap())
            },
    ensures
        consistent(t),
        the_player(t) == the_player(s),
{
    lemma_more_entities(s, t);
    assert forall|i: int| 0 <= i < s.len() implies #[trigger] t[i] == s[i] by {
        assert(t.take(s.len() as int)[i] == t[i]);
    }
}

/// Entities made from templates are settlers.
pub proof fn lemma_populated_consistent(
    settled: Seq<Records>,
    after: Seq<Records>,
    kinds: Seq<Kind>,
    level: usize,
    spawns: Seq<crate::utils::Point>,
)
    requires
        consistent(settled),
        after.len() <= usize::MAX,
        forall|k: int| 0 <= k < spawns.len() ==> on_grid(#[trigger] spawns[k]),
        populated(settled, after, kinds, level, spawns),
    ensures
        consistent(after),
        the_player(after) == the_player(settled),
{
    if pool(kinds, level, kinds.len()).len() > 0 {
        assert forall|i: int| settled.len() <= i < after.len() implies {
            &&& (#[trigger] after[i]).player.is_none()
            &&& after[i].carried.is_none()
            &&& after[i].moving_randomly.is_none()
            &&& after[i].position.is_some()
            &&& on_grid(after[i].position.unwrap())
        } by {
            let k = i - settled.len();
            assert(drawn(kinds, level, spawns[k], after[settled.len() + k]));
            let t = choose|t: int|
                {
                    &&& 0 <= t < kinds.len()
                    &&& kinds[t].levels.contains(level)
                    &&& kinds[t].frequency > 0
                    &&& after[i] == #[trigger] spawned(kinds[t], spawns[k])
                };
            assert(after[i] == spawned(kinds[t], spawns[k]));
        }
        lemma_settlers_consistent(settled, after);
    }
}

/// After the end of a game, a new player is the one player of a consistent
/// world.
pub proof fn lemma_new_player_consistent(s: Seq<Records>, start: crate::utils::Point)
    requires
        s.len() < usize::MAX,
        on_map(s),
        forall|i: int|
            0 <= i < s.len() && (#[trigger] s[i]).alive ==> {
                &&& s[i].carried.is_some() ==> s[i].position.is_none()
                &&& crate::world::one_behaviour(s[i])
            },
        on_grid(start),
    ensures
        consistent(game_left(s).push(player_records(start))),
        the_player(game_left(s).push(player_records(start))) == Entity(s.len() as usize),
{
    let t = game_left(s).push(player_records(start));
    let me = Entity(s.len() as usize);
    assert(sole_player(t, me)) by {
        assert forall|k: usize| #[trigger] is_player(t, Entity(k)) implies k == me.0 by {
            if k < s.len() {
                assert(t[k as int] == game_left(s)[k as int]);
            }
        }
    }
    let c = choose|i: usize| #[trigger] sole_player(t, Entity(i));
    assert(is_player(t, me));
    assert forall|i: int| 0 <= i < t.len() && (#[trigger] t[i]).alive implies {
        &&& t[i].carried.is_some() ==> t[i].position.is_none()
        &&& crate::world::one_behaviour(t[i])
        &&& t[i].position.is_some() ==> on_grid(t[i].position.unwrap())
    } by {
        if i < s.len() {
            assert(t[i] == game_left(s)[i]);
            assert(s[i].alive);
        }
    }
}

} // verus!
