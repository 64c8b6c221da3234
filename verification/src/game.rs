//! The game as a whole: its state, and the order in which a phase runs the
//! systems.

use vstd::prelude::*;
use rand::rngs::StdRng;
use crate::components::{ActivateItem, WantsToAttack, WantsToMove};
use crate::map::{index_of, on_grid, MapSpec, TileType, NUM_TILES};
use crate::map_builder::{gives_up_with, Architect, BuildError, MapBuilder};
use crate::spawner::player_records;
use crate::spawner::template::{drawn, pool, spawned, Kind, Templates};
use crate::systems::end_game::{
    arrived_on, despawn_game_state, despawn_level, enter_level, game_left, lemma_descended_consistent,
    lemma_level_left_consistent, lemma_new_player_consistent, lemma_populated_consistent,
    lemma_settlers_consistent, level_left, populated, start_level, started_on, LAST_LEVEL,
};
use crate::spawner::amulet_records;
use crate::systems::end_game::descended;
use crate::systems::chasing::{chasing, chasing_plan};
use crate::systems::combat::{after_attacks, combat, lemma_combat_consistent};
use crate::systems::end_turn::end_turn;
use crate::systems::fov::{fov, lemma_refreshed_consistent, refreshed};
use crate::systems::intent::{attacks_of, moves_of};
use crate::systems::movement::{after_moves, lemma_movement_consistent, movement};
use crate::systems::player_input::{
    input_attacks, input_items, input_moves, input_state, input_world, lemma_picked_up_consistent, player_input,
    Command,
};
use crate::systems::random_move::{random_move, wandering};
use crate::systems::use_items::{
    after_heals, after_uses, heals, lemma_heals_consistent, lemma_uses_consistent, reveals, use_items,
};
use crate::turn_state::{next_turn_state, TurnState};
use crate::utils::Point;
use crate::components::Entity;
use crate::world::{consistent, goal_tile, is_player, sole_player, the_player, Records, World};

verus! {

/// The state of a game: the level, who lives on it, the phase, and the
/// intents that await their resolver.
pub struct Game {
    pub map_spec: MapSpec,
    pub world: World,
    pub turn_state: TurnState,
    pub ev_movements: Vec<WantsToMove>,
    pub ev_attacks: Vec<WantsToAttack>,
    pub ev_items: Vec<ActivateItem>,
}

/// The world once the resolvers have run: items are used up and their
/// healing handed out, then every blow lands, then every move is carried
/// out.
pub open spec fn resolved(
    s: Seq<Records>,
    map: MapSpec,
    items: Seq<ActivateItem>,
    attacks: Seq<WantsToAttack>,
    moves: Seq<WantsToMove>,
) -> Seq<Records> {
    let used = after_heals(
        after_uses(s, items, items.len()),
        heals(s, items, items.len()),
        heals(s, items, items.len()).len(),
    );
    let fought = after_attacks(used, attacks, the_player(used), attacks.len());
    after_moves(fought, map, moves, moves.len())
}

/// Whether the fog of war of `after` is what the use of `items` leaves of
/// that of `before`: lifted where one of them is a map of the dungeon, else
/// as it was.
pub open spec fn fog_lifted(before: MapSpec, after: MapSpec, s: Seq<Records>, items: Seq<ActivateItem>) -> bool {
    &&& reveals(s, items, items.len()) ==> forall|i: int| 0 <= i < NUM_TILES ==> after.revealed_tiles@[i]
    &&& !reveals(s, items, items.len()) ==> after.revealed_tiles == before.revealed_tiles
}

/// The phase that follows `state` in the world `s`.
pub open spec fn judged(s: Seq<Records>, map: MapSpec, state: TurnState) -> TurnState {
    let player = s[the_player(s).0 as int];
    let at = player.position.unwrap();
    next_turn_state(
        state,
        player.health.unwrap().current as int,
        goal_tile(s) == Some(at),
        map.tiles@[index_of(at)] == TileType::Exit,
    )
}

/// The resolvers leave the world consistent.
pub proof fn lemma_resolved_consistent(
    s: Seq<Records>,
    map: MapSpec,
    items: Seq<ActivateItem>,
    attacks: Seq<WantsToAttack>,
    moves: Seq<WantsToMove>,
)
    requires
        consistent(s),
        map.wf(),
    ensures
        consistent(resolved(s, map, items, attacks, moves)),
        the_player(resolved(s, map, items, attacks, moves)) == the_player(s),
{
    lemma_uses_consistent(s, items, items.len());
    let used_up = after_uses(s, items, items.len());
    let list = heals(s, items, items.len());
    lemma_heals_consistent(used_up, list, list.len());
    let used = after_heals(used_up, list, list.len());
    lemma_combat_consistent(used, attacks, attacks.len());
    let fought = after_attacks(used, attacks, the_player(used), attacks.len());
    lemma_movement_consistent(fought, map, moves, moves.len());
}

/// A world of one new player and of entities made from templates, all on
/// the map, is consistent.
pub proof fn lemma_first_world_consistent(
    s: Seq<Records>,
    start: Point,
    kinds: Seq<Kind>,
    level: usize,
    spawns: Seq<Point>,
)
    requires
        s.len() <= usize::MAX,
        on_grid(start),
        forall|k: int| 0 <= k < spawns.len() ==> on_grid(#[trigger] spawns[k]),
        populated(seq![player_records(start)], s, kinds, level, spawns),
    ensures
        consistent(s),
        the_player(s) == Entity(0),
        s[0] == player_records(start),
{
    let settled = seq![player_records(start)];
    assert(s.take(1)[0] == settled[0]);
    assert forall|i: int| 1 <= i < s.len() implies {
        &&& (#[trigger] s[i]).player.is_none()
        &&& s[i].carried.is_none()
        &&& s[i].moving_randomly.is_none()
        &&& s[i].position.is_some()
        &&& on_grid(s[i].position.unwrap())
    } by {
        let k = i - 1;
        assert(drawn(kinds, level, spawns[k], s[settled.len() + k]));
        let t = choose|t: int|
            {
                &&& 0 <= t < kinds.len()
                &&& kinds[t].levels.contains(level)
                &&& kinds[t].frequency > 0
                &&& s[i] == #[trigger] spawned(kinds[t], spawns[k])
            };
        assert(s[i] == spawned(kinds[t], spawns[k]));
    }
    assert(sole_player(s, Entity(0))) by {
        assert forall|k: usize| #[trigger] is_player(s, Entity(k)) implies k == 0 by {
            if k != 0 {
                assert(s[k as int].player.is_none());
            }
        }
    }
    let c = choose|i: usize| #[trigger] sole_player(s, Entity(i));
    assert(is_player(s, Entity(0)));
}

impl Game {
    /// The map is whole and the world consistent.
    pub open spec fn wf(&self) -> bool {
        self.map_spec.wf() && consistent(self.world@)
    }

    /// Whether the map is whole and the world consistent.
    pub fn is_valid(&self) -> (ok: bool)
        ensures
            ok == self.wf(),
    {
        self.map_spec.is_valid() && self.world.is_consistent()
    }

    /// Starts a game: the architect builds the first level, a new player
    /// stands on its start, and on each tile that the architect planned a
    /// monster for stands an entity of a kind that `templates` holds for
    /// the first level. The game awaits input, and no intent is pending.
    /// Where the draws leave the architect short and it gives up, so does
    /// the game.
    pub fn new(rng: &mut StdRng, architect: &Architect, templates: &Templates) -> (r: Result<Game, BuildError>)
        requires
            templates.wf(),
        ensures
            match r {
                Ok(game) => {
                    &&& game.wf()
                    &&& game.turn_state == TurnState::AwaitingInput
                    &&& game.ev_movements@.len() == 0
                    &&& game.ev_attacks@.len() == 0
                    &&& game.ev_items@.len() == 0
                    &&& the_player(game.world@) == Entity(0)
                    &&& exists|mb: MapBuilder|
                        {
                            &&& #[trigger] mb.built_by(*architect)
                            &&& mb.placed_on_grid()
                            &&& started_on(mb, Seq::empty(), game.map_spec, game.world@, templates@)
                        }
                },
                Err(e) => gives_up_with(*architect, e),
            },
    {
        let mb = match MapBuilder::new(rng, architect) {
            Ok(mb) => mb,
            Err(e) => {
                return Err(e);
            },
        };
        let mut game = Game {
            map_spec: MapSpec::new(),
            world: World::new(),
            turn_state: TurnState::AwaitingInput,
            ev_movements: Vec::new(),
            ev_attacks: Vec::new(),
            ev_items: Vec::new(),
        };
        let ghost built = mb;
        let ghost empty = game.world@;
        start_level(&mut game.world, &mut game.map_spec, mb, rng, templates);
        proof {
            assert(game.world@.len() == game.world.entities.len());
            assert(empty =~= Seq::empty());
            assert(empty.push(player_records(built.player_start)) =~= seq![player_records(built.player_start)]);
            lemma_first_world_consistent(game.world@, built.player_start, templates@, 0, built.monster_spawns@);
            assert(built.built_by(*architect));
        }
        Ok(game)
    }

    /// Leaves the level for the next one: what stays behind is despawned,
    /// the architect builds the level, the player arrives on its start one
    /// level further down, and the game awaits input. Where the draws leave
    /// the architect short and it gives up, the game stays as it is.
    pub fn descend(&mut self, rng: &mut StdRng, architect: &Architect, templates: &Templates) -> (r: Result<
        (),
        BuildError,
    >)
        requires
            old(self).wf(),
            templates.wf(),
            old(self).world@[the_player(old(self).world@).0 as int].player.unwrap().map_level < u32::MAX,
        ensures
            final(self).wf(),
            the_player(final(self).world@) == the_player(old(self).world@),
            final(self).ev_movements == old(self).ev_movements,
            final(self).ev_attacks == old(self).ev_attacks,
            final(self).ev_items == old(self).ev_items,
            match r {
                Ok(()) => {
                    &&& final(self).turn_state == TurnState::AwaitingInput
                    &&& exists|mb: MapBuilder|
                        {
                            &&& #[trigger] mb.built_by(*architect)
                            &&& mb.placed_on_grid()
                            &&& arrived_on(
                                mb,
                                level_left(old(self).world@),
                                final(self).map_spec,
                                final(self).world@,
                                templates@,
                            )
                        }
                },
                Err(e) => {
                    &&& gives_up_with(*architect, e)
                    &&& final(self).world@ == old(self).world@
                    &&& final(self).map_spec == old(self).map_spec
                    &&& final(self).turn_state == old(self).turn_state
                },
            },
    {
        let mb = match MapBuilder::new(rng, architect) {
            Ok(mb) => mb,
            Err(e) => {
                return Err(e);
            },
        };
        let ghost built = mb;
        proof {
            lemma_level_left_consistent(self.world@);
        }
        despawn_level(&mut self.turn_state, &mut self.world);
        let ghost left = self.world@;
        enter_level(&mut self.world, &mut self.map_spec, mb, rng, templates);
        proof {
            assert(self.world@.len() == self.world.entities.len());
            let player = the_player(left);
            let level = (left[player.0 as int].player.unwrap().map_level + 1) as u32;
            let arrived = left.update(player.0 as int, descended(left[player.0 as int], built.player_start));
            lemma_descended_consistent(left, built.player_start);
            let settled = if level == LAST_LEVEL {
                arrived.push(amulet_records(built.amulet_start))
            } else {
                arrived
            };
            assert(settled.len() <= self.world@.len()) by {
                assert(self.world@.take(settled.len() as int) == settled);
                if settled.len() > self.world@.len() {
                    assert(self.world@.take(settled.len() as int).len() <= self.world@.len());
                }
            }
            if level == LAST_LEVEL {
                assert(settled.take(arrived.len() as int) =~= arrived);
                lemma_settlers_consistent(arrived, settled);
            }
            lemma_populated_consistent(settled, self.world@, templates@, level as usize, built.monster_spawns@);
            assert(built.built_by(*architect));
        }
        Ok(())
    }

    /// Starts over: players, items and enemies are despawned, the architect
    /// builds a first level, a new player stands on its start, and the
    /// game awaits input with no intent pending. Where the draws leave the
    /// architect short and it gives up, the game stays as it is.
    pub fn restart(&mut self, rng: &mut StdRng, architect: &Architect, templates: &Templates) -> (r: Result<
        (),
        BuildError,
    >)
        requires
            old(self).wf(),
            templates.wf(),
            old(self).world@.len() < usize::MAX,
        ensures
            final(self).wf(),
            match r {
                Ok(()) => {
                    &&& final(self).turn_state == TurnState::AwaitingInput
                    &&& final(self).ev_movements@.len() == 0
                    &&& final(self).ev_attacks@.len() == 0
                    &&& final(self).ev_items@.len() == 0
                    &&& the_player(final(self).world@) == Entity(old(self).world@.len() as usize)
                    &&& exists|mb: MapBuilder|
                        {
                            &&& #[trigger] mb.built_by(*architect)
                            &&& mb.placed_on_grid()
                            &&& started_on(
                                mb,
                                game_left(old(self).world@),
                                final(self).map_spec,
                                final(self).world@,
                                templates@,
                            )
                        }
                },
                Err(e) => {
                    &&& gives_up_with(*architect, e)
                    &&& final(self).world@ == old(self).world@
                    &&& final(self).map_spec == old(self).map_spec
                    &&& final(self).turn_state == old(self).turn_state
                    &&& final(self).ev_movements == old(self).ev_movements
                    &&& final(self).ev_attacks == old(self).ev_attacks
                    &&& final(self).ev_items == old(self).ev_items
                },
            },
    {
        let mb = match MapBuilder::new(rng, architect) {
            Ok(mb) => mb,
            Err(e) => {
                return Err(e);
            },
        };
        let ghost built = mb;
        let ghost s = self.world@;
        despawn_game_state(&mut self.world);
        let ghost left = self.world@;
        start_level(&mut self.world, &mut self.map_spec, mb, rng, templates);
        proof {
            assert(self.world@.len() == self.world.entities.len());
            let settled = left.push(player_records(built.player_start));
            assert(settled.len() <= self.world@.len()) by {
                assert(self.world@.take(settled.len() as int) == settled);
                if settled.len() > self.world@.len() {
                    assert(self.world@.take(settled.len() as int).len() <= self.world@.len());
                }
            }
            lemma_new_player_consistent(s, built.player_start);
            lemma_populated_consistent(settled, self.world@, templates@, 0, built.monster_spawns@);
            assert(built.built_by(*architect));
        }
        self.turn_state = TurnState::AwaitingInput;
        self.ev_movements.clear();
        self.ev_attacks.clear();
        self.ev_items.clear();
        Ok(())
    }

    /// Runs the systems of the phase that the game is in, in their order.
    ///
    /// While the game awaits input: the command is resolved, then views are
    /// brought up to date. In the player's turn: items, combat, movement,
    /// views, and the judgement of the turn. In the monsters' turn: the
    /// wanderers and the chasers decide, then as in the player's turn. In
    /// any other phase nothing happens. The resolvers leave no intent
    /// behind.
    pub fn tick<F: Fn(Point, i32, &MapSpec) -> Vec<Point>>(&mut self, cmd: Option<Command>, rng: &mut StdRng, look: F)
        requires
            old(self).wf(),
            forall|p: Point, radius: i32, map: &MapSpec| call_requires(look, (p, radius, map)),
        ensures
            final(self).wf(),
            final(self).map_spec.tiles == old(self).map_spec.tiles,
            the_player(final(self).world@) == the_player(old(self).world@),
            match old(self).turn_state {
                TurnState::AwaitingInput => {
                    let s = old(self).world@;
                    &&& refreshed(input_world(s, cmd), final(self).world@, &final(self).map_spec, look)
                    &&& final(self).turn_state == input_state(TurnState::AwaitingInput, cmd)
                    &&& final(self).ev_items@ == old(self).ev_items@ + input_items(s, cmd)
                    &&& final(self).ev_attacks@ == old(self).ev_attacks@ + input_attacks(s, cmd)
                    &&& final(self).ev_movements@ == old(self).ev_movements@ + input_moves(s, cmd)
                    &&& final(self).map_spec.revealed_tiles == old(self).map_spec.revealed_tiles
                },
                TurnState::PlayerTurn => {
                    let s = old(self).world@;
                    &&& refreshed(
                        resolved(
                            s,
                            final(self).map_spec,
                            old(self).ev_items@,
                            old(self).ev_attacks@,
                            old(self).ev_movements@,
                        ),
                        final(self).world@,
                        &final(self).map_spec,
                        look,
                    )
                    &&& final(self).turn_state == judged(
                        final(self).world@,
                        final(self).map_spec,
                        TurnState::PlayerTurn,
                    )
                    &&& final(self).ev_items@.len() == 0
                    &&& final(self).ev_attacks@.len() == 0
                    &&& final(self).ev_movements@.len() == 0
                    &&& fog_lifted(old(self).map_spec, final(self).map_spec, old(self).world@, old(self).ev_items@)
                },
                TurnState::MonsterTurn => {
                    let s = old(self).world@;
                    &&& exists|turns: Seq<i32>|
                        {
                            &&& turns.len() == s.len()
                            &&& forall|i: int| 0 <= i < turns.len() ==> 0 <= #[trigger] turns[i] < 4
                            &&& refreshed(
                                resolved(
                                    s,
                                    final(self).map_spec,
                                    old(self).ev_items@,
                                    old(self).ev_attacks@ + attacks_of(#[trigger] wandering(s, turns), s.len())
                                        + attacks_of(chasing_plan(s, old(self).map_spec), s.len()),
                                    old(self).ev_movements@ + moves_of(wandering(s, turns), s.len()) + moves_of(
                                        chasing_plan(s, old(self).map_spec),
                                        s.len(),
                                    ),
                                ),
                                final(self).world@,
                                &final(self).map_spec,
                                look,
                            )
                        }
                    &&& final(self).turn_state == judged(
                        final(self).world@,
                        final(self).map_spec,
                        TurnState::MonsterTurn,
                    )
                    &&& final(self).ev_items@.len() == 0
                    &&& final(self).ev_attacks@.len() == 0
                    &&& final(self).ev_movements@.len() == 0
                    &&& fog_lifted(old(self).map_spec, final(self).map_spec, old(self).world@, old(self).ev_items@)
                },
                _ => {
                    &&& final(self).world@ == old(self).world@
                    &&& final(self).turn_state == old(self).turn_state
                    &&& final(self).ev_items@ == old(self).ev_items@
                    &&& final(self).ev_attacks@ == old(self).ev_attacks@
                    &&& final(self).ev_movements@ == old(self).ev_movements@
                    &&& final(self).map_spec.revealed_tiles == old(self).map_spec.revealed_tiles
                },
            },
    {
        match self.turn_state {
            TurnState::AwaitingInput => {
                proof {
                    lemma_picked_up_consistent(self.world@);
                }
                player_input(
                    cmd,
                    &mut self.world,
                    &mut self.turn_state,
                    &mut self.ev_movements,
                    &mut self.ev_attacks,
                    &mut self.ev_items,
                );
                let ghost decided = self.world@;
                fov(&self.map_spec, &mut self.world, look);
                proof {
                    lemma_refreshed_consistent(decided, self.world@, &self.map_spec, look);
                }
            },
            TurnState::PlayerTurn => {
                self.resolve(look);
            },
            TurnState::MonsterTurn => {
                let ghost s = self.world@;
                let ghost moves = self.ev_movements@;
                let ghost attacks = self.ev_attacks@;
                random_move(&self.world, rng, &mut self.ev_movements, &mut self.ev_attacks);
                let ghost turns = choose|turns: Seq<i32>|
                    {
                        &&& turns.len() == s.len()
                        &&& forall|i: int| 0 <= i < turns.len() ==> 0 <= #[trigger] turns[i] < 4
                        &&& self.ev_movements@ == moves + moves_of(#[trigger] wandering(s, turns), s.len())
                        &&& self.ev_attacks@ == attacks + attacks_of(wandering(s, turns), s.len())
                    };
                chasing(&self.map_spec, &self.world, &mut self.ev_movements, &mut self.ev_attacks);
                self.resolve(look);
                proof {
                    assert(wandering(s, turns).len() == s.len());
                }
            },
            _ => {},
        }
    }

    /// Runs the resolvers, brings views up to date and judges the turn.
    fn resolve<F: Fn(Point, i32, &MapSpec) -> Vec<Point>>(&mut self, look: F)
        requires
            old(self).wf(),
            old(self).turn_state != TurnState::AwaitingInput,
            forall|p: Point, radius: i32, map: &MapSpec| call_requires(look, (p, radius, map)),
        ensures
            final(self).wf(),
            final(self).map_spec.tiles == old(self).map_spec.tiles,
            the_player(final(self).world@) == the_player(old(self).world@),
            refreshed(
                resolved(
                    old(self).world@,
                    final(self).map_spec,
                    old(self).ev_items@,
                    old(self).ev_attacks@,
                    old(self).ev_movements@,
                ),
                final(self).world@,
                &final(self).map_spec,
                look,
            ),
            final(self).turn_state == judged(final(self).world@, final(self).map_spec, old(self).turn_state),
            final(self).ev_items@.len() == 0,
            final(self).ev_attacks@.len() == 0,
            final(self).ev_movements@.len() == 0,
            fog_lifted(old(self).map_spec, final(self).map_spec, old(self).world@, old(self).ev_items@),
    {
        let ghost s = self.world@;
        let ghost items = self.ev_items@;
        let ghost attacks = self.ev_attacks@;
        let ghost moves = self.ev_movements@;
        proof {
            lemma_uses_consistent(s, items, items.len());
            let list = heals(s, items, items.len());
            lemma_heals_consistent(after_uses(s, items, items.len()), list, list.len());
        }
        use_items(&mut self.ev_items, &mut self.world, &mut self.map_spec);
        let ghost used = self.world@;
        proof {
            lemma_combat_consistent(used, attacks, attacks.len());
        }
        combat(&mut self.world, &mut self.ev_attacks);
        let ghost fought = self.world@;
        proof {
            lemma_movement_consistent(fought, self.map_spec, moves, moves.len());
        }
        movement(&self.map_spec, &mut self.world, &mut self.ev_movements);
        let ghost settled = self.world@;
        fov(&self.map_spec, &mut self.world, look);
        proof {
            lemma_refreshed_consistent(settled, self.world@, &self.map_spec, look);
        }
        end_turn(&self.map_spec, &mut self.turn_state, &self.world);
    }
}

} // verus!
