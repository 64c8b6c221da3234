//! Decides, once a phase has run, which phase comes next.

use vstd::prelude::*;
use crate::map::{index_of, on_grid, MapSpec, TileType};
use crate::turn_state::{advance, next_turn_state, TurnState};
use crate::world::{goal_tile, has_sole_player, the_player, World};

verus! {

/// Whether the end of a turn can be judged: there is one player, who stands
/// on the map and has health.
pub open spec fn judgeable(world: World) -> bool {
    &&& has_sole_player(world@)
    &&& world@[the_player(world@).0 as int].position.is_some()
    &&& on_grid(world@[the_player(world@).0 as int].position.unwrap())
    &&& world@[the_player(world@).0 as int].health.is_some()
}

/// Moves the game to the phase that `next_turn_state` gives for the
/// player's health, for whether the player stands on the amulet and for
/// whether the player stands on an exit. Returns whether the phase changed.
pub fn end_turn(map_spec: &MapSpec, turn_state: &mut TurnState, world: &World) -> (changed: bool)
    requires
        map_spec.wf(),
        *old(turn_state) != TurnState::AwaitingInput ==> judgeable(*world),
    ensures
        *old(turn_state) == TurnState::AwaitingInput ==> *final(turn_state) == TurnState::AwaitingInput,
        *old(turn_state) != TurnState::AwaitingInput ==> ({
            let player = world@[the_player(world@).0 as int];
            let at = player.position.unwrap();
            *final(turn_state) == next_turn_state(
                *old(turn_state),
                player.health.unwrap().current as int,
                goal_tile(world@) == Some(at),
                map_spec.tiles@[index_of(at)] == TileType::Exit,
            )
        }),
        changed == (*final(turn_state) != *old(turn_state)),
{
    let current_state = *turn_state;
    if current_state == TurnState::AwaitingInput {
        return false;
    }
    let player = world.find_player().unwrap();
    let player_pos = world.entities[player.0].position.unwrap();
    let player_hp = world.entities[player.0].health.unwrap();
    let at_goal = match world.find_goal() {
        Some(amulet_pos) => amulet_pos == player_pos,
        None => false,
    };
    let idx = map_spec.point2d_to_index(player_pos);
    let on_exit = map_spec.tiles[idx] == TileType::Exit;
    let new_state = advance(current_state, player_hp.current, at_goal, on_exit);
    if new_state != current_state {
        *turn_state = new_state;
        true
    } else {
        false
    }
}

} // verus!
