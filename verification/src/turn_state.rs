//! The phases of a turn and the rule that moves the game from one to the
//! next.

use vstd::prelude::*;

verus! {

/// The phase that the game is in.
#[derive(PartialEq, Eq, Structural, Clone, Copy, Debug, Hash)]
pub enum TurnState {
    AwaitingInput,
    PlayerTurn,
    MonsterTurn,
    NextLevel,
    Victory,
    GameOver,
}

/// The phase that follows `state` where nothing ends the level or the game.
pub open spec fn following(state: TurnState) -> TurnState {
    match state {
        TurnState::PlayerTurn => TurnState::MonsterTurn,
        TurnState::MonsterTurn => TurnState::AwaitingInput,
        other => other,
    }
}

/// The phase at the end of a turn. While the game awaits input nothing
/// moves. Else a player on an exit tile goes to the next level; otherwise a
/// player without health has lost, even on the goal; otherwise a player on
/// the goal has won; otherwise the turn passes on.
pub open spec fn next_turn_state(state: TurnState, health: int, at_goal: bool, on_exit: bool) -> TurnState {
    if state == TurnState::AwaitingInput {
        TurnState::AwaitingInput
    } else if on_exit {
        TurnState::NextLevel
    } else if health < 1 {
        TurnState::GameOver
    } else if at_goal {
        TurnState::Victory
    } else {
        following(state)
    }
}

/// The phase at the end of a turn.
pub fn advance(state: TurnState, health: i32, at_goal: bool, on_exit: bool) -> (next: TurnState)
    ensures
        next == next_turn_state(state, health as int, at_goal, on_exit),
{
    match state {
        TurnState::AwaitingInput => TurnState::AwaitingInput,
        _ => {
            if on_exit {
                TurnState::NextLevel
            } else if health < 1 {
                TurnState::GameOver
            } else if at_goal {
                TurnState::Victory
            } else {
                match state {
                    TurnState::PlayerTurn => TurnState::MonsterTurn,
                    TurnState::MonsterTurn => TurnState::AwaitingInput,
                    other => other,
                }
            }
        },
    }
}

} // verus!
