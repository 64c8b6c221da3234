//! Monsters that wander: each takes a step in a direction of chance.

use vstd::prelude::*;
use rand::rngs::StdRng;
use crate::components::{Entity, WantsToAttack, WantsToMove};
use crate::random::gen_range_i32;
use crate::systems::intent::{attacks_of, decide, enqueue, intent_of, moves_of, Intent};
use crate::systems::player_input::can_step;
use crate::utils::Point;
use crate::world::{has_sole_player, the_player, Records, World};

verus! {

/// The step that a roll of the four-sided die stands for.
pub open spec fn stagger(turn: i32) -> Point {
    if turn == 0 {
        Point { x: -1i32, y: 0 }
    } else if turn == 1 {
        Point { x: 1, y: 0 }
    } else if turn == 2 {
        Point { x: 0, y: -1i32 }
    } else {
        Point { x: 0, y: 1 }
    }
}

/// Whether the entity wanders: it lives, stands somewhere and moves at
/// random.
pub open spec fn wanders(r: Records) -> bool {
    r.alive && r.moving_randomly.is_some() && r.position.is_some()
}

/// Whether every wanderer can take a step: the player, whom they may run
/// into, can be found, and none stands on the rim of the coordinate type.
pub open spec fn can_wander(s: Seq<Records>) -> bool {
    &&& (exists|i: int| 0 <= i < s.len() && wanders(#[trigger] s[i])) ==> has_sole_player(s)
    &&& forall|i: int| 0 <= i < s.len() && wanders(#[trigger] s[i]) ==> can_step(s[i].position.unwrap())
}

/// What each entity asks for when the wanderers among them take the steps
/// that `turns` holds for them.
pub open spec fn wandering(s: Seq<Records>, turns: Seq<i32>) -> Seq<Intent> {
    Seq::new(
        s.len(),
        |i: int|
            if wanders(s[i]) {
                let at = s[i].position.unwrap();
                let step = stagger(turns[i]);
                intent_of(
                    s,
                    Entity(i as usize),
                    Point { x: (at.x + step.x) as i32, y: (at.y + step.y) as i32 },
                    the_player(s),
                )
            } else {
                Intent::Stay
            },
    )
}

/// The step that a roll of the four-sided die stands for.
pub fn step_for(turn: i32) -> (step: Point)
    ensures
        step == stagger(turn),
{
    if turn == 0 {
        Point::new(-1, 0)
    } else if turn == 1 {
        Point::new(1, 0)
    } else if turn == 2 {
        Point::new(0, -1)
    } else {
        Point::new(0, 1)
    }
}

/// Has every wanderer take the step that `turns` holds for it, and files
/// what each asks for: a move onto a free tile, an attack on the player
/// where the player is in the way, nothing where another is.
pub fn wander(
    world: &World,
    turns: &Vec<i32>,
    ev_movements: &mut Vec<WantsToMove>,
    ev_attacks: &mut Vec<WantsToAttack>,
)
    requires
        can_wander(world@),
        turns@.len() == world@.len(),
    ensures
        final(ev_movements)@ == old(ev_movements)@ + moves_of(wandering(world@, turns@), world@.len()),
        final(ev_attacks)@ == old(ev_attacks)@ + attacks_of(wandering(world@, turns@), world@.len()),
{
    let ghost plan = wandering(world@, turns@);
    let mut i: usize = 0;
    assert(ev_movements@ =~= old(ev_movements)@ + moves_of(plan, 0));
    assert(ev_attacks@ =~= old(ev_attacks)@ + attacks_of(plan, 0));
    while i < world.entities.len()
        invariant
            i <= world@.len(),
            can_wander(world@),
            turns@.len() == world@.len(),
            plan == wandering(world@, turns@),
            ev_movements@ == old(ev_movements)@ + moves_of(plan, i as nat),
            ev_attacks@ == old(ev_attacks)@ + attacks_of(plan, i as nat),
        decreases world@.len() - i,
    {
        let c = &world.entities[i];
        if c.alive && c.moving_randomly.is_some() && c.position.is_some() {
            assert(wanders(world@[i as int]));
            let pos = c.position.unwrap();
            let destination = step_for(turns[i]) + pos;
            let player = world.find_player().unwrap();
            let intent = decide(world, Entity(i), destination, player);
            assert(intent == plan[i as int]);
            enqueue(intent, ev_movements, ev_attacks);
        }
        proof {
            assert(ev_movements@ =~= old(ev_movements)@ + moves_of(plan, (i + 1) as nat));
            assert(ev_attacks@ =~= old(ev_attacks)@ + attacks_of(plan, (i + 1) as nat));
        }
        i = i + 1;
    }
}

/// Rolls the four-sided die for every wanderer and has it take that step.
pub fn random_move(
    world: &World,
    rng: &mut StdRng,
    ev_movements: &mut Vec<WantsToMove>,
    ev_attacks: &mut Vec<WantsToAttack>,
)
    requires
        can_wander(world@),
    ensures
        exists|turns: Seq<i32>|
            {
                &&& turns.len() == world@.len()
                &&& forall|i: int| 0 <= i < turns.len() ==> 0 <= #[trigger] turns[i] < 4
                &&& final(ev_movements)@ == old(ev_movements)@ + moves_of(
                    #[trigger] wandering(world@, turns),
                    world@.len(),
                )
                &&& final(ev_attacks)@ == old(ev_attacks)@ + attacks_of(wandering(world@, turns), world@.len())
            },
{
    let mut turns: Vec<i32> = Vec::new();
    let mut i: usize = 0;
    while i < world.entities.len()
        invariant
            i <= world@.len(),
            turns@.len() == i,
            forall|k: int| 0 <= k < turns@.len() ==> 0 <= #[trigger] turns@[k] < 4,
        decreases world@.len() - i,
    {
        let c = &world.entities[i];
        if c.alive && c.moving_randomly.is_some() && c.position.is_some() {
            turns.push(gen_range_i32(rng, 0, 4));
        } else {
            turns.push(0);
        }
        i = i + 1;
    }
    wander(world, &turns, ev_movements, ev_attacks);
    assert(wandering(world@, turns@).len() == world@.len());
}

} // verus!
