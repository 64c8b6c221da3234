//! What a monster that wants to stand on a tile ends up asking for.

use vstd::prelude::*;
use crate::components::{Entity, WantsToAttack, WantsToMove};
use crate::utils::Point;
use crate::world::{live, Records, World};

verus! {

/// The outcome of one decision.
#[derive(PartialEq, Eq, Structural, Clone, Copy, Debug)]
pub enum Intent {
    Move(WantsToMove),
    Attack(WantsToAttack),
    Stay,
}

/// Whether a live entity with health stands on `p`.
pub open spec fn occupied(s: Seq<Records>, p: Point) -> bool {
    exists|i: int| 0 <= i < s.len() && (#[trigger] s[i]).blocks(p)
}

/// What `mover` asks for when it wants to stand on `destination`: to move
/// there where nobody is in the way, to attack where the player is in the
/// way, and nothing where only others are.
pub open spec fn intent_of(s: Seq<Records>, mover: Entity, destination: Point, player: Entity) -> Intent {
    if !occupied(s, destination) {
        Intent::Move(WantsToMove { entity: mover, destination })
    } else if live(s, player) && s[player.0 as int].blocks(destination) {
        Intent::Attack(WantsToAttack { attacker: mover, victim: player })
    } else {
        Intent::Stay
    }
}

/// The moves among the first `n` of `intents`, in their order.
pub open spec fn moves_of(intents: Seq<Intent>, n: nat) -> Seq<WantsToMove>
    decreases n,
{
    if n == 0 {
        Seq::empty()
    } else {
        match intents[n - 1] {
            Intent::Move(m) => moves_of(intents, (n - 1) as nat).push(m),
            _ => moves_of(intents, (n - 1) as nat),
        }
    }
}

/// The attacks among the first `n` of `intents`, in their order.
pub open spec fn attacks_of(intents: Seq<Intent>, n: nat) -> Seq<WantsToAttack>
    decreases n,
{
    if n == 0 {
        Seq::empty()
    } else {
        match intents[n - 1] {
            Intent::Attack(a) => attacks_of(intents, (n - 1) as nat).push(a),
            _ => attacks_of(intents, (n - 1) as nat),
        }
    }
}

/// Whether a live entity with health stands on `p`.
pub fn is_occupied(world: &World, p: Point) -> (r: bool)
    ensures
        r == occupied(world@, p),
{
    let mut i: usize = 0;
    while i < world.entities.len()
        invariant
            i <= world.entities@.len(),
            forall|k: int| 0 <= k < i ==> !(#[trigger] world@[k]).blocks(p),
        decreases world.entities@.len() - i,
    {
        if world.entities[i].alive && world.entities[i].health.is_some() {
            if let Some(at) = world.entities[i].position {
                if at == p {
                    assert(world@[i as int].blocks(p));
                    return true;
                }
            }
        }
        i = i + 1;
    }
    false
}

/// What `mover` asks for when it wants to stand on `destination`.
pub fn decide(world: &World, mover: Entity, destination: Point, player: Entity) -> (intent: Intent)
    ensures
        intent == intent_of(world@, mover, destination, player),
{
    if !is_occupied(world, destination) {
        Intent::Move(WantsToMove { entity: mover, destination })
    } else if player.0 < world.entities.len() && world.entities[player.0].alive
        && world.entities[player.0].health.is_some() && world.entities[player.0].position.is_some()
        && world.entities[player.0].position.unwrap() == destination {
        Intent::Attack(WantsToAttack { attacker: mover, victim: player })
    } else {
        Intent::Stay
    }
}

/// Adds `intent` to the batch that it belongs to.
pub fn enqueue(intent: Intent, ev_movements: &mut Vec<WantsToMove>, ev_attacks: &mut Vec<WantsToAttack>)
    ensures
        final(ev_movements)@ == match intent {
            Intent::Move(m) => old(ev_movements)@.push(m),
            _ => old(ev_movements)@,
        },
        final(ev_attacks)@ == match intent {
            Intent::Attack(a) => old(ev_attacks)@.push(a),
            _ => old(ev_attacks)@,
        },
{
    match intent {
        Intent::Move(m) => {
            ev_movements.push(m);
        },
        Intent::Attack(a) => {
            ev_attacks.push(a);
        },
        Intent::Stay => {},
    }
}

} // verus!
