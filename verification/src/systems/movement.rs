//! Resolves moves: a mover takes its destination where the map lets it in
//! and nobody is in the way.

use vstd::prelude::*;
use crate::components::{Entity, Sight, WantsToMove};
use crate::map::MapSpec;
use crate::world::{blocked, consistent, lemma_same_players, live, same_players, the_player, Records, World};

verus! {

/// Whether the move can be carried out: the mover lives, stands somewhere
/// and looks around, the map lets a walker onto the destination, and no
/// other entity is in the way there.
pub open spec fn can_move(s: Seq<Records>, map: MapSpec, mv: WantsToMove) -> bool {
    &&& live(s, mv.entity)
    &&& s[mv.entity.0 as int].position.is_some()
    &&& s[mv.entity.0 as int].fov.is_some()
    &&& map.enterable(mv.destination)
    &&& !blocked(s, mv.destination, mv.entity)
}

/// The world after one move: where it can be carried out the mover stands
/// on its destination and must look around anew; any other move is dropped.
pub open spec fn moved(s: Seq<Records>, map: MapSpec, mv: WantsToMove) -> Seq<Records> {
    if can_move(s, map, mv) {
        let mover = s[mv.entity.0 as int];
        s.update(
            mv.entity.0 as int,
            Records {
                position: Some(mv.destination),
                fov: Some(Sight { visible: Seq::empty(), radius: mover.fov.unwrap().radius, is_dirty: true }),
                ..mover
            },
        )
    } else {
        s
    }
}

/// The world after the first `n` of `moves`, one after the other.
pub open spec fn after_moves(s: Seq<Records>, map: MapSpec, moves: Seq<WantsToMove>, n: nat) -> Seq<Records>
    decreases n,
{
    if n == 0 {
        s
    } else {
        moved(after_moves(s, map, moves, (n - 1) as nat), map, moves[n - 1])
    }
}

/// Carries out every move of `ev_movements`, in their order, and empties
/// the batch. Of several movers bound for one tile the first takes it.
pub fn movement(map_spec: &MapSpec, world: &mut World, ev_movements: &mut Vec<WantsToMove>)
    requires
        map_spec.wf(),
    ensures
        final(world)@ == after_moves(old(world)@, *map_spec, old(ev_movements)@, old(ev_movements)@.len()),
        final(ev_movements)@.len() == 0,
{
    let mut i: usize = 0;
    while i < ev_movements.len()
        invariant
            map_spec.wf(),
            i <= ev_movements@.len(),
            ev_movements@ == old(ev_movements)@,
            world@ == after_moves(old(world)@, *map_spec, ev_movements@, i as nat),
        decreases ev_movements@.len() - i,
    {
        let mv = ev_movements[i];
        let entity = mv.entity;
        let ghost before = world@;
        if map_spec.can_enter_tile(mv.destination) && entity.0 < world.entities.len() && world.entities[entity.0].alive
            && world.entities[entity.0].position.is_some() && world.entities[entity.0].fov.is_some()
            && !world.is_blocked(mv.destination, entity) {
            let fov = world.entities[entity.0].fov.as_ref().unwrap().clone_dirty();
            world.entities[entity.0].position = Some(mv.destination);
            world.entities[entity.0].fov = Some(fov);
        }
        assert(world@ =~= moved(before, *map_spec, mv));
        i = i + 1;
    }
    ev_movements.clear();
}

/// A move leaves the world consistent, and the player the player.
pub proof fn lemma_moved_consistent(s: Seq<Records>, map: MapSpec, mv: WantsToMove)
    requires
        consistent(s),
        map.wf(),
    ensures
        consistent(moved(s, map, mv)),
        the_player(moved(s, map, mv)) == the_player(s),
        moved(s, map, mv).len() == s.len(),
{
    let t = moved(s, map, mv);
    assert(same_players(s, t));
    lemma_same_players(s, t);
}

/// Movement leaves the world consistent, and the player the player.
pub proof fn lemma_movement_consistent(s: Seq<Records>, map: MapSpec, moves: Seq<WantsToMove>, n: nat)
    requires
        consistent(s),
        map.wf(),
        n <= moves.len(),
    ensures
        consistent(after_moves(s, map, moves, n)),
        the_player(after_moves(s, map, moves, n)) == the_player(s),
        after_moves(s, map, moves, n).len() == s.len(),
    decreases n,
{
    if n > 0 {
        lemma_movement_consistent(s, map, moves, (n - 1) as nat);
        lemma_moved_consistent(after_moves(s, map, moves, (n - 1) as nat), map, moves[n - 1]);
    }
}

/// Whoever has moved stands on floor, on the map, and must look around
/// anew.
pub proof fn lemma_mover_arrives(s: Seq<Records>, map: MapSpec, mv: WantsToMove)
    requires
        can_move(s, map, mv),
    ensures
        moved(s, map, mv)[mv.entity.0 as int].position == Some(mv.destination),
        map.enterable(mv.destination),
        moved(s, map, mv)[mv.entity.0 as int].looks_anew(),
{
}

} // verus!
