//! The earliest rule of combat: a monster that shares the player's tile is
//! gone.

use vstd::prelude::*;
use crate::components::Entity;
use crate::world::{consistent, has_sole_player, lemma_same_players, same_players, the_player, Records, World};

verus! {

/// The world once every enemy on the player's tile is despawned.
pub open spec fn collided(s: Seq<Records>) -> Seq<Records> {
    let at = s[the_player(s).0 as int].position.unwrap();
    Seq::new(
        s.len(),
        |i: int|
            if s[i].enemy_on(at) && s[i].render.is_some() {
                s[i].dead()
            } else {
                s[i]
            },
    )
}

/// Despawns every enemy that stands where the player stands.
pub fn collisions(world: &mut World)
    requires
        has_sole_player(old(world)@),
        old(world)@[the_player(old(world)@).0 as int].position.is_some(),
    ensures
        final(world)@ == collided(old(world)@),
{
    let player = world.find_player().unwrap();
    let player_pos = world.entities[player.0].position.unwrap();
    let mut i: usize = 0;
    while i < world.entities.len()
        invariant
            i <= world@.len(),
            world@.len() == old(world)@.len(),
            the_player(old(world)@).0 < old(world)@.len(),
            player_pos == old(world)@[the_player(old(world)@).0 as int].position.unwrap(),
            forall|k: int|
                0 <= k < world@.len() ==> #[trigger] world@[k] == if k < i {
                    collided(old(world)@)[k]
                } else {
                    old(world)@[k]
                },
        decreases world@.len() - i,
    {
        let ghost before = world@;
        if world.entities[i].alive && world.entities[i].enemy.is_some() && world.entities[i].render.is_some() {
            if let Some(at) = world.entities[i].position {
                if at == player_pos {
                    world.entities[i].alive = false;
                    assert(world@ =~= before.update(i as int, before[i as int].dead()));
                }
            }
        }
        i = i + 1;
    }
    assert(world@ =~= collided(old(world)@));
}

/// Collisions leave the world consistent, and the player the player.
pub proof fn lemma_collided_consistent(s: Seq<Records>)
    requires
        consistent(s),
    ensures
        consistent(collided(s)),
        the_player(collided(s)) == the_player(s),
{
    let t = collided(s);
    assert(same_players(s, t)) by {
        assert forall|i: int| 0 <= i < s.len() implies ((#[trigger] t[i]).alive && t[i].player.is_some()) == (
        s[i].alive && s[i].player.is_some()) by {
            if s[i].alive && s[i].player.is_some() {
                assert(crate::world::is_player(s, Entity(i as usize)));
            }
        }
    }
    lemma_same_players(s, t);
}

} // verus!
