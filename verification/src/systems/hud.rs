//! What the inventory shows: the items that the player carries, numbered as
//! the keys that use them.

use vstd::prelude::*;
use crate::components::Entity;
use crate::systems::player_input::{carried_count, is_nth_carried, lemma_nth_carried_unique, nth_carried};
use crate::world::{has_sole_player, the_player, World};

verus! {

/// One line of the inventory.
#[derive(PartialEq, Eq, Structural, Clone, Copy, Debug)]
pub struct InventoryLine {
    /// The key that uses the item, counted from 1.
    pub key: usize,
    pub item: Entity,
}

/// The lines of the inventory: the items that the player carries, in the
/// order in which `UseItem` counts them. The inventory is to be shown
/// where there is a line at all.
pub fn inventory_hud(world: &World) -> (lines: Vec<InventoryLine>)
    requires
        has_sole_player(world@),
    ensures
        forall|k: int|
            0 <= k < lines@.len() ==> {
                &&& (#[trigger] lines@[k]).key == k + 1
                &&& nth_carried(world@, the_player(world@), k as nat) == Some(lines@[k].item)
            },
        nth_carried(world@, the_player(world@), lines@.len()).is_none(),
        lines@.len() == carried_count(world@, the_player(world@), world@.len()),
{
    let player = world.find_player().unwrap();
    let mut lines: Vec<InventoryLine> = Vec::new();
    let mut i: usize = 0;
    while i < world.entities.len()
        invariant
            i <= world@.len(),
            player == the_player(world@),
            lines@.len() == carried_count(world@, player, i as nat),
            lines@.len() <= i,
            forall|k: int|
                0 <= k < lines@.len() ==> {
                    &&& (#[trigger] lines@[k]).key == k + 1
                    &&& nth_carried(world@, player, k as nat) == Some(lines@[k].item)
                },
            forall|e: Entity| e.0 < i ==> !is_nth_carried(world@, player, lines@.len(), e),
        decreases world@.len() - i,
    {
        let c = &world.entities[i];
        let carried = c.alive && c.item.is_some() && match c.carried {
            Some(owner) => owner.0 == player,
            None => false,
        };
        if carried {
            proof {
                lemma_nth_carried_unique(world@, player, lines@.len(), Entity(i));
            }
            let ghost before = lines@;
            lines.push(InventoryLine { key: lines.len() + 1, item: Entity(i) });
            proof {
                assert forall|k: int| 0 <= k < lines@.len() implies {
                    &&& (#[trigger] lines@[k]).key == k + 1
                    &&& nth_carried(world@, player, k as nat) == Some(lines@[k].item)
                } by {
                    if k < before.len() {
                        assert(lines@[k] == before[k]);
                    }
                }
                assert forall|e: Entity| e.0 < i + 1 implies !is_nth_carried(world@, player, lines@.len(), e) by {
                    if is_nth_carried(world@, player, lines@.len(), e) {
                        crate::systems::player_input::lemma_carried_count_monotone(
                            world@,
                            player,
                            e.0 as nat,
                            i as nat,
                        );
                    }
                }
            }
        }
        i = i + 1;
    }
    lines
}

} // verus!
