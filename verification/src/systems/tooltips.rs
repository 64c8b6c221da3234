//! What the cursor points at: a label for each named entity, to be shown
//! where the entity stands under the cursor.

use vstd::prelude::*;
use crate::components::Entity;
use crate::utils::Point;
use crate::world::{Records, World};

verus! {

/// The label of one entity.
#[derive(Debug)]
pub struct Tooltip {
    pub entity: Entity,
    /// Whether the entity stands under the cursor, so that the label shows.
    pub shown: bool,
    pub name: String,
    /// The entity's health, where it has any.
    pub health: Option<i32>,
}

/// A label, as plain values.
pub struct Label {
    pub entity: Entity,
    pub shown: bool,
    pub name: Seq<char>,
    pub health: Option<i32>,
}

impl View for Tooltip {
    type V = Label;

    open spec fn view(&self) -> Label {
        Label { entity: self.entity, shown: self.shown, name: self.name@, health: self.health }
    }
}

/// Whether the entity gets a label: it lives, stands somewhere and has a
/// name.
pub open spec fn labelled(r: Records) -> bool {
    r.alive && r.position.is_some() && r.name.is_some()
}

/// The labels of the first `n` entities when the cursor is on `map_pos`.
pub open spec fn labels(s: Seq<Records>, map_pos: Point, n: nat) -> Seq<Label>
    decreases n,
{
    if n == 0 {
        Seq::empty()
    } else if labelled(s[n - 1]) {
        labels(s, map_pos, (n - 1) as nat).push(
            Label {
                entity: Entity((n - 1) as usize),
                shown: s[n - 1].position == Some(map_pos),
                name: s[n - 1].name.unwrap(),
                health: match s[n - 1].health {
                    Some(h) => Some(h.current),
                    None => None,
                },
            },
        )
    } else {
        labels(s, map_pos, (n - 1) as nat)
    }
}

/// The label of every named entity that stands somewhere, with whether it
/// shows: it does where the entity stands on `map_pos`.
pub fn tooltips(world: &World, map_pos: Point) -> (tips: Vec<Tooltip>)
    ensures
        tips@.map_values(|t: Tooltip| t@) == labels(world@, map_pos, world@.len()),
{
    let mut tips: Vec<Tooltip> = Vec::new();
    let mut i: usize = 0;
    while i < world.entities.len()
        invariant
            i <= world@.len(),
            tips@.map_values(|t: Tooltip| t@) == labels(world@, map_pos, i as nat),
        decreases world@.len() - i,
    {
        let c = &world.entities[i];
        let ghost before = tips@.map_values(|t: Tooltip| t@);
        if c.alive {
            if let Some(pos) = c.position {
                if let Some(name) = &c.name {
                    let health = match c.health {
                        Some(h) => Some(h.current),
                        None => None,
                    };
                    tips.push(Tooltip { entity: Entity(i), shown: pos == map_pos, name: name.0.clone(), health });
                }
            }
        }
        assert(tips@.map_values(|t: Tooltip| t@) =~= labels(world@, map_pos, (i + 1) as nat));
        i = i + 1;
    }
    tips
}

} // verus!
