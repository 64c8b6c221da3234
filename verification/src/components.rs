//! The records that make up an entity, and the intents that entities emit.

use vstd::prelude::*;
use crate::utils::Point;

verus! {

/// Names an entity of a `World`: the number of its slot.
#[derive(PartialEq, Eq, Structural, Clone, Copy, Debug, Hash)]
pub struct Entity(pub usize);

#[derive(PartialEq, Eq, Structural, Clone, Copy, Debug)]
pub struct Render {
    pub sprite_index: usize,
    pub sprite_order: usize,
}

impl Default for Render {
    fn default() -> (r: Render)
        ensures
            r == (Render { sprite_index: 0, sprite_order: 0 }),
    {
        Render { sprite_index: 0, sprite_order: 0 }
    }
}

#[derive(PartialEq, Eq, Structural, Clone, Copy, Debug)]
pub struct Player {
    pub map_level: u32,
}

#[derive(PartialEq, Eq, Structural, Clone, Copy, Debug)]
pub struct Enemy;

#[derive(PartialEq, Eq, Structural, Clone, Copy, Debug)]
pub struct MovingRandomly;

#[derive(PartialEq, Eq, Structural, Clone, Copy, Debug)]
pub struct ChasingPlayer;

#[derive(PartialEq, Eq, Structural, Clone, Copy, Debug)]
pub struct Item;

#[derive(PartialEq, Eq, Structural, Clone, Copy, Debug)]
pub struct AmuletOfYala;

#[derive(PartialEq, Eq, Structural, Clone, Copy, Debug)]
pub struct Weapon;

/// Marks an item as picked up, and names who carries it.
#[derive(PartialEq, Eq, Structural, Clone, Copy, Debug)]
pub struct Carried(pub Entity);

/// The damage that an attacker deals, or that a weapon adds.
#[derive(PartialEq, Eq, Structural, Clone, Copy, Debug)]
pub struct Damage(pub i32);

#[derive(PartialEq, Eq, Structural, Clone, Copy, Debug)]
pub struct ProvidesHealing {
    pub amount: i32,
}

#[derive(PartialEq, Eq, Structural, Clone, Copy, Debug)]
pub struct ProvidesDungeonMap;

#[derive(PartialEq, Eq, Structural, Clone, Copy, Debug)]
pub struct Health {
    pub current: i32,
    pub max: i32,
}

impl Default for Health {
    fn default() -> (h: Health)
        ensures
            h == (Health { current: 0, max: 0 }),
    {
        Health { current: 0, max: 0 }
    }
}

#[derive(Clone, Debug)]
pub struct Name(pub String);

/// An entity asks to stand on `destination`.
#[derive(PartialEq, Eq, Structural, Clone, Copy, Debug)]
pub struct WantsToMove {
    pub entity: Entity,
    pub destination: Point,
}

/// `attacker` asks to hit `victim`.
#[derive(PartialEq, Eq, Structural, Clone, Copy, Debug)]
pub struct WantsToAttack {
    pub attacker: Entity,
    pub victim: Entity,
}

/// `used_by` asks to use up `item`.
#[derive(PartialEq, Eq, Structural, Clone, Copy, Debug)]
pub struct ActivateItem {
    pub used_by: Entity,
    pub item: Entity,
}

/// What an entity sees, as plain values.
pub struct Sight {
    pub visible: Seq<Point>,
    pub radius: i32,
    pub is_dirty: bool,
}

impl View for FieldOfView {
    type V = Sight;

    open spec fn view(&self) -> Sight {
        Sight { visible: self.visible_tiles@, radius: self.radius, is_dirty: self.is_dirty }
    }
}

/// What an entity sees: the tiles in view, how far it looks, and whether
/// the tiles are out of date because it has moved since they were computed.
#[derive(Clone, Debug)]
pub struct FieldOfView {
    pub visible_tiles: Vec<Point>,
    pub radius: i32,
    pub is_dirty: bool,
}

impl FieldOfView {
    /// The tiles in view, as a set.
    pub open spec fn visible(&self) -> Set<Point> {
        self.visible_tiles@.to_set()
    }

    /// A view of nothing yet, to be computed.
    pub fn new(radius: i32) -> (fov: FieldOfView)
        ensures
            fov@ == (Sight { visible: Seq::empty(), radius, is_dirty: true }),
    {
        let fov = FieldOfView { visible_tiles: Vec::new(), radius, is_dirty: true };
        assert(fov.visible_tiles@ =~= Seq::empty());
        fov
    }

    /// The view of one who has just moved: the same radius, nothing in
    /// view, to be computed.
    pub fn clone_dirty(&self) -> (fov: FieldOfView)
        ensures
            fov@ == (Sight { visible: Seq::empty(), radius: self.radius, is_dirty: true }),
    {
        let fov = FieldOfView { visible_tiles: Vec::new(), radius: self.radius, is_dirty: true };
        assert(fov.visible_tiles@ =~= Seq::empty());
        fov
    }

    /// Whether `point` is in view.
    pub fn sees(&self, point: Point) -> (r: bool)
        ensures
            r == self.visible().contains(point),
    {
        let mut i: usize = 0;
        while i < self.visible_tiles.len()
            invariant
                i <= self.visible_tiles@.len(),
                forall|k: int| 0 <= k < i ==> self.visible_tiles@[k] != point,
            decreases self.visible_tiles@.len() - i,
        {
            if self.visible_tiles[i] == point {
                assert(self.visible_tiles@.contains(point));
                return true;
            }
            i = i + 1;
        }
        assert(!self.visible_tiles@.contains(point));
        false
    }
}

/// What the player is made of.
pub struct PlayerBundle {
    pub player: Player,
    pub position: Point,
    pub render: Render,
    pub health: Health,
    pub fov: FieldOfView,
}

/// What a monster is made of.
pub struct EnemyBundle {
    pub enemy: Enemy,
    pub position: Point,
    pub render: Render,
    pub chasing_player: ChasingPlayer,
    pub health: Health,
    pub name: Name,
    pub fov: FieldOfView,
}

/// What the amulet is made of.
pub struct AmuletBundle {
    pub amulet: AmuletOfYala,
    pub position: Point,
    pub render: Render,
    pub name: Name,
    pub item: Item,
}

} // verus!
