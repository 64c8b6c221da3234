//! The entity store: one slot of optional records per entity, and its
//! mathematical model.

use vstd::prelude::*;
use crate::components::{
    AmuletOfYala, Carried, ChasingPlayer, Damage, Enemy, Entity, FieldOfView, Health, Item, MovingRandomly, Name,
    Player, ProvidesDungeonMap, ProvidesHealing, Render, Sight, Weapon,
};
use crate::map::{on_grid, TILEMAP_HEIGHT, TILEMAP_WIDTH};
use crate::utils::Point;

verus! {

/// The records of one entity, as plain values.
pub struct Records {
    pub alive: bool,
    pub position: Option<Point>,
    pub render: Option<Render>,
    pub health: Option<Health>,
    pub fov: Option<Sight>,
    pub name: Option<Seq<char>>,
    pub player: Option<Player>,
    pub enemy: Option<Enemy>,
    pub moving_randomly: Option<MovingRandomly>,
    pub chasing_player: Option<ChasingPlayer>,
    pub item: Option<Item>,
    pub amulet: Option<AmuletOfYala>,
    pub weapon: Option<Weapon>,
    pub carried: Option<Carried>,
    pub damage: Option<Damage>,
    pub provides_healing: Option<ProvidesHealing>,
    pub provides_dungeon_map: Option<ProvidesDungeonMap>,
}

impl Records {
    /// Whether the entity lives and stands on `p`.
    pub open spec fn stands_on(self, p: Point) -> bool {
        self.alive && self.position == Some(p)
    }

    /// Whether the entity is in the way of whoever wants to stand on `p`:
    /// it lives, stands there and has health.
    pub open spec fn blocks(self, p: Point) -> bool {
        self.stands_on(p) && self.health.is_some()
    }

    /// Whether the entity is a live enemy that stands on `p`.
    pub open spec fn enemy_on(self, p: Point) -> bool {
        self.stands_on(p) && self.enemy.is_some()
    }

    /// Whether the entity is an item that lies on `p`, to be picked up.
    pub open spec fn item_on(self, p: Point) -> bool {
        self.stands_on(p) && self.item.is_some() && self.render.is_some()
    }

    /// Whether the entity is an item that `owner` carries.
    pub open spec fn carried_item_of(self, owner: Entity) -> bool {
        self.alive && self.item.is_some() && self.carried == Some(Carried(owner))
    }

    /// Whether the entity is a weapon that `owner` carries.
    pub open spec fn carried_weapon_of(self, owner: Entity) -> bool {
        self.alive && self.weapon.is_some() && self.carried == Some(Carried(owner))
    }

    /// Whether the entity looks around and must look again.
    pub open spec fn looks_anew(self) -> bool {
        self.alive && self.position.is_some() && self.fov.is_some() && self.fov.unwrap().is_dirty
    }

    /// The same entity, despawned.
    pub open spec fn dead(self) -> Records {
        Records { alive: false, ..self }
    }
}

/// Everything that can be said of one entity. A record that the entity
/// lacks is `None`.
#[derive(Clone, Debug)]
pub struct Components {
    /// False once the entity was despawned.
    pub alive: bool,
    pub position: Option<Point>,
    pub render: Option<Render>,
    pub health: Option<Health>,
    pub fov: Option<FieldOfView>,
    pub name: Option<Name>,
    pub player: Option<Player>,
    pub enemy: Option<Enemy>,
    pub moving_randomly: Option<MovingRandomly>,
    pub chasing_player: Option<ChasingPlayer>,
    pub item: Option<Item>,
    pub amulet: Option<AmuletOfYala>,
    pub weapon: Option<Weapon>,
    pub carried: Option<Carried>,
    pub damage: Option<Damage>,
    pub provides_healing: Option<ProvidesHealing>,
    pub provides_dungeon_map: Option<ProvidesDungeonMap>,
}

impl View for Components {
    type V = Records;

    open spec fn view(&self) -> Records {
        Records {
            alive: self.alive,
            position: self.position,
            render: self.render,
            health: self.health,
            fov: match self.fov {
                Some(f) => Some(f@),
                None => None,
            },
            name: match self.name {
                Some(n) => Some(n.0@),
                None => None,
            },
            player: self.player,
            enemy: self.enemy,
            moving_randomly: self.moving_randomly,
            chasing_player: self.chasing_player,
            item: self.item,
            amulet: self.amulet,
            weapon: self.weapon,
            carried: self.carried,
            damage: self.damage,
            provides_healing: self.provides_healing,
            provides_dungeon_map: self.provides_dungeon_map,
        }
    }
}

impl Components {
    /// A live entity without any record.
    pub fn bare() -> (c: Components)
        ensures
            c@ == bare_records(),
    {
        Components {
            alive: true,
            position: None,
            render: None,
            health: None,
            fov: None,
            name: None,
            player: None,
            enemy: None,
            moving_randomly: None,
            chasing_player: None,
            item: None,
            amulet: None,
            weapon: None,
            carried: None,
            damage: None,
            provides_healing: None,
            provides_dungeon_map: None,
        }
    }
}

/// A live entity without any record.
pub open spec fn bare_records() -> Records {
    Records {
        alive: true,
        position: None,
        render: None,
        health: None,
        fov: None,
        name: None,
        player: None,
        enemy: None,
        moving_randomly: None,
        chasing_player: None,
        item: None,
        amulet: None,
        weapon: None,
        carried: None,
        damage: None,
        provides_healing: None,
        provides_dungeon_map: None,
    }
}

/// Whether `e` names an entity of `s` that lives.
pub open spec fn live(s: Seq<Records>, e: Entity) -> bool {
    e.0 < s.len() && s[e.0 as int].alive
}

/// Whether `e` is a live player.
pub open spec fn is_player(s: Seq<Records>, e: Entity) -> bool {
    live(s, e) && s[e.0 as int].player.is_some()
}

/// Whether `e` is the one live player.
pub open spec fn sole_player(s: Seq<Records>, e: Entity) -> bool {
    &&& is_player(s, e)
    &&& forall|i: usize| #[trigger] is_player(s, Entity(i)) ==> i == e.0
}

/// Whether exactly one player lives.
pub open spec fn has_sole_player(s: Seq<Records>) -> bool {
    exists|i: usize| #[trigger] sole_player(s, Entity(i))
}

/// The one live player.
pub open spec fn the_player(s: Seq<Records>) -> Entity {
    Entity(choose|i: usize| #[trigger] sole_player(s, Entity(i)))
}

/// Whether `e` is a live amulet that lies somewhere.
pub open spec fn is_amulet(s: Seq<Records>, e: Entity) -> bool {
    live(s, e) && s[e.0 as int].amulet.is_some() && s[e.0 as int].position.is_some()
}

/// Whether `e` is the one live amulet that lies somewhere.
pub open spec fn sole_amulet(s: Seq<Records>, e: Entity) -> bool {
    &&& is_amulet(s, e)
    &&& forall|i: usize| #[trigger] is_amulet(s, Entity(i)) ==> i == e.0
}

/// Where the amulet lies; `None` where no amulet lies anywhere, or several
/// do.
pub open spec fn goal_tile(s: Seq<Records>) -> Option<Point> {
    if exists|i: usize| #[trigger] sole_amulet(s, Entity(i)) {
        s[(choose|i: usize| #[trigger] sole_amulet(s, Entity(i))) as int].position
    } else {
        None
    }
}

/// Whether every live entity that has a position stands on the map.
pub open spec fn on_map(s: Seq<Records>) -> bool {
    forall|i: int|
        0 <= i < s.len() && (#[trigger] s[i]).alive && s[i].position.is_some() ==> on_grid(s[i].position.unwrap())
}

/// Whether a live entity other than `except` is in the way on `p`.
pub open spec fn blocked(s: Seq<Records>, p: Point, except: Entity) -> bool {
    exists|i: int| 0 <= i < s.len() && i != except.0 && (#[trigger] s[i]).blocks(p)
}

/// Whether the entity has one way of moving at most: as the player, at
/// random, or after the player.
pub open spec fn one_behaviour(r: Records) -> bool {
    &&& !(r.player.is_some() && r.moving_randomly.is_some())
    &&& !(r.player.is_some() && r.chasing_player.is_some())
    &&& !(r.moving_randomly.is_some() && r.chasing_player.is_some())
}

/// What holds of the entities between any two systems: each can be named;
/// exactly one player
/// lives, who stands somewhere, has health and a view and is neither item
/// nor enemy; whoever stands somewhere stands on the map; what is carried
/// lies nowhere; and nobody moves in two ways.
pub open spec fn consistent(s: Seq<Records>) -> bool {
    &&& s.len() <= usize::MAX
    &&& has_sole_player(s)
    &&& {
        let player = s[the_player(s).0 as int];
        &&& player.position.is_some()
        &&& player.health.is_some()
        &&& player.fov.is_some()
        &&& player.item.is_none()
        &&& player.enemy.is_none()
    }
    &&& on_map(s)
    &&& forall|i: int|
        0 <= i < s.len() && (#[trigger] s[i]).alive ==> {
            &&& s[i].carried.is_some() ==> s[i].position.is_none()
            &&& one_behaviour(s[i])
        }
}

/// Whether `t` has the players of `s`: the same entities, of which the same
/// are live players.
pub open spec fn same_players(s: Seq<Records>, t: Seq<Records>) -> bool {
    &&& t.len() == s.len()
    &&& forall|i: int|
        0 <= i < s.len() ==> ((#[trigger] t[i]).alive && t[i].player.is_some()) == (s[i].alive && s[i].player.is_some())
}

/// Worlds with the same players have the same one player, or none.
pub proof fn lemma_same_players(s: Seq<Records>, t: Seq<Records>)
    requires
        same_players(s, t),
    ensures
        has_sole_player(t) == has_sole_player(s),
        has_sole_player(s) ==> the_player(t) == the_player(s),
{
    assert forall|e: Entity| is_player(t, e) == is_player(s, e) by {
        if e.0 < s.len() {
            assert((t[e.0 as int].alive && t[e.0 as int].player.is_some()) == (s[e.0 as int].alive
                && s[e.0 as int].player.is_some()));
        }
    }
    if has_sole_player(s) {
        let i = choose|i: usize| #[trigger] sole_player(s, Entity(i));
        assert(sole_player(t, Entity(i))) by {
            assert forall|k: usize| #[trigger] is_player(t, Entity(k)) implies k == i by {
                assert(is_player(s, Entity(k)));
            }
        }
        let j = choose|j: usize| #[trigger] sole_player(t, Entity(j));
        assert(is_player(t, Entity(i)));
        assert(j == i);
    }
    if has_sole_player(t) {
        let i = choose|i: usize| #[trigger] sole_player(t, Entity(i));
        assert(sole_player(s, Entity(i))) by {
            assert forall|k: usize| #[trigger] is_player(s, Entity(k)) implies k == i by {
                assert(is_player(t, Entity(k)));
            }
        }
    }
}

/// New entities that are no players leave the one player the one player.
pub proof fn lemma_more_entities(s: Seq<Records>, t: Seq<Records>)
    requires
        s.len() <= t.len() <= usize::MAX,
        t.take(s.len() as int) == s,
        forall|i: int| s.len() <= i < t.len() ==> !((#[trigger] t[i]).alive && t[i].player.is_some()),
    ensures
        has_sole_player(t) == has_sole_player(s),
        has_sole_player(s) ==> the_player(t) == the_player(s),
{
    assert forall|e: Entity| is_player(t, e) == is_player(s, e) by {
        if e.0 < s.len() {
            assert(t.take(s.len() as int)[e.0 as int] == t[e.0 as int]);
        } else if e.0 < t.len() {
            assert(!(t[e.0 as int].alive && t[e.0 as int].player.is_some()));
        }
    }
    if has_sole_player(s) {
        let i = choose|i: usize| #[trigger] sole_player(s, Entity(i));
        assert(sole_player(t, Entity(i))) by {
            assert forall|k: usize| #[trigger] is_player(t, Entity(k)) implies k == i by {
                assert(is_player(s, Entity(k)));
            }
        }
        let j = choose|j: usize| #[trigger] sole_player(t, Entity(j));
        assert(is_player(t, Entity(i)));
        assert(j == i);
    }
    if has_sole_player(t) {
        let i = choose|i: usize| #[trigger] sole_player(t, Entity(i));
        assert(sole_player(s, Entity(i))) by {
            assert forall|k: usize| #[trigger] is_player(s, Entity(k)) implies k == i by {
                assert(is_player(t, Entity(k)));
            }
        }
    }
}

/// All entities of the game, each in the slot that its `Entity` names.
/// Despawning an entity leaves its slot behind, so that no name is ever
/// given twice.
#[derive(Clone, Debug)]
pub struct World {
    pub entities: Vec<Components>,
}

impl View for World {
    type V = Seq<Records>;

    open spec fn view(&self) -> Seq<Records> {
        self.entities@.map_values(|c: Components| c@)
    }
}

impl World {
    pub fn new() -> (w: World)
        ensures
            w@.len() == 0,
    {
        World { entities: Vec::new() }
    }

    /// Adds a live entity made of `components` and returns its name.
    pub fn spawn(&mut self, components: Components) -> (e: Entity)
        ensures
            e.0 == old(self)@.len(),
            final(self)@ == old(self)@.push(Records { alive: true, ..components@ }),
    {
        let mut components = components;
        components.alive = true;
        let e = Entity(self.entities.len());
        self.entities.push(components);
        assert(self@ =~= old(self)@.push(components@));
        e
    }

    /// Despawns `e`. Nothing happens where `e` names no entity.
    pub fn despawn(&mut self, e: Entity)
        ensures
            e.0 < old(self)@.len() ==> final(self)@ == old(self)@.update(e.0 as int, old(self)@[e.0 as int].dead()),
            e.0 >= old(self)@.len() ==> final(self)@ == old(self)@,
    {
        if e.0 < self.entities.len() {
            self.entities[e.0].alive = false;
            assert(self@ =~= old(self)@.update(e.0 as int, old(self)@[e.0 as int].dead()));
        }
    }

    /// Whether `e` names an entity that lives.
    pub fn is_live(&self, e: Entity) -> (r: bool)
        ensures
            r == live(self@, e),
    {
        e.0 < self.entities.len() && self.entities[e.0].alive
    }

    /// The one live player; `None` where the world has none, or several.
    pub fn find_player(&self) -> (r: Option<Entity>)
        ensures
            match r {
                Some(e) => sole_player(self@, e) && e == the_player(self@),
                None => !has_sole_player(self@),
            },
    {
        let mut found: Option<Entity> = None;
        let mut i: usize = 0;
        while i < self.entities.len()
            invariant
                i <= self.entities@.len(),
                match found {
                    Some(e) => e.0 < i && is_player(self@, e) && forall|k: usize|
                        k < i && #[trigger] is_player(self@, Entity(k)) ==> k == e.0,
                    None => forall|k: usize| k < i ==> !#[trigger] is_player(self@, Entity(k)),
                },
            decreases self.entities@.len() - i,
        {
            if self.entities[i].alive && self.entities[i].player.is_some() {
                match found {
                    Some(e) => {
                        proof {
                            assert(is_player(self@, Entity(i)));
                            assert forall|k: usize| !#[trigger] sole_player(self@, Entity(k)) by {
                                if sole_player(self@, Entity(k)) {
                                    assert(is_player(self@, Entity(i)));
                                    assert(is_player(self@, e));
                                }
                            }
                        }
                        return None;
                    },
                    None => {
                        found = Some(Entity(i));
                    },
                }
            }
            i = i + 1;
        }
        match found {
            Some(e) => {
                proof {
                    assert(sole_player(self@, Entity(e.0)));
                    let c = choose|k: usize| #[trigger] sole_player(self@, Entity(k));
                    assert(is_player(self@, Entity(c)));
                }
                Some(e)
            },
            None => {
                proof {
                    assert forall|k: usize| !#[trigger] sole_player(self@, Entity(k)) by {
                        if sole_player(self@, Entity(k)) {
                            assert(is_player(self@, Entity(k)));
                        }
                    }
                }
                None
            },
        }
    }

    /// Where the amulet lies; `None` where no amulet lies anywhere, or
    /// several do.
    pub fn find_goal(&self) -> (r: Option<Point>)
        ensures
            r == goal_tile(self@),
    {
        let mut found: Option<usize> = None;
        let mut i: usize = 0;
        while i < self.entities.len()
            invariant
                i <= self.entities@.len(),
                match found {
                    Some(at) => at < i && is_amulet(self@, Entity(at)) && forall|k: usize|
                        k < i && #[trigger] is_amulet(self@, Entity(k)) ==> k == at,
                    None => forall|k: usize| k < i ==> !#[trigger] is_amulet(self@, Entity(k)),
                },
            decreases self.entities@.len() - i,
        {
            if self.entities[i].alive && self.entities[i].amulet.is_some() && self.entities[i].position.is_some() {
                match found {
                    Some(at) => {
                        proof {
                            assert(is_amulet(self@, Entity(i)));
                            assert forall|k: usize| !#[trigger] sole_amulet(self@, Entity(k)) by {
                                if sole_amulet(self@, Entity(k)) {
                                    assert(is_amulet(self@, Entity(i)));
                                    assert(is_amulet(self@, Entity(at)));
                                }
                            }
                        }
                        return None;
                    },
                    None => {
                        found = Some(i);
                    },
                }
            }
            i = i + 1;
        }
        match found {
            Some(at) => {
                proof {
                    assert(sole_amulet(self@, Entity(at)));
                    let c = choose|k: usize| #[trigger] sole_amulet(self@, Entity(k));
                    assert(is_amulet(self@, Entity(c)));
                }
                self.entities[at].position
            },
            None => {
                proof {
                    assert forall|k: usize| !#[trigger] sole_amulet(self@, Entity(k)) by {
                        if sole_amulet(self@, Entity(k)) {
                            assert(is_amulet(self@, Entity(k)));
                        }
                    }
                }
                None
            },
        }
    }

    /// Whether a live entity other than `except` is in the way on `p`.
    pub fn is_blocked(&self, p: Point, except: Entity) -> (r: bool)
        ensures
            r == blocked(self@, p, except),
    {
        let mut i: usize = 0;
        while i < self.entities.len()
            invariant
                i <= self.entities@.len(),
                forall|k: int| 0 <= k < i && k != except.0 ==> !(#[trigger] self@[k]).blocks(p),
            decreases self.entities@.len() - i,
        {
            if i != except.0 && self.entities[i].alive && self.entities[i].health.is_some() {
                if let Some(at) = self.entities[i].position {
                    if at == p {
                        assert(self@[i as int].blocks(p));
                        return true;
                    }
                }
            }
            i = i + 1;
        }
        false
    }

    /// Whether the world is consistent.
    pub fn is_consistent(&self) -> (r: bool)
        ensures
            r == consistent(self@),
    {
        assert(self@.len() == self.entities.len());
        let player = match self.find_player() {
            Some(player) => player,
            None => {
                return false;
            },
        };
        let p = &self.entities[player.0];
        if !(p.position.is_some() && p.health.is_some() && p.fov.is_some() && p.item.is_none() && p.enemy.is_none()) {
            return false;
        }
        if !self.is_on_map() {
            return false;
        }
        let mut i: usize = 0;
        while i < self.entities.len()
            invariant
                i <= self@.len(),
                forall|k: int|
                    0 <= k < i && (#[trigger] self@[k]).alive ==> {
                        &&& self@[k].carried.is_some() ==> self@[k].position.is_none()
                        &&& one_behaviour(self@[k])
                    },
            decreases self@.len() - i,
        {
            let c = &self.entities[i];
            if c.alive {
                let two_ways = (c.player.is_some() && c.moving_randomly.is_some()) || (c.player.is_some()
                    && c.chasing_player.is_some()) || (c.moving_randomly.is_some() && c.chasing_player.is_some());
                if two_ways || (c.carried.is_some() && c.position.is_some()) {
                    assert(self@[i as int].alive);
                    return false;
                }
            }
            i = i + 1;
        }
        true
    }

    /// Whether every live entity that has a position stands on the map.
    pub fn is_on_map(&self) -> (r: bool)
        ensures
            r == on_map(self@),
    {
        let mut i: usize = 0;
        while i < self.entities.len()
            invariant
                i <= self.entities@.len(),
                forall|k: int|
                    0 <= k < i && (#[trigger] self@[k]).alive && self@[k].position.is_some() ==> on_grid(
                        self@[k].position.unwrap(),
                    ),
            decreases self.entities@.len() - i,
        {
            if self.entities[i].alive {
                if let Some(p) = self.entities[i].position {
                    if !(p.x >= 0 && p.x < TILEMAP_WIDTH && p.y >= 0 && p.y < TILEMAP_HEIGHT) {
                        assert(self@[i as int].alive);
                        return false;
                    }
                }
            }
            i = i + 1;
        }
        true
    }
}

} // verus!
