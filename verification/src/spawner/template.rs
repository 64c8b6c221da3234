//! The table of what can live in a dungeon: one template per kind of
//! monster or item, with the levels on which it occurs and how often.

use vstd::prelude::*;
use std::collections::HashSet;
use rand::rngs::StdRng;
use crate::components::{
    ChasingPlayer, Enemy, Entity, FieldOfView, Health, Item, Name, ProvidesDungeonMap, ProvidesHealing, Render,
    Sight,
};
use crate::random::choose_one;
use crate::utils::{cp437_code, to_cp437, Point};
use crate::world::{bare_records, Components, Records, World};

verus! {

broadcast use vstd::std_specs::hash::group_hash_axioms;

/// How far a monster looks.
pub const MONSTER_SIGHT: i32 = 6;

#[derive(PartialEq, Eq, Structural, Clone, Copy, Debug)]
pub enum EntityType {
    Enemy,
    Item,
}

/// One kind of monster or item.
#[derive(Debug)]
pub struct Template {
    pub entity_type: EntityType,
    /// The levels on which the kind occurs.
    pub levels: HashSet<usize>,
    /// How often the kind occurs, against the others.
    pub frequency: i32,
    pub name: String,
    pub glyph: char,
    pub sprite_order: usize,
    /// What the kind provides: pairs of a keyword and an amount.
    pub provides: Option<Vec<(String, i32)>>,
    /// The health of a monster of the kind.
    pub hp: Option<i32>,
}

/// A template, as plain values.
pub struct Kind {
    pub entity_type: EntityType,
    pub levels: Set<usize>,
    pub frequency: i32,
    pub name: Seq<char>,
    pub glyph: char,
    pub sprite_order: usize,
    pub provides: Option<Seq<(Seq<char>, i32)>>,
    pub hp: Option<i32>,
}

impl View for Template {
    type V = Kind;

    open spec fn view(&self) -> Kind {
        Kind {
            entity_type: self.entity_type,
            levels: self.levels@,
            frequency: self.frequency,
            name: self.name@,
            glyph: self.glyph,
            sprite_order: self.sprite_order,
            provides: match self.provides {
                Some(effects) => Some(effects@.map_values(|e: (String, i32)| (e.0@, e.1))),
                None => None,
            },
            hp: self.hp,
        }
    }
}

/// The table of templates.
#[derive(Debug)]
pub struct Templates {
    pub entities: Vec<Template>,
}

impl View for Templates {
    type V = Seq<Kind>;

    open spec fn view(&self) -> Seq<Kind> {
        self.entities@.map_values(|t: Template| t@)
    }
}

/// The keyword of an effect that heals.
pub open spec fn healing_keyword() -> Seq<char> {
    "Healing"@
}

/// The keyword of an effect that reveals the map.
pub open spec fn map_keyword() -> Seq<char> {
    "MagicMap"@
}

/// The healing that the first `n` of `effects` provide: that of the last
/// one that heals.
pub open spec fn healing_among(effects: Seq<(Seq<char>, i32)>, n: nat) -> Option<ProvidesHealing>
    decreases n,
{
    if n == 0 {
        None
    } else if effects[n - 1].0 == healing_keyword() {
        Some(ProvidesHealing { amount: effects[n - 1].1 })
    } else {
        healing_among(effects, (n - 1) as nat)
    }
}

/// Whether one of the first `n` of `effects` reveals the map.
pub open spec fn map_among(effects: Seq<(Seq<char>, i32)>, n: nat) -> Option<ProvidesDungeonMap>
    decreases n,
{
    if n == 0 {
        None
    } else if effects[n - 1].0 != healing_keyword() && effects[n - 1].0 == map_keyword() {
        Some(ProvidesDungeonMap)
    } else {
        map_among(effects, (n - 1) as nat)
    }
}

/// Whether an entity can be made of the kind: a monster needs health.
pub open spec fn spawnable_kind(kind: Kind) -> bool {
    kind.entity_type == EntityType::Enemy ==> kind.hp.is_some()
}

/// The entity of kind `kind` that stands on `position`. An item is an item;
/// a monster is an enemy that chases the player, looks `MONSTER_SIGHT`
/// tiles far and has the kind's health. Either provides what the kind's
/// effects say; an effect with an unknown keyword provides nothing.
pub open spec fn spawned(kind: Kind, position: Point) -> Records {
    let base = Records {
        position: Some(position),
        render: Some(Render { sprite_index: cp437_code(kind.glyph) as usize, sprite_order: kind.sprite_order }),
        name: Some(kind.name),
        ..bare_records()
    };
    let typed = match kind.entity_type {
        EntityType::Item => Records { item: Some(Item), ..base },
        EntityType::Enemy => Records {
            enemy: Some(Enemy),
            fov: Some(Sight { visible: Seq::empty(), radius: MONSTER_SIGHT, is_dirty: true }),
            chasing_player: Some(ChasingPlayer),
            health: Some(Health { current: kind.hp.unwrap(), max: kind.hp.unwrap() }),
            ..base
        },
    };
    match kind.provides {
        Some(effects) => Records {
            provides_healing: healing_among(effects, effects.len()),
            provides_dungeon_map: map_among(effects, effects.len()),
            ..typed
        },
        None => typed,
    }
}

/// How many lots the kind has in the draw for `level`: its frequency where
/// it occurs on the level, else none.
pub open spec fn lots(kind: Kind, level: usize) -> nat {
    if kind.levels.contains(level) && kind.frequency > 0 {
        kind.frequency as nat
    } else {
        0
    }
}

/// The lots of the first `n` kinds in the draw for `level`: each kind's
/// number, as often as it has lots.
pub open spec fn pool(kinds: Seq<Kind>, level: usize, n: nat) -> Seq<usize>
    decreases n,
{
    if n == 0 {
        Seq::empty()
    } else {
        pool(kinds, level, (n - 1) as nat) + Seq::new(lots(kinds[n - 1], level), |k: int| (n - 1) as usize)
    }
}

/// Every lot names a kind that occurs on the level.
pub proof fn lemma_pool_members(kinds: Seq<Kind>, level: usize, n: nat, i: int)
    requires
        n <= kinds.len() <= usize::MAX,
        0 <= i < pool(kinds, level, n).len(),
    ensures
        pool(kinds, level, n)[i] < n,
        kinds[pool(kinds, level, n)[i] as int].levels.contains(level),
        kinds[pool(kinds, level, n)[i] as int].frequency > 0,
    decreases n,
{
    if n > 0 {
        let before = pool(kinds, level, (n - 1) as nat);
        let added = Seq::new(lots(kinds[n - 1], level), |k: int| (n - 1) as usize);
        assert(pool(kinds, level, n) == before + added);
        if i < before.len() {
            lemma_pool_members(kinds, level, (n - 1) as nat, i);
        } else {
            assert(pool(kinds, level, n)[i] == added[i - before.len()]);
            assert(lots(kinds[n - 1], level) > 0);
        }
    }
}

/// Whether `entity` is what stands on `position` when its kind is drawn
/// among those that occur on `level`.
pub open spec fn drawn(kinds: Seq<Kind>, level: usize, position: Point, entity: Records) -> bool {
    exists|t: int|
        {
            &&& 0 <= t < kinds.len()
            &&& kinds[t].levels.contains(level)
            &&& kinds[t].frequency > 0
            &&& entity == #[trigger] spawned(kinds[t], position)
        }
}

impl Templates {
    /// Whether an entity can be made of every kind of the table.
    pub open spec fn wf(&self) -> bool {
        forall|i: int| 0 <= i < self@.len() ==> spawnable_kind(#[trigger] self@[i])
    }

    /// Whether an entity can be made of every kind of the table.
    pub fn is_valid(&self) -> (ok: bool)
        ensures
            ok == self.wf(),
    {
        let mut i: usize = 0;
        while i < self.entities.len()
            invariant
                i <= self@.len(),
                forall|k: int| 0 <= k < i ==> spawnable_kind(#[trigger] self@[k]),
            decreases self@.len() - i,
        {
            let t = &self.entities[i];
            if t.entity_type == EntityType::Enemy && t.hp.is_none() {
                assert(!spawnable_kind(self@[i as int]));
                return false;
            }
            i = i + 1;
        }
        true
    }

    /// The lots in the draw for `level`.
    pub fn available_entities(&self, level: usize) -> (lots: Vec<usize>)
        ensures
            lots@ == pool(self@, level, self@.len()),
    {
        let mut available: Vec<usize> = Vec::new();
        let mut i: usize = 0;
        while i < self.entities.len()
            invariant
                i <= self@.len(),
                available@ == pool(self@, level, i as nat),
            decreases self@.len() - i,
        {
            let t = &self.entities[i];
            let ghost before = available@;
            if t.levels.contains(&level) {
                let mut n: i32 = 0;
                while n < t.frequency
                    invariant
                        0 <= n,
                        n <= t.frequency || t.frequency <= 0,
                        available@ == before + Seq::new(
                            if t.frequency > 0 {
                                n as nat
                            } else {
                                0nat
                            },
                            |k: int| i,
                        ),
                    decreases t.frequency - n,
                {
                    available.push(i);
                    n = n + 1;
                }
            }
            assert(available@ =~= pool(self@, level, (i + 1) as nat));
            i = i + 1;
        }
        available
    }

    /// Puts an entity on each of `spawn_points`, its kind drawn from those
    /// that occur on `level`, each as often in the draw as its frequency
    /// says. Nothing is spawned where no kind occurs on the level.
    pub fn spawn_entities(&self, level: usize, world: &mut World, spawn_points: &Vec<Point>, rng: &mut StdRng)
        requires
            self.wf(),
        ensures
            pool(self@, level, self@.len()).len() == 0 ==> final(world)@ == old(world)@,
            pool(self@, level, self@.len()).len() > 0 ==> {
                &&& final(world)@.len() == old(world)@.len() + spawn_points@.len()
                &&& final(world)@.take(old(world)@.len() as int) == old(world)@
                &&& forall|k: int|
                    0 <= k < spawn_points@.len() ==> drawn(
                        self@,
                        level,
                        spawn_points@[k],
                        #[trigger] final(world)@[old(world)@.len() + k],
                    )
            },
    {
        let available_entities = self.available_entities(level);
        assert(self@.len() == self.entities.len());
        let mut k: usize = 0;
        while k < spawn_points.len()
            invariant
                k <= spawn_points@.len(),
                self.wf(),
                self@.len() <= usize::MAX,
                available_entities@ == pool(self@, level, self@.len()),
                available_entities@.len() == 0 ==> world@ == old(world)@,
                available_entities@.len() > 0 ==> {
                    &&& world@.len() == old(world)@.len() + k
                    &&& world@.take(old(world)@.len() as int) == old(world)@
                    &&& forall|j: int|
                        0 <= j < k ==> drawn(
                            self@,
                            level,
                            spawn_points@[j],
                            #[trigger] world@[old(world)@.len() + j],
                        )
                },
            decreases spawn_points@.len() - k,
        {
            let ghost before = world@;
            match choose_one(rng, &available_entities) {
                Some(t) => {
                    proof {
                        let at = choose|at: int| 0 <= at < available_entities@.len() && available_entities@[at] == t;
                        lemma_pool_members(self@, level, self@.len(), at);
                    }
                    self.spawn_entity(world, &spawn_points[k], &self.entities[t]);
                    proof {
                        assert(world@.take(old(world)@.len() as int) =~= before.take(old(world)@.len() as int));
                        assert forall|j: int| 0 <= j < k + 1 implies drawn(
                            self@,
                            level,
                            spawn_points@[j],
                            #[trigger] world@[old(world)@.len() + j],
                        ) by {
                            if j < k {
                                assert(world@[old(world)@.len() + j] == before[old(world)@.len() + j]);
                            } else {
                                assert(world@[old(world)@.len() + j] == spawned(self@[t as int], spawn_points@[j]));
                            }
                        }
                    }
                },
                None => {},
            }
            k = k + 1;
        }
    }

    /// Puts an entity of the kind `template` on `position`.
    pub fn spawn_entity(&self, world: &mut World, position: &Point, template: &Template) -> (e: Entity)
        requires
            spawnable_kind(template@),
        ensures
            e.0 == old(world)@.len(),
            final(world)@ == old(world)@.push(spawned(template@, *position)),
    {
        let sprite_index = to_cp437(template.glyph);
        let sprite_order = template.sprite_order;
        let mut entity = Components::bare();
        entity.position = Some(*position);
        entity.render = Some(Render { sprite_index, sprite_order });
        entity.name = Some(Name(template.name.clone()));
        match template.entity_type {
            EntityType::Item => {
                entity.item = Some(Item);
            },
            EntityType::Enemy => {
                entity.enemy = Some(Enemy);
                entity.fov = Some(FieldOfView::new(MONSTER_SIGHT));
                entity.chasing_player = Some(ChasingPlayer);
                entity.health = Some(Health { current: template.hp.unwrap(), max: template.hp.unwrap() });
            },
        }
        if let Some(effects) = &template.provides {
            let ghost list = effects@.map_values(|e: (String, i32)| (e.0@, e.1));
            let healing_word = "Healing".to_owned();
            let map_word = "MagicMap".to_owned();
            let mut i: usize = 0;
            while i < effects.len()
                invariant
                    i <= effects@.len(),
                    list == effects@.map_values(|e: (String, i32)| (e.0@, e.1)),
                    healing_word@ == healing_keyword(),
                    map_word@ == map_keyword(),
                    entity.provides_healing == healing_among(list, i as nat),
                    entity.provides_dungeon_map == map_among(list, i as nat),
                    entity@ == (Records {
                        provides_healing: entity.provides_healing,
                        provides_dungeon_map: entity.provides_dungeon_map,
                        ..spawned(Kind { provides: None, ..template@ }, *position)
                    }),
                decreases effects@.len() - i,
            {
                let provides = &effects[i].0;
                let n = effects[i].1;
                assert(list[i as int] == (effects@[i as int].0@, effects@[i as int].1));
                if *provides == healing_word {
                    entity.provides_healing = Some(ProvidesHealing { amount: n });
                } else if *provides == map_word {
                    entity.provides_dungeon_map = Some(ProvidesDungeonMap);
                }
                i = i + 1;
            }
        }
        world.spawn(entity)
    }
}

} // verus!
