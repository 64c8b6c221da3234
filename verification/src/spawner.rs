//! Populates a level: the player, monsters, the amulet.

pub mod template;

use vstd::prelude::*;
use rand::rngs::StdRng;
use crate::components::{
    AmuletBundle, AmuletOfYala, ChasingPlayer, Enemy, EnemyBundle, Entity, FieldOfView, Health, Item, Name, Player,
    PlayerBundle, Render, Sight,
};
use crate::map::{index_of, on_grid, MapSpec, TileType};
use crate::random::gen_range_i32;
use crate::spawner::template::Templates;
use crate::utils::{cp437_code, to_cp437, Point};
use crate::world::{bare_records, Components, Records, World};

verus! {

/// How far the player looks.
pub const PLAYER_SIGHT: i32 = 6;

/// The health that the player starts with.
pub const PLAYER_HEALTH: i32 = 10;

/// The player as it enters the game on `position`.
pub open spec fn player_records(position: Point) -> Records {
    Records {
        player: Some(Player { map_level: 0 }),
        position: Some(position),
        render: Some(Render { sprite_index: cp437_code('@') as usize, sprite_order: 3 }),
        health: Some(Health { current: PLAYER_HEALTH, max: PLAYER_HEALTH }),
        fov: Some(Sight { visible: Seq::empty(), radius: PLAYER_SIGHT, is_dirty: true }),
        ..bare_records()
    }
}

/// The monster that a roll of the ten-sided die puts on `position`: a
/// goblin up to 8, an orc above.
pub open spec fn monster_records(position: Point, roll: i32) -> Records {
    let goblin = 1 <= roll <= 8;
    Records {
        enemy: Some(Enemy),
        position: Some(position),
        render: Some(
            Render {
                sprite_index: if goblin {
                    cp437_code('g') as usize
                } else {
                    cp437_code('o') as usize
                },
                sprite_order: 1,
            },
        ),
        chasing_player: Some(ChasingPlayer),
        health: Some(if goblin {
            Health { current: 1, max: 1 }
        } else {
            Health { current: 2, max: 2 }
        }),
        name: Some(if goblin {
            "Goblin"@
        } else {
            "Orc"@
        }),
        fov: Some(Sight { visible: Seq::empty(), radius: PLAYER_SIGHT, is_dirty: true }),
        ..bare_records()
    }
}

/// The amulet as it lies on `position`.
pub open spec fn amulet_records(position: Point) -> Records {
    Records {
        item: Some(Item),
        amulet: Some(AmuletOfYala),
        position: Some(position),
        render: Some(Render { sprite_index: cp437_code('|') as usize, sprite_order: 2 }),
        name: Some("Amulet of Yala"@),
        ..bare_records()
    }
}

impl World {
    /// Adds the player that `bundle` describes.
    pub fn insert_player(&mut self, bundle: PlayerBundle) -> (e: Entity)
        ensures
            e.0 == old(self)@.len(),
            final(self)@ == old(self)@.push(
                Records {
                    player: Some(bundle.player),
                    position: Some(bundle.position),
                    render: Some(bundle.render),
                    health: Some(bundle.health),
                    fov: Some(bundle.fov@),
                    ..bare_records()
                },
            ),
    {
        let mut c = Components::bare();
        c.player = Some(bundle.player);
        c.position = Some(bundle.position);
        c.render = Some(bundle.render);
        c.health = Some(bundle.health);
        c.fov = Some(bundle.fov);
        self.spawn(c)
    }

    /// Adds the monster that `bundle` describes.
    pub fn insert_enemy(&mut self, bundle: EnemyBundle) -> (e: Entity)
        ensures
            e.0 == old(self)@.len(),
            final(self)@ == old(self)@.push(
                Records {
                    enemy: Some(bundle.enemy),
                    position: Some(bundle.position),
                    render: Some(bundle.render),
                    chasing_player: Some(bundle.chasing_player),
                    health: Some(bundle.health),
                    name: Some(bundle.name.0@),
                    fov: Some(bundle.fov@),
                    ..bare_records()
                },
            ),
    {
        let mut c = Components::bare();
        c.enemy = Some(bundle.enemy);
        c.position = Some(bundle.position);
        c.render = Some(bundle.render);
        c.chasing_player = Some(bundle.chasing_player);
        c.health = Some(bundle.health);
        c.name = Some(bundle.name);
        c.fov = Some(bundle.fov);
        self.spawn(c)
    }

    /// Adds the amulet that `bundle` describes.
    pub fn insert_amulet(&mut self, bundle: AmuletBundle) -> (e: Entity)
        ensures
            e.0 == old(self)@.len(),
            final(self)@ == old(self)@.push(
                Records {
                    amulet: Some(bundle.amulet),
                    position: Some(bundle.position),
                    render: Some(bundle.render),
                    name: Some(bundle.name.0@),
                    item: Some(bundle.item),
                    ..bare_records()
                },
            ),
    {
        let mut c = Components::bare();
        c.amulet = Some(bundle.amulet);
        c.position = Some(bundle.position);
        c.render = Some(bundle.render);
        c.name = Some(bundle.name);
        c.item = Some(bundle.item);
        self.spawn(c)
    }
}

/// Puts the player on `position`.
pub fn spawn_player(world: &mut World, position: Point) -> (e: Entity)
    ensures
        e.0 == old(world)@.len(),
        final(world)@ == old(world)@.push(player_records(position)),
{
    let sprite_index = to_cp437('@');
    let sprite_order: usize = 3;
    world.insert_player(
        PlayerBundle {
            player: Player { map_level: 0 },
            position,
            render: Render { sprite_index, sprite_order },
            health: Health { current: PLAYER_HEALTH, max: PLAYER_HEALTH },
            fov: FieldOfView::new(PLAYER_SIGHT),
        },
    )
}

/// Puts on `position` the monster that `roll` of the ten-sided die stands
/// for.
pub fn spawn_monster_for(world: &mut World, position: Point, roll: i32) -> (e: Entity)
    ensures
        e.0 == old(world)@.len(),
        final(world)@ == old(world)@.push(monster_records(position, roll)),
{
    let goblin = 1 <= roll && roll <= 8;
    let hp: i32 = if goblin { 1 } else { 2 };
    let name = if goblin { "Goblin".to_owned() } else { "Orc".to_owned() };
    let sprite_index = if goblin { to_cp437('g') } else { to_cp437('o') };
    let sprite_order: usize = 1;
    world.insert_enemy(
        EnemyBundle {
            enemy: Enemy,
            position,
            render: Render { sprite_index, sprite_order },
            chasing_player: ChasingPlayer,
            health: Health { current: hp, max: hp },
            name: Name(name),
            fov: FieldOfView::new(PLAYER_SIGHT),
        },
    )
}

/// Rolls the ten-sided die and puts the monster that it stands for on
/// `position`.
pub fn spawn_monster(world: &mut World, position: Point, rng: &mut StdRng) -> (e: Entity)
    ensures
        e.0 == old(world)@.len(),
        exists|roll: i32| 1 <= roll <= 10 && final(world)@ == old(world)@.push(#[trigger] monster_records(position, roll)),
{
    let roll = gen_range_i32(rng, 1, 11);
    spawn_monster_for(world, position, roll)
}

/// Puts the amulet on `position`, and floor under it.
pub fn spawn_amulet_of_yala(world: &mut World, position: Point, map_spec: &mut MapSpec) -> (e: Entity)
    requires
        old(map_spec).wf(),
        on_grid(position),
    ensures
        e.0 == old(world)@.len(),
        final(world)@ == old(world)@.push(amulet_records(position)),
        final(map_spec).tiles@ == old(map_spec).tiles@.update(index_of(position), TileType::Floor),
        final(map_spec).revealed_tiles == old(map_spec).revealed_tiles,
{
    let exit_idx = map_spec.point2d_to_index(position);
    map_spec.tiles[exit_idx] = TileType::Floor;
    let sprite_index = to_cp437('|');
    let sprite_order: usize = 2;
    world.insert_amulet(
        AmuletBundle {
            amulet: AmuletOfYala,
            position,
            render: Render { sprite_index, sprite_order },
            name: Name("Amulet of Yala".to_owned()),
            item: Item,
        },
    )
}

/// Puts on each of `spawn_points` an entity of a kind that `templates`
/// holds for `level`.
pub fn spawn_level(
    level: usize,
    world: &mut World,
    spawn_points: &Vec<Point>,
    templates: &Templates,
    rng: &mut StdRng,
)
    requires
        templates.wf(),
    ensures
        crate::spawner::template::pool(templates@, level, templates@.len()).len() == 0 ==> final(world)@ == old(
            world,
        )@,
        crate::spawner::template::pool(templates@, level, templates@.len()).len() > 0 ==> {
            &&& final(world)@.len() == old(world)@.len() + spawn_points@.len()
            &&& final(world)@.take(old(world)@.len() as int) == old(world)@
            &&& forall|k: int|
                0 <= k < spawn_points@.len() ==> crate::spawner::template::drawn(
                    templates@,
                    level,
                    spawn_points@[k],
                    #[trigger] final(world)@[old(world)@.len() + k],
                )
        },
{
    templates.spawn_entities(level, world, spawn_points, rng);
}

} // verus!
