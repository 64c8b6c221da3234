use dungeoncrawl::components::{Carried, Enemy, Entity, Health, Item, Player, ProvidesHealing, Render};
use dungeoncrawl::map::{map_idx, MapSpec, TileType};
use dungeoncrawl::map_builder::drunkard::DrunkardsWalkArchitect;
use dungeoncrawl::map_builder::empty::EmptyArchitect;
use dungeoncrawl::map_builder::rooms::RoomsArchitect;
use dungeoncrawl::map_builder::{Architect, BuildError};
use dungeoncrawl::spawner::template::{EntityType, Template, Templates};
use dungeoncrawl::spawner::{
    spawn_amulet_of_yala, spawn_level, spawn_monster, spawn_monster_for, spawn_player,
};
use dungeoncrawl::systems::end_game::{
    despawn_game_state, despawn_level, respawn_game_state, respawn_level,
};
use dungeoncrawl::turn_state::TurnState;
use dungeoncrawl::utils::Point;
use dungeoncrawl::world::{Components, World};
use rand::rngs::StdRng;
use rand::SeedableRng;
use std::collections::HashSet;

fn template(kind: EntityType, name: &str, glyph: char, levels: &[usize], frequency: i32) -> Template {
    Template {
        entity_type: kind,
        levels: levels.iter().copied().collect::<HashSet<usize>>(),
        frequency,
        name: name.to_string(),
        glyph,
        sprite_order: if kind == EntityType::Enemy { 1 } else { 2 },
        provides: None,
        hp: if kind == EntityType::Enemy { Some(2) } else { None },
    }
}

fn table() -> Templates {
    let mut potion = template(EntityType::Item, "Healing Potion", '!', &[0, 1, 2], 2);
    potion.provides = Some(vec![("Healing".to_string(), 6)]);
    let mut map = template(EntityType::Item, "Dungeon Map", '{', &[0, 1, 2], 1);
    map.provides = Some(vec![("MagicMap".to_string(), 0)]);
    Templates {
        entities: vec![
            potion,
            map,
            template(EntityType::Enemy, "Goblin", 'g', &[0], 3),
            template(EntityType::Enemy, "Ogre", 'O', &[1, 2], 4),
        ],
    }
}

#[test]
fn player_enters_with_full_health() {
    let mut world = World::new();
    let e = spawn_player(&mut world, Point::new(3, 4));
    assert_eq!(e, Entity(0));
    let p = &world.entities[0];
    assert!(p.alive);
    assert_eq!(p.player, Some(Player { map_level: 0 }));
    assert_eq!(p.position, Some(Point::new(3, 4)));
    assert_eq!(p.render, Some(Render { sprite_index: 64, sprite_order: 3 }));
    assert_eq!(p.health, Some(Health { current: 10, max: 10 }));
    let fov = p.fov.as_ref().unwrap();
    assert!(fov.is_dirty && fov.visible_tiles.is_empty());
    assert_eq!(fov.radius, 6);
    assert!(p.enemy.is_none() && p.item.is_none() && p.damage.is_none() && p.name.is_none());
    assert_eq!(world.find_player(), Some(e));
}

#[test]
fn low_rolls_are_goblins_and_high_rolls_orcs() {
    let mut world = World::new();
    for roll in 1..=10 {
        let e = spawn_monster_for(&mut world, Point::new(roll, 1), roll);
        let m = &world.entities[e.0];
        let goblin = roll <= 8;
        assert_eq!(m.name.as_ref().unwrap().0, if goblin { "Goblin" } else { "Orc" });
        assert_eq!(m.health, Some(if goblin { Health { current: 1, max: 1 } } else { Health { current: 2, max: 2 } }));
        assert_eq!(m.render, Some(Render { sprite_index: if goblin { 103 } else { 111 }, sprite_order: 1 }));
        assert_eq!(m.enemy, Some(Enemy));
        assert!(m.chasing_player.is_some() && m.moving_randomly.is_none());
        assert_eq!(m.position, Some(Point::new(roll, 1)));
        assert_eq!(m.fov.as_ref().unwrap().radius, 6);
    }
}

#[test]
fn rolled_monster_is_goblin_or_orc() {
    let mut rng = StdRng::seed_from_u64(4);
    let mut world = World::new();
    let mut goblins = 0;
    for i in 0..200 {
        let e = spawn_monster(&mut world, Point::new(1, 1), &mut rng);
        assert_eq!(e, Entity(i));
        match world.entities[i].name.as_ref().unwrap().0.as_str() {
            "Goblin" => goblins += 1,
            "Orc" => {}
            other => panic!("unknown monster {}", other),
        }
    }
    assert!(goblins > 120 && goblins < 195);
}

#[test]
fn amulet_lies_on_floor() {
    let mut world = World::new();
    let mut map = MapSpec::new();
    map.tiles[map_idx(7, 8)] = TileType::Exit;
    map.tiles[map_idx(8, 8)] = TileType::Wall;
    let e = spawn_amulet_of_yala(&mut world, Point::new(7, 8), &mut map);
    assert_eq!(map.tiles[map_idx(7, 8)], TileType::Floor);
    assert_eq!(map.tiles[map_idx(8, 8)], TileType::Wall);
    assert_eq!(map.floor_count(), 3999);
    let a = &world.entities[e.0];
    assert!(a.item.is_some() && a.amulet.is_some());
    assert_eq!(a.position, Some(Point::new(7, 8)));
    assert_eq!(a.render, Some(Render { sprite_index: 124, sprite_order: 2 }));
    assert_eq!(a.name.as_ref().unwrap().0, "Amulet of Yala");
    assert_eq!(world.find_goal(), Some(Point::new(7, 8)));
}

#[test]
fn templates_with_monsters_without_health_are_not_valid() {
    let mut t = table();
    assert!(t.is_valid());
    t.entities[2].hp = None;
    assert!(!t.is_valid());
    t.entities[2].entity_type = EntityType::Item;
    assert!(t.is_valid());
}

#[test]
fn lots_repeat_each_kind_by_its_frequency() {
    let t = table();
    assert_eq!(t.available_entities(0), vec![0, 0, 1, 2, 2, 2]);
    assert_eq!(t.available_entities(1), vec![0, 0, 1, 3, 3, 3, 3]);
    assert_eq!(t.available_entities(7), Vec::<usize>::new());
    let mut odd = table();
    odd.entities[0].frequency = 0;
    odd.entities[1].frequency = -3;
    assert_eq!(odd.available_entities(0), vec![2, 2, 2]);
}

#[test]
fn monster_from_template() {
    let t = table();
    let mut world = World::new();
    let e = t.spawn_entity(&mut world, &Point::new(4, 5), &t.entities[3]);
    let m = &world.entities[e.0];
    assert_eq!(m.enemy, Some(Enemy));
    assert!(m.item.is_none());
    assert_eq!(m.health, Some(Health { current: 2, max: 2 }));
    assert_eq!(m.render, Some(Render { sprite_index: 79, sprite_order: 1 }));
    assert_eq!(m.name.as_ref().unwrap().0, "Ogre");
    assert!(m.chasing_player.is_some());
    let fov = m.fov.as_ref().unwrap();
    assert!(fov.is_dirty);
    assert_eq!(fov.radius, 6);
    assert_eq!(m.position, Some(Point::new(4, 5)));
    assert!(m.provides_healing.is_none() && m.provides_dungeon_map.is_none());
}

#[test]
fn item_from_template_provides_its_effects() {
    let t = table();
    let mut world = World::new();
    let potion = t.spawn_entity(&mut world, &Point::new(1, 1), &t.entities[0]);
    let map = t.spawn_entity(&mut world, &Point::new(2, 2), &t.entities[1]);
    let p = &world.entities[potion.0];
    assert_eq!(p.item, Some(Item));
    assert_eq!(p.provides_healing, Some(ProvidesHealing { amount: 6 }));
    assert!(p.provides_dungeon_map.is_none());
    assert!(p.health.is_none() && p.fov.is_none() && p.enemy.is_none());
    assert_eq!(p.render, Some(Render { sprite_index: 33, sprite_order: 2 }));
    let m = &world.entities[map.0];
    assert!(m.provides_dungeon_map.is_some());
    assert!(m.provides_healing.is_none());
}

#[test]
fn unknown_effect_provides_nothing() {
    let mut odd = template(EntityType::Item, "Odd", '?', &[0], 1);
    odd.provides = Some(vec![
        ("Healing".to_string(), 1),
        ("Poison".to_string(), 9),
        ("healing".to_string(), 4),
        ("Healing".to_string(), 3),
        ("MagicMap".to_string(), 7),
        ("".to_string(), 2),
    ]);
    let t = Templates { entities: vec![odd] };
    let mut world = World::new();
    let e = t.spawn_entity(&mut world, &Point::new(1, 1), &t.entities[0]);
    assert_eq!(world.entities[e.0].provides_healing, Some(ProvidesHealing { amount: 3 }));
    assert!(world.entities[e.0].provides_dungeon_map.is_some());
    let mut none = template(EntityType::Item, "Plain", '?', &[0], 1);
    none.provides = Some(vec![("Poison".to_string(), 9)]);
    let e = t.spawn_entity(&mut world, &Point::new(1, 1), &none);
    assert!(world.entities[e.0].provides_healing.is_none());
    assert!(world.entities[e.0].provides_dungeon_map.is_none());
    assert!(world.is_live(e));
}

#[test]
fn level_is_populated_from_the_kinds_of_the_level() {
    let t = table();
    let mut rng = StdRng::seed_from_u64(8);
    let mut world = World::new();
    spawn_player(&mut world, Point::new(0, 0));
    let points: Vec<Point> = (1..60).map(|x| Point::new(x, 3)).collect();
    spawn_level(1, &mut world, &points, &t, &mut rng);
    assert_eq!(world.entities.len(), 1 + points.len());
    let mut names = HashSet::new();
    for (k, p) in points.iter().enumerate() {
        let c = &world.entities[1 + k];
        assert_eq!(c.position, Some(*p));
        let name = c.name.as_ref().unwrap().0.clone();
        assert!(["Healing Potion", "Dungeon Map", "Ogre"].contains(&name.as_str()));
        names.insert(name);
    }
    assert_eq!(names.len(), 3);
}

#[test]
fn level_without_kinds_stays_empty() {
    let t = table();
    let mut rng = StdRng::seed_from_u64(8);
    let mut world = World::new();
    spawn_level(9, &mut world, &vec![Point::new(1, 1)], &t, &mut rng);
    assert!(world.entities.is_empty());
    t.spawn_entities(0, &mut world, &Vec::new(), &mut rng);
    assert!(world.entities.is_empty());
}

fn mixed_world() -> (World, Vec<Entity>) {
    let mut world = World::new();
    let player = spawn_player(&mut world, Point::new(1, 1));
    let monster = spawn_monster_for(&mut world, Point::new(2, 2), 1);
    let mut lying = Components::bare();
    lying.item = Some(Item);
    lying.position = Some(Point::new(3, 3));
    let lying = world.spawn(lying);
    let mut carried = Components::bare();
    carried.item = Some(Item);
    carried.carried = Some(Carried(player));
    let carried = world.spawn(carried);
    let other = world.spawn(Components::bare());
    (world, vec![player, monster, lying, carried, other])
}

#[test]
fn leaving_a_level_keeps_the_player_and_what_is_carried() {
    let (mut world, e) = mixed_world();
    let mut state = TurnState::NextLevel;
    despawn_level(&mut state, &mut world);
    assert_eq!(state, TurnState::AwaitingInput);
    assert!(world.is_live(e[0]));
    assert!(!world.is_live(e[1]));
    assert!(!world.is_live(e[2]));
    assert!(world.is_live(e[3]));
    assert!(world.is_live(e[4]));
}

#[test]
fn ending_the_game_removes_players_items_and_enemies() {
    let (mut world, e) = mixed_world();
    despawn_game_state(&mut world);
    for i in 0..4 {
        assert!(!world.is_live(e[i]));
    }
    assert!(world.is_live(e[4]));
    assert_eq!(world.entities.len(), 5);
}

#[test]
fn next_level_brings_the_player_down() {
    let t = table();
    let mut rng = StdRng::seed_from_u64(12);
    let (mut world, e) = mixed_world();
    world.entities[0].fov.as_mut().unwrap().is_dirty = false;
    world.entities[0].fov.as_mut().unwrap().visible_tiles.push(Point::new(1, 1));
    let mut state = TurnState::NextLevel;
    despawn_level(&mut state, &mut world);
    let mut map = MapSpec::new();
    let arch = Architect::Drunkard(DrunkardsWalkArchitect { walks: 100_000 });
    assert_eq!(respawn_level(&mut world, &mut map, &mut rng, &arch, &t), Ok(()));
    let p = &world.entities[e[0].0];
    assert_eq!(p.player, Some(Player { map_level: 1 }));
    assert_eq!(p.position, Some(Point::new(40, 25)));
    assert!(p.fov.as_ref().unwrap().is_dirty);
    assert_eq!(p.fov.as_ref().unwrap().visible_tiles, vec![Point::new(1, 1)]);
    assert_eq!(p.health, Some(Health { current: 10, max: 10 }));
    assert!(world.is_live(e[3]));
    assert_eq!(map.tiles.iter().filter(|t| **t == TileType::Exit).count(), 1);
    assert_eq!(world.find_goal(), None);
    assert_eq!(world.entities.len(), 5 + 50);
    for c in world.entities.iter().skip(5) {
        assert!(c.alive);
        assert!(map.can_enter_tile(c.position.unwrap()) || map.tiles[map_idx(c.position.unwrap().x, c.position.unwrap().y)] == TileType::Exit);
        assert!(["Healing Potion", "Dungeon Map", "Ogre"].contains(&c.name.as_ref().unwrap().0.as_str()));
    }
    assert!(world.is_on_map());
}

#[test]
fn last_level_holds_the_amulet_instead_of_an_exit() {
    let t = table();
    let mut rng = StdRng::seed_from_u64(12);
    let mut world = World::new();
    let player = spawn_player(&mut world, Point::new(1, 1));
    world.entities[player.0].player = Some(Player { map_level: 1 });
    let mut map = MapSpec::new();
    let arch = Architect::Empty(EmptyArchitect);
    assert_eq!(respawn_level(&mut world, &mut map, &mut rng, &arch, &t), Ok(()));
    assert_eq!(world.entities[0].player, Some(Player { map_level: 2 }));
    assert_eq!(map.floor_count(), 4000);
    assert_eq!(world.find_goal(), Some(Point::new(0, 0)));
    assert!(world.entities[1].amulet.is_some());
    assert_eq!(world.entities.len(), 2 + 50);
}

#[test]
fn failed_level_changes_nothing() {
    let t = table();
    let mut rng = StdRng::seed_from_u64(12);
    let (mut world, _) = mixed_world();
    let mut map = MapSpec::new();
    map.tiles[5] = TileType::Wall;
    let arch = Architect::Rooms(RoomsArchitect { attempts: 2 });
    assert_eq!(
        respawn_level(&mut world, &mut map, &mut rng, &arch, &t),
        Err(BuildError::OutOfAttempts)
    );
    assert_eq!(world.entities.len(), 5);
    assert_eq!(world.entities[0].player, Some(Player { map_level: 0 }));
    assert_eq!(world.entities[0].position, Some(Point::new(1, 1)));
    assert_eq!(map.floor_count(), 3999);
    assert_eq!(
        respawn_game_state(&mut world, &mut map, &mut rng, &arch, &t),
        Err(BuildError::OutOfAttempts)
    );
    assert_eq!(world.entities.len(), 5);
    assert_eq!(map.floor_count(), 3999);
}

#[test]
fn new_game_state_has_a_new_player_and_an_exit() {
    let t = table();
    let mut rng = StdRng::seed_from_u64(30);
    let mut world = World::new();
    let mut map = MapSpec::new();
    let arch = Architect::Rooms(RoomsArchitect { attempts: 100_000 });
    assert_eq!(respawn_game_state(&mut world, &mut map, &mut rng, &arch, &t), Ok(()));
    assert_eq!(world.find_player(), Some(Entity(0)));
    assert_eq!(world.entities[0].player, Some(Player { map_level: 0 }));
    assert!(map.can_enter_tile(world.entities[0].position.unwrap()));
    assert_eq!(map.tiles.iter().filter(|t| **t == TileType::Exit).count(), 1);
    assert_eq!(world.entities.len(), 1 + 19);
    for c in world.entities.iter().skip(1) {
        assert!(["Healing Potion", "Dungeon Map", "Goblin"].contains(&c.name.as_ref().unwrap().0.as_str()));
    }
}
