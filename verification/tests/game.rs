use dungeoncrawl::components::{
    ActivateItem, Carried, ChasingPlayer, Damage, Enemy, Entity, FieldOfView, Health, Item, Player,
    ProvidesHealing, Render, WantsToAttack, WantsToMove,
};
use dungeoncrawl::game::Game;
use dungeoncrawl::map::{map_idx, MapSpec, TileType};
use dungeoncrawl::map_builder::drunkard::DrunkardsWalkArchitect;
use dungeoncrawl::map_builder::empty::EmptyArchitect;
use dungeoncrawl::map_builder::{Architect, BuildError};
use dungeoncrawl::spawner::template::{EntityType, Template, Templates};
use dungeoncrawl::systems::player_input::Command;
use dungeoncrawl::turn_state::TurnState;
use dungeoncrawl::utils::Point;
use dungeoncrawl::world::{Components, World};
use rand::rngs::StdRng;
use rand::SeedableRng;
use std::collections::HashSet;

fn in_sight(p: Point, r: i32, m: &MapSpec) -> Vec<Point> {
    let mut seen = Vec::new();
    for y in p.y - r..=p.y + r {
        for x in p.x - r..=p.x + r {
            let q = Point::new(x, y);
            if m.in_bounds(q) {
                seen.push(q);
            }
        }
    }
    seen
}

fn goblins() -> Templates {
    Templates {
        entities: vec![Template {
            entity_type: EntityType::Enemy,
            levels: [0usize].into_iter().collect::<HashSet<usize>>(),
            frequency: 1,
            name: "Goblin".to_string(),
            glyph: 'g',
            sprite_order: 1,
            provides: None,
            hp: Some(1),
        }],
    }
}

fn arena(player: Point) -> Game {
    let mut world = World::new();
    let mut p = Components::bare();
    p.player = Some(Player { map_level: 0 });
    p.position = Some(player);
    p.render = Some(Render { sprite_index: 64, sprite_order: 3 });
    p.health = Some(Health { current: 10, max: 10 });
    p.fov = Some(FieldOfView::new(6));
    p.damage = Some(Damage(1));
    world.spawn(p);
    Game {
        map_spec: MapSpec::new(),
        world,
        turn_state: TurnState::AwaitingInput,
        ev_movements: Vec::new(),
        ev_attacks: Vec::new(),
        ev_items: Vec::new(),
    }
}

fn add_monster(game: &mut Game, at: Point, hp: i32, damage: i32) -> Entity {
    let mut m = Components::bare();
    m.enemy = Some(Enemy);
    m.chasing_player = Some(ChasingPlayer);
    m.position = Some(at);
    m.render = Some(Render { sprite_index: 103, sprite_order: 1 });
    m.health = Some(Health { current: hp, max: hp });
    m.fov = Some(FieldOfView::new(6));
    m.damage = Some(Damage(damage));
    game.world.spawn(m)
}

fn position(game: &Game, e: Entity) -> Point {
    game.world.entities[e.0].position.unwrap()
}

#[test]
fn new_game_awaits_input_on_a_built_level() {
    let mut rng = StdRng::seed_from_u64(77);
    let arch = Architect::Drunkard(DrunkardsWalkArchitect { walks: 100_000 });
    let game = Game::new(&mut rng, &arch, &goblins()).unwrap();
    assert_eq!(game.turn_state, TurnState::AwaitingInput);
    assert!(game.ev_movements.is_empty() && game.ev_attacks.is_empty() && game.ev_items.is_empty());
    assert_eq!(game.world.find_player(), Some(Entity(0)));
    assert_eq!(position(&game, Entity(0)), Point::new(40, 25));
    assert_eq!(game.world.entities.len(), 51);
    assert!(game.world.is_on_map());
    assert!(game.map_spec.is_valid());
    assert!(game.map_spec.floor_count() >= 1332);
}

#[test]
fn new_game_fails_with_the_architect() {
    let mut rng = StdRng::seed_from_u64(77);
    let arch = Architect::Drunkard(DrunkardsWalkArchitect { walks: 0 });
    assert_eq!(Game::new(&mut rng, &arch, &goblins()).err(), Some(BuildError::OutOfAttempts));
}

#[test]
fn a_step_takes_three_ticks() {
    let mut rng = StdRng::seed_from_u64(1);
    let mut game = arena(Point::new(10, 10));
    game.tick(Some(Command::Right), &mut rng, in_sight);
    assert_eq!(game.turn_state, TurnState::PlayerTurn);
    assert_eq!(
        game.ev_movements,
        vec![WantsToMove { entity: Entity(0), destination: Point::new(11, 10) }]
    );
    assert_eq!(position(&game, Entity(0)), Point::new(10, 10));
    assert!(!game.world.entities[0].fov.as_ref().unwrap().is_dirty);
    game.tick(Some(Command::Right), &mut rng, in_sight);
    assert_eq!(game.turn_state, TurnState::MonsterTurn);
    assert!(game.ev_movements.is_empty());
    assert_eq!(position(&game, Entity(0)), Point::new(11, 10));
    let fov = game.world.entities[0].fov.as_ref().unwrap();
    assert!(!fov.is_dirty);
    assert!(fov.visible_tiles.contains(&Point::new(17, 16)));
    game.tick(None, &mut rng, in_sight);
    assert_eq!(game.turn_state, TurnState::AwaitingInput);
    assert_eq!(position(&game, Entity(0)), Point::new(11, 10));
}

#[test]
fn no_command_keeps_waiting() {
    let mut rng = StdRng::seed_from_u64(1);
    let mut game = arena(Point::new(10, 10));
    game.tick(None, &mut rng, in_sight);
    assert_eq!(game.turn_state, TurnState::AwaitingInput);
    game.tick(Some(Command::Other), &mut rng, in_sight);
    assert_eq!(game.turn_state, TurnState::AwaitingInput);
    assert!(game.ev_movements.is_empty());
}

#[test]
fn a_move_into_a_wall_spends_the_turn() {
    let mut rng = StdRng::seed_from_u64(1);
    let mut game = arena(Point::new(10, 10));
    game.map_spec.tiles[map_idx(10, 11)] = TileType::Wall;
    game.tick(Some(Command::Up), &mut rng, in_sight);
    game.tick(None, &mut rng, in_sight);
    assert_eq!(position(&game, Entity(0)), Point::new(10, 10));
    assert_eq!(game.turn_state, TurnState::MonsterTurn);
}

#[test]
fn the_player_kills_a_goblin() {
    let mut rng = StdRng::seed_from_u64(1);
    let mut game = arena(Point::new(10, 10));
    let goblin = add_monster(&mut game, Point::new(11, 10), 1, 1);
    game.tick(Some(Command::Right), &mut rng, in_sight);
    assert_eq!(game.ev_attacks, vec![WantsToAttack { attacker: Entity(0), victim: goblin }]);
    assert!(game.ev_movements.is_empty());
    game.tick(None, &mut rng, in_sight);
    assert!(!game.world.is_live(goblin));
    assert_eq!(position(&game, Entity(0)), Point::new(10, 10));
    assert!(game.ev_attacks.is_empty());
    assert_eq!(game.turn_state, TurnState::MonsterTurn);
}

#[test]
fn a_chaser_closes_in_and_strikes() {
    let mut rng = StdRng::seed_from_u64(1);
    let mut game = arena(Point::new(10, 10));
    let orc = add_monster(&mut game, Point::new(13, 10), 5, 3);
    game.tick(None, &mut rng, in_sight);
    for want in [Point::new(12, 10), Point::new(11, 10)] {
        game.turn_state = TurnState::MonsterTurn;
        game.tick(None, &mut rng, in_sight);
        assert_eq!(position(&game, orc), want);
        assert_eq!(game.turn_state, TurnState::AwaitingInput);
        assert_eq!(game.world.entities[0].health.unwrap().current, 10);
    }
    game.turn_state = TurnState::MonsterTurn;
    game.tick(None, &mut rng, in_sight);
    assert_eq!(position(&game, orc), Point::new(11, 10));
    assert_eq!(game.world.entities[0].health.unwrap().current, 7);
    assert!(game.ev_attacks.is_empty() && game.ev_movements.is_empty());
}

#[test]
fn a_chaser_out_of_sight_stays() {
    let mut rng = StdRng::seed_from_u64(1);
    let mut game = arena(Point::new(10, 10));
    let orc = add_monster(&mut game, Point::new(30, 30), 5, 3);
    game.tick(None, &mut rng, in_sight);
    game.turn_state = TurnState::MonsterTurn;
    game.tick(None, &mut rng, in_sight);
    assert_eq!(position(&game, orc), Point::new(30, 30));
}

#[test]
fn the_player_dies_and_the_game_is_over() {
    let mut rng = StdRng::seed_from_u64(1);
    let mut game = arena(Point::new(10, 10));
    add_monster(&mut game, Point::new(11, 10), 5, 10);
    game.tick(None, &mut rng, in_sight);
    game.turn_state = TurnState::MonsterTurn;
    game.tick(None, &mut rng, in_sight);
    assert_eq!(game.world.entities[0].health.unwrap().current, 0);
    assert!(game.world.is_live(Entity(0)));
    assert_eq!(game.turn_state, TurnState::GameOver);
    let before = game.world.entities[0].health;
    game.tick(Some(Command::Left), &mut rng, in_sight);
    assert_eq!(game.turn_state, TurnState::GameOver);
    assert_eq!(game.world.entities[0].health, before);
    assert_eq!(position(&game, Entity(0)), Point::new(10, 10));
}

#[test]
fn stepping_onto_the_amulet_wins() {
    let mut rng = StdRng::seed_from_u64(1);
    let mut game = arena(Point::new(10, 10));
    let mut amulet = Components::bare();
    amulet.item = Some(Item);
    amulet.amulet = Some(dungeoncrawl::components::AmuletOfYala);
    amulet.position = Some(Point::new(10, 9));
    amulet.render = Some(Render { sprite_index: 124, sprite_order: 2 });
    game.world.spawn(amulet);
    game.tick(Some(Command::Down), &mut rng, in_sight);
    game.tick(None, &mut rng, in_sight);
    assert_eq!(position(&game, Entity(0)), Point::new(10, 9));
    assert_eq!(game.turn_state, TurnState::Victory);
    game.tick(Some(Command::Up), &mut rng, in_sight);
    assert_eq!(game.turn_state, TurnState::Victory);
    assert_eq!(position(&game, Entity(0)), Point::new(10, 9));
}

#[test]
fn a_potion_is_picked_up_used_and_gone() {
    let mut rng = StdRng::seed_from_u64(1);
    let mut game = arena(Point::new(10, 10));
    game.world.entities[0].health = Some(Health { current: 3, max: 10 });
    let mut potion = Components::bare();
    potion.item = Some(Item);
    potion.position = Some(Point::new(10, 10));
    potion.render = Some(Render { sprite_index: 33, sprite_order: 2 });
    potion.provides_healing = Some(ProvidesHealing { amount: 4 });
    let potion = game.world.spawn(potion);
    game.tick(Some(Command::PickUp), &mut rng, in_sight);
    assert_eq!(game.world.entities[potion.0].position, None);
    assert_eq!(game.world.entities[potion.0].carried, Some(Carried(Entity(0))));
    assert_eq!(game.turn_state, TurnState::PlayerTurn);
    game.tick(None, &mut rng, in_sight);
    game.tick(None, &mut rng, in_sight);
    assert_eq!(game.turn_state, TurnState::AwaitingInput);
    game.tick(Some(Command::UseItem(0)), &mut rng, in_sight);
    assert_eq!(game.ev_items, vec![ActivateItem { used_by: Entity(0), item: potion }]);
    game.tick(None, &mut rng, in_sight);
    assert!(game.ev_items.is_empty());
    assert!(!game.world.is_live(potion));
    assert_eq!(game.world.entities[0].health.unwrap().current, 7);
    game.tick(None, &mut rng, in_sight);
    game.tick(Some(Command::UseItem(0)), &mut rng, in_sight);
    assert!(game.ev_items.is_empty());
    game.tick(None, &mut rng, in_sight);
    assert_eq!(game.world.entities[0].health.unwrap().current, 7);
}

#[test]
fn a_whole_game_stays_consistent() {
    let mut rng = StdRng::seed_from_u64(2024);
    let arch = Architect::Empty(EmptyArchitect);
    let mut game = Game::new(&mut rng, &arch, &goblins()).unwrap();
    game.world.entities[0].damage = Some(Damage(1));
    let commands = [Command::Left, Command::Up, Command::Right, Command::Down, Command::PickUp];
    for turn in 0..300 {
        let cmd = commands[turn % commands.len()];
        game.tick(Some(cmd), &mut rng, in_sight);
        assert_eq!(game.world.find_player(), Some(Entity(0)));
        assert!(game.world.is_on_map());
        assert!(game.map_spec.is_valid());
        for c in game.world.entities.iter().filter(|c| c.alive) {
            if c.carried.is_some() {
                assert!(c.position.is_none());
            }
            if let Some(p) = c.position {
                if c.health.is_some() {
                    assert!(game.map_spec.can_enter_tile(p) || game.map_spec.tiles[map_idx(p.x, p.y)] == TileType::Exit);
                }
            }
        }
        if game.turn_state != TurnState::AwaitingInput {
            assert!(
                game.turn_state == TurnState::PlayerTurn
                    || game.turn_state == TurnState::MonsterTurn
                    || game.turn_state == TurnState::GameOver
                    || game.turn_state == TurnState::NextLevel
            );
        }
    }
}

#[test]
fn descending_builds_the_next_level() {
    let mut rng = StdRng::seed_from_u64(5);
    let arch = Architect::Empty(EmptyArchitect);
    let mut game = Game::new(&mut rng, &arch, &goblins()).unwrap();
    let mut potion = Components::bare();
    potion.item = Some(Item);
    potion.carried = Some(Carried(Entity(0)));
    let potion = game.world.spawn(potion);
    game.turn_state = TurnState::NextLevel;
    game.ev_movements.push(WantsToMove { entity: Entity(0), destination: Point::new(1, 1) });
    assert_eq!(game.descend(&mut rng, &arch, &goblins()), Ok(()));
    assert_eq!(game.turn_state, TurnState::AwaitingInput);
    assert!(game.is_valid());
    assert_eq!(game.world.find_player(), Some(Entity(0)));
    assert_eq!(game.world.entities[0].player, Some(Player { map_level: 1 }));
    assert!(game.world.entities[0].fov.as_ref().unwrap().is_dirty);
    assert!(game.world.is_live(potion));
    for e in 1..51 {
        assert!(!game.world.is_live(Entity(e)));
    }
    assert_eq!(game.world.entities.len(), 52);
    assert_eq!(game.map_spec.tiles[map_idx(0, 0)], TileType::Exit);
    assert_eq!(game.ev_movements.len(), 1);
    assert_eq!(game.descend(&mut rng, &arch, &goblins()), Ok(()));
    assert_eq!(game.world.entities[0].player, Some(Player { map_level: 2 }));
    assert_eq!(game.map_spec.tiles[map_idx(0, 0)], TileType::Floor);
    assert_eq!(game.world.find_goal(), Some(Point::new(0, 0)));
    assert!(game.is_valid());
}

#[test]
fn a_failed_descent_changes_nothing() {
    let mut rng = StdRng::seed_from_u64(5);
    let mut game = Game::new(&mut rng, &Architect::Empty(EmptyArchitect), &goblins()).unwrap();
    game.turn_state = TurnState::NextLevel;
    let bad = Architect::Drunkard(DrunkardsWalkArchitect { walks: 0 });
    assert_eq!(game.descend(&mut rng, &bad, &goblins()), Err(BuildError::OutOfAttempts));
    assert_eq!(game.turn_state, TurnState::NextLevel);
    assert_eq!(game.world.entities.len(), 51);
    assert!(game.world.entities.iter().all(|c| c.alive));
    assert_eq!(game.world.entities[0].player, Some(Player { map_level: 0 }));
    assert_eq!(game.map_spec.floor_count(), 3999);
    assert_eq!(game.restart(&mut rng, &bad, &goblins()), Err(BuildError::OutOfAttempts));
    assert_eq!(game.world.find_player(), Some(Entity(0)));
    assert_eq!(game.turn_state, TurnState::NextLevel);
}

#[test]
fn restarting_begins_a_new_game() {
    let mut rng = StdRng::seed_from_u64(5);
    let arch = Architect::Empty(EmptyArchitect);
    let mut game = Game::new(&mut rng, &arch, &goblins()).unwrap();
    game.world.entities[0].health = Some(Health { current: 0, max: 10 });
    game.turn_state = TurnState::GameOver;
    game.ev_attacks.push(WantsToAttack { attacker: Entity(1), victim: Entity(0) });
    assert_eq!(game.restart(&mut rng, &arch, &goblins()), Ok(()));
    assert_eq!(game.turn_state, TurnState::AwaitingInput);
    assert!(game.ev_attacks.is_empty());
    assert_eq!(game.world.find_player(), Some(Entity(51)));
    assert_eq!(game.world.entities[51].health, Some(Health { current: 10, max: 10 }));
    assert_eq!(game.world.entities[51].position, Some(Point::new(40, 25)));
    for e in 0..51 {
        assert!(!game.world.is_live(Entity(e)));
    }
    assert_eq!(game.world.entities.len(), 102);
    assert!(game.is_valid());
}

#[test]
fn validity_is_told() {
    let mut game = arena(Point::new(10, 10));
    assert!(game.is_valid());
    assert!(game.world.is_consistent());
    game.world.entities[0].position = Some(Point::new(80, 10));
    assert!(!game.is_valid());
    game.world.entities[0].position = Some(Point::new(10, 10));
    let mut bad = Components::bare();
    bad.item = Some(Item);
    bad.carried = Some(Carried(Entity(0)));
    bad.position = Some(Point::new(1, 1));
    let bad = game.world.spawn(bad);
    assert!(!game.world.is_consistent());
    game.world.despawn(bad);
    assert!(game.world.is_consistent());
    add_monster(&mut game, Point::new(3, 3), 1, 1);
    game.world.entities[2].moving_randomly = Some(dungeoncrawl::components::MovingRandomly);
    assert!(!game.world.is_consistent());
    game.world.entities[2].chasing_player = None;
    assert!(game.world.is_consistent());
    game.world.entities[0].player = None;
    assert!(!game.world.is_consistent());
    game.world.entities[0].player = Some(Player { map_level: 0 });
    game.map_spec.revealed_tiles.pop();
    assert!(!game.is_valid());
}
