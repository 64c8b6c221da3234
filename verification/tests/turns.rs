use dungeoncrawl::components::{AmuletOfYala, FieldOfView, Health, Item, Player};
use dungeoncrawl::map::{map_idx, MapSpec, TileType};
use dungeoncrawl::systems::end_turn::end_turn;
use dungeoncrawl::turn_state::{advance, TurnState};
use dungeoncrawl::utils::Point;
use dungeoncrawl::world::{Components, World};

fn world_with(player: Point, health: i32, amulet: Option<Point>) -> World {
    let mut world = World::new();
    let mut p = Components::bare();
    p.player = Some(Player { map_level: 0 });
    p.position = Some(player);
    p.health = Some(Health { current: health, max: 10 });
    p.fov = Some(FieldOfView::new(6));
    world.spawn(p);
    if let Some(at) = amulet {
        let mut a = Components::bare();
        a.amulet = Some(AmuletOfYala);
        a.item = Some(Item);
        a.position = Some(at);
        world.spawn(a);
    }
    world
}

#[test]
fn turn_without_health_is_game_over() {
    assert_eq!(advance(TurnState::PlayerTurn, 0, false, false), TurnState::GameOver);
    assert_eq!(advance(TurnState::MonsterTurn, -3, false, false), TurnState::GameOver);
}

#[test]
fn turn_on_the_goal_is_victory() {
    assert_eq!(advance(TurnState::PlayerTurn, 5, true, false), TurnState::Victory);
    assert_eq!(advance(TurnState::MonsterTurn, 1, true, false), TurnState::Victory);
}

#[test]
fn turn_passes_on() {
    assert_eq!(advance(TurnState::MonsterTurn, 5, false, false), TurnState::AwaitingInput);
    assert_eq!(advance(TurnState::PlayerTurn, 5, false, false), TurnState::MonsterTurn);
}

#[test]
fn awaiting_input_stays() {
    for health in [-1, 0, 5] {
        for at_goal in [false, true] {
            for on_exit in [false, true] {
                assert_eq!(
                    advance(TurnState::AwaitingInput, health, at_goal, on_exit),
                    TurnState::AwaitingInput
                );
            }
        }
    }
}

#[test]
fn death_wins_over_the_goal() {
    assert_eq!(advance(TurnState::PlayerTurn, 0, true, false), TurnState::GameOver);
    assert_eq!(advance(TurnState::MonsterTurn, 0, true, false), TurnState::GameOver);
}

#[test]
fn exit_leads_to_the_next_level() {
    assert_eq!(advance(TurnState::PlayerTurn, 5, false, true), TurnState::NextLevel);
    assert_eq!(advance(TurnState::PlayerTurn, 5, true, true), TurnState::NextLevel);
    assert_eq!(advance(TurnState::MonsterTurn, 0, false, true), TurnState::NextLevel);
}

#[test]
fn ended_phases_stay_unless_judged_anew() {
    assert_eq!(advance(TurnState::Victory, 5, false, false), TurnState::Victory);
    assert_eq!(advance(TurnState::GameOver, 5, false, false), TurnState::GameOver);
    assert_eq!(advance(TurnState::NextLevel, 5, false, false), TurnState::NextLevel);
    assert_eq!(advance(TurnState::Victory, 0, false, false), TurnState::GameOver);
}

#[test]
fn advance_is_a_function_of_its_arguments() {
    let states = [
        TurnState::AwaitingInput,
        TurnState::PlayerTurn,
        TurnState::MonsterTurn,
        TurnState::NextLevel,
        TurnState::Victory,
        TurnState::GameOver,
    ];
    for s in states {
        for h in [-1, 0, 1, 5] {
            for g in [false, true] {
                for e in [false, true] {
                    assert_eq!(advance(s, h, g, e), advance(s, h, g, e));
                }
            }
        }
    }
}

#[test]
fn end_turn_of_dead_player_is_game_over() {
    let map = MapSpec::new();
    let world = world_with(Point::new(5, 5), 0, Some(Point::new(9, 9)));
    let mut state = TurnState::PlayerTurn;
    assert!(end_turn(&map, &mut state, &world));
    assert_eq!(state, TurnState::GameOver);
}

#[test]
fn end_turn_on_the_amulet_is_victory() {
    let map = MapSpec::new();
    let world = world_with(Point::new(5, 5), 5, Some(Point::new(5, 5)));
    let mut state = TurnState::PlayerTurn;
    assert!(end_turn(&map, &mut state, &world));
    assert_eq!(state, TurnState::Victory);
}

#[test]
fn end_turn_of_monsters_awaits_input() {
    let map = MapSpec::new();
    let world = world_with(Point::new(5, 5), 5, None);
    let mut state = TurnState::MonsterTurn;
    assert!(end_turn(&map, &mut state, &world));
    assert_eq!(state, TurnState::AwaitingInput);
}

#[test]
fn end_turn_while_awaiting_input_changes_nothing() {
    let map = MapSpec::new();
    let mut state = TurnState::AwaitingInput;
    assert!(!end_turn(&map, &mut state, &World::new()));
    assert_eq!(state, TurnState::AwaitingInput);
    assert!(!end_turn(&map, &mut state, &world_with(Point::new(5, 5), 0, None)));
    assert_eq!(state, TurnState::AwaitingInput);
}

#[test]
fn end_turn_reports_no_change_where_the_phase_stays() {
    let map = MapSpec::new();
    let world = world_with(Point::new(5, 5), 0, None);
    let mut state = TurnState::GameOver;
    assert!(!end_turn(&map, &mut state, &world));
    assert_eq!(state, TurnState::GameOver);
}

#[test]
fn end_turn_on_an_exit_goes_down() {
    let mut map = MapSpec::new();
    map.tiles[map_idx(5, 5)] = TileType::Exit;
    let world = world_with(Point::new(5, 5), 5, Some(Point::new(1, 1)));
    let mut state = TurnState::PlayerTurn;
    assert!(end_turn(&map, &mut state, &world));
    assert_eq!(state, TurnState::NextLevel);
}

#[test]
fn end_turn_ignores_a_carried_amulet_and_several_amulets() {
    let map = MapSpec::new();
    let mut world = world_with(Point::new(5, 5), 5, Some(Point::new(5, 5)));
    world.entities[1].position = None;
    let mut state = TurnState::PlayerTurn;
    end_turn(&map, &mut state, &world);
    assert_eq!(state, TurnState::MonsterTurn);
    let mut two = world_with(Point::new(5, 5), 5, Some(Point::new(5, 5)));
    let second = two.entities[1].clone();
    two.spawn(second);
    let mut state = TurnState::PlayerTurn;
    end_turn(&map, &mut state, &two);
    assert_eq!(state, TurnState::MonsterTurn);
}
