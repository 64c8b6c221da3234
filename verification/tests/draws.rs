use dungeoncrawl::map::{center_point, map_idx, MapSpec, TileType, NUM_TILES};
use dungeoncrawl::map_builder::drunkard::{DrunkardsWalkArchitect, DESIRED_FLOOR};
use dungeoncrawl::map_builder::rooms::RoomsArchitect;
use dungeoncrawl::map_builder::{BuildError, NUM_ROOMS};
use dungeoncrawl::utils::{Point, Rect};
use rand::rngs::StdRng;
use rand::SeedableRng;

const WEST: i32 = 0;
const EAST: i32 = 1;
const NORTH: i32 = 2;
const SOUTH: i32 = 3;

fn wall_map() -> MapSpec {
    let mut map = MapSpec::new();
    for idx in 0..NUM_TILES {
        map.tiles[idx] = TileType::Wall;
    }
    map
}

/// Twenty-four rooms of three by three tiles, three tiles apart.
fn apart(n: usize) -> Vec<Rect> {
    let mut rooms = Vec::new();
    for j in 0..4 {
        for i in 0..6 {
            if rooms.len() < n {
                rooms.push(Rect::with_size(1 + 6 * i, 1 + 6 * j, 2, 2));
            }
        }
    }
    rooms
}

/// Four hundred turns that sweep rows of thirty tiles, first along `along`,
/// then back, one row further towards `across` each time.
fn sweep(along: i32, across: i32) -> Vec<i32> {
    let back = if along == EAST { WEST } else { EAST };
    let mut turns = Vec::new();
    let mut forth = true;
    while turns.len() < 400 {
        for _ in 0..30 {
            if turns.len() < 400 {
                turns.push(if forth { along } else { back });
            }
        }
        if turns.len() < 400 {
            turns.push(across);
        }
        forth = !forth;
    }
    turns
}

/// The tiles that a walker from `start` stands on along `turns`.
fn trodden(start: Point, turns: &[i32], floor: &mut Vec<bool>) {
    let mut at = start;
    floor[map_idx(at.x, at.y)] = true;
    for turn in turns {
        at = match *turn {
            WEST => Point::new(at.x - 1, at.y),
            EAST => Point::new(at.x + 1, at.y),
            NORTH => Point::new(at.x, at.y - 1),
            _ => Point::new(at.x, at.y + 1),
        };
        floor[map_idx(at.x, at.y)] = true;
    }
}

fn is_floor(map: &MapSpec) -> Vec<bool> {
    map.tiles.iter().map(|t| *t == TileType::Floor).collect()
}

#[test]
fn twenty_rooms_apart_make_a_level() {
    let draws = apart(20);
    let mut rng = StdRng::seed_from_u64(1);
    let mb = RoomsArchitect { attempts: 20 }.with_rooms(&draws, &mut rng).unwrap();
    assert_eq!(mb.rooms, draws);
    assert_eq!(mb.player_start, Point::new(2, 2));
    assert_eq!(mb.monster_spawns.len(), NUM_ROOMS - 1);
    for i in 1..NUM_ROOMS {
        assert_eq!(mb.monster_spawns[i - 1], draws[i].center());
    }
    for room in &draws {
        for y in room.y1..=room.y2 {
            for x in room.x1..=room.x2 {
                assert_eq!(mb.map_spec.tiles[map_idx(x, y)], TileType::Floor);
            }
        }
    }
    assert_eq!(mb.map_spec.tiles[map_idx(0, 0)], TileType::Wall);
    assert_eq!(mb.map_spec.tiles[map_idx(79, 49)], TileType::Wall);
}

#[test]
fn a_room_that_overlaps_is_passed_over() {
    let mut draws = apart(20);
    draws.insert(1, Rect::with_size(2, 2, 4, 4));
    draws.insert(7, Rect::with_size(1, 1, 2, 2));
    let mut rng = StdRng::seed_from_u64(2);
    let mb = RoomsArchitect { attempts: 22 }.with_rooms(&draws, &mut rng).unwrap();
    assert_eq!(mb.rooms, apart(20));
}

#[test]
fn nineteen_rooms_are_too_few() {
    let mut rng = StdRng::seed_from_u64(3);
    let r = RoomsArchitect { attempts: 100 }.with_rooms(&apart(19), &mut rng);
    assert_eq!(r.err(), Some(BuildError::OutOfAttempts));
    let r = RoomsArchitect { attempts: 100 }.with_rooms(&Vec::new(), &mut rng);
    assert_eq!(r.err(), Some(BuildError::OutOfAttempts));
}

#[test]
fn rooms_beyond_the_attempts_do_not_count() {
    let mut rng = StdRng::seed_from_u64(4);
    let r = RoomsArchitect { attempts: 19 }.with_rooms(&apart(20), &mut rng);
    assert_eq!(r.err(), Some(BuildError::OutOfAttempts));
    let mut draws = apart(20);
    draws.insert(0, Rect::with_size(1, 1, 2, 2));
    let r = RoomsArchitect { attempts: 20 }.with_rooms(&draws, &mut rng);
    assert_eq!(r.err(), Some(BuildError::OutOfAttempts));
    assert!(RoomsArchitect { attempts: 21 }.with_rooms(&draws, &mut rng).is_ok());
}

#[test]
fn rooms_drawn_after_the_twentieth_are_left_out() {
    let mut rng = StdRng::seed_from_u64(5);
    let mb = RoomsArchitect { attempts: 24 }.with_rooms(&apart(24), &mut rng).unwrap();
    assert_eq!(mb.rooms, apart(20));
    assert_eq!(mb.map_spec.tiles[map_idx(13, 19)], TileType::Wall);
    assert_eq!(mb.map_spec.tiles[map_idx(7, 19)], TileType::Floor);
}

#[test]
fn four_sweeps_dig_enough_floor() {
    let c = center_point();
    let first = sweep(EAST, SOUTH);
    let turns = vec![sweep(EAST, NORTH), sweep(WEST, SOUTH), sweep(WEST, NORTH)];
    let starts = vec![c, c, c];
    let mut rng = StdRng::seed_from_u64(6);
    let mb = DrunkardsWalkArchitect { walks: 3 }.with_walks(&first, &starts, &turns, &mut rng).unwrap();
    let mut expected = vec![false; NUM_TILES];
    trodden(c, &first, &mut expected);
    for list in &turns {
        trodden(c, list, &mut expected);
    }
    assert_eq!(is_floor(&mb.map_spec), expected);
    assert!(mb.map_spec.floor_count() >= DESIRED_FLOOR);
    assert!(mb.map_spec.tiles.iter().all(|t| *t != TileType::Exit));
    assert_eq!(mb.player_start, c);
    assert!(mb.rooms.is_empty());
    assert_eq!(mb.map_spec.tiles[map_idx(mb.amulet_start.x, mb.amulet_start.y)], TileType::Floor);
}

#[test]
fn three_sweeps_dig_too_little() {
    let c = center_point();
    let first = sweep(EAST, SOUTH);
    let turns = vec![sweep(EAST, NORTH), sweep(WEST, SOUTH), sweep(WEST, NORTH)];
    let mut rng = StdRng::seed_from_u64(7);
    let arch = DrunkardsWalkArchitect { walks: 2 };
    assert_eq!(arch.with_walks(&first, &vec![c, c, c], &turns, &mut rng).err(), Some(BuildError::OutOfAttempts));
    let arch = DrunkardsWalkArchitect { walks: 9 };
    assert_eq!(arch.with_walks(&first, &vec![c, c], &turns, &mut rng).err(), Some(BuildError::OutOfAttempts));
    assert_eq!(
        arch.with_walks(&first, &vec![c, c, c], &turns[..2].to_vec(), &mut rng).err(),
        Some(BuildError::OutOfAttempts)
    );
    assert_eq!(
        arch.with_walks(&first, &Vec::new(), &Vec::new(), &mut rng).err(),
        Some(BuildError::OutOfAttempts)
    );
}

#[test]
fn no_walk_is_made_once_the_floor_is_enough() {
    let c = center_point();
    let first = sweep(EAST, SOUTH);
    let turns = vec![sweep(EAST, NORTH), sweep(WEST, SOUTH), sweep(WEST, NORTH), vec![NORTH; 20]];
    let starts = vec![c, c, c, c];
    let mut rng = StdRng::seed_from_u64(8);
    let mb = DrunkardsWalkArchitect { walks: 9 }.with_walks(&first, &starts, &turns, &mut rng).unwrap();
    let mut expected = vec![false; NUM_TILES];
    trodden(c, &first, &mut expected);
    for list in &turns[..3] {
        trodden(c, list, &mut expected);
    }
    assert_eq!(is_floor(&mb.map_spec), expected);
    assert_eq!(mb.map_spec.tiles[map_idx(40, 10)], TileType::Wall);
}

#[test]
fn a_walk_out_of_reach_of_the_middle_is_walled_up_again() {
    let c = center_point();
    let first = sweep(EAST, SOUTH);
    let turns = vec![
        vec![EAST, EAST, SOUTH],
        sweep(EAST, NORTH),
        sweep(WEST, SOUTH),
        sweep(WEST, NORTH),
    ];
    let starts = vec![Point::new(2, 2), c, c, c];
    let mut rng = StdRng::seed_from_u64(9);
    let mb = DrunkardsWalkArchitect { walks: 4 }.with_walks(&first, &starts, &turns, &mut rng).unwrap();
    let mut expected = vec![false; NUM_TILES];
    trodden(c, &first, &mut expected);
    for list in &turns[1..] {
        trodden(c, list, &mut expected);
    }
    assert_eq!(is_floor(&mb.map_spec), expected);
    for p in [Point::new(2, 2), Point::new(3, 2), Point::new(4, 2), Point::new(4, 3)] {
        assert_eq!(mb.map_spec.tiles[map_idx(p.x, p.y)], TileType::Wall);
    }
}

#[test]
fn prune_walls_up_what_the_middle_does_not_reach() {
    let arch = DrunkardsWalkArchitect { walks: 0 };
    let mut map = wall_map();
    arch.walk(&center_point(), &vec![EAST, EAST, NORTH], &mut map);
    arch.walk(&Point::new(5, 5), &vec![SOUTH, SOUTH], &mut map);
    map.tiles[map_idx(44, 24)] = TileType::Floor;
    map.revealed_tiles[7] = true;
    arch.prune(&mut map);
    let mut expected = vec![false; NUM_TILES];
    trodden(center_point(), &[EAST, EAST, NORTH], &mut expected);
    assert_eq!(is_floor(&map), expected);
    assert_eq!(map.tiles[map_idx(5, 5)], TileType::Wall);
    assert_eq!(map.tiles[map_idx(44, 24)], TileType::Wall);
    assert!(map.revealed_tiles[7]);
}

#[test]
fn prune_on_walls_leaves_walls() {
    let arch = DrunkardsWalkArchitect { walks: 0 };
    let mut map = wall_map();
    map.tiles[map_idx(1, 1)] = TileType::Floor;
    arch.prune(&mut map);
    assert!(map.tiles.iter().all(|t| *t == TileType::Wall));
}

#[test]
fn prune_keeps_a_map_whose_floor_is_all_in_reach() {
    let arch = DrunkardsWalkArchitect { walks: 0 };
    let mut map = wall_map();
    arch.walk(&center_point(), &sweep(WEST, NORTH), &mut map);
    let before = map.tiles.clone();
    arch.prune(&mut map);
    assert_eq!(map.tiles, before);
}
