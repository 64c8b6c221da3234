use dungeoncrawl::flood_fill::{DistanceField, UNREACHABLE};
use dungeoncrawl::map::{center_point, map_idx, MapSpec, TileType, NUM_TILES};
use dungeoncrawl::map_builder::cellular::{tile_for_roll, CellularAutomataArchitect};
use dungeoncrawl::map_builder::drunkard::{DrunkardsWalkArchitect, DESIRED_FLOOR, STAGGER_DISTANCE};
use dungeoncrawl::map_builder::empty::EmptyArchitect;
use dungeoncrawl::map_builder::rooms::RoomsArchitect;
use dungeoncrawl::map_builder::{
    far_apart, sort_stable, Architect, BuildError, MapBuilder, FILL_DEPTH, NUM_MONSTERS, NUM_ROOMS,
};
use dungeoncrawl::utils::{Point, Rect};
use rand::rngs::StdRng;
use rand::SeedableRng;

fn walled_blueprint() -> MapBuilder {
    let mut mb = MapBuilder::blank();
    mb.fill(TileType::Wall);
    mb
}

fn floor_tiles(map: &MapSpec) -> Vec<usize> {
    (0..NUM_TILES).filter(|i| map.tiles[*i] == TileType::Floor).collect()
}

fn reached_from(map: &MapSpec, start: Point) -> DistanceField {
    DistanceField::new(&vec![map_idx(start.x, start.y)], map, FILL_DEPTH)
}

#[test]
fn blank_blueprint_is_floor_with_nothing_placed() {
    let mb = MapBuilder::blank();
    assert_eq!(mb.map_spec.floor_count(), NUM_TILES);
    assert!(mb.rooms.is_empty());
    assert!(mb.monster_spawns.is_empty());
    assert!(mb.map_spec.revealed_tiles.iter().all(|r| !*r));
    assert_eq!(mb.player_start, Point::new(0, 0));
    assert_eq!(mb.amulet_start, Point::new(0, 0));
}

#[test]
fn fill_sets_every_tile() {
    let mut mb = MapBuilder::blank();
    mb.fill(TileType::Wall);
    assert!(mb.map_spec.tiles.iter().all(|t| *t == TileType::Wall));
    mb.fill(TileType::Exit);
    assert!(mb.map_spec.tiles.iter().all(|t| *t == TileType::Exit));
    assert_eq!(mb.map_spec.tiles.len(), NUM_TILES);
}

#[test]
fn place_room_carves_the_room_with_its_far_edges() {
    let mut mb = walled_blueprint();
    let room = Rect::with_size(2, 3, 4, 2);
    assert!(mb.place_room(room));
    assert_eq!(mb.rooms, vec![room]);
    for y in 0..50 {
        for x in 0..80 {
            let inside = (2..=6).contains(&x) && (3..=5).contains(&y);
            let want = if inside { TileType::Floor } else { TileType::Wall };
            assert_eq!(mb.map_spec.tiles[map_idx(x, y)], want);
        }
    }
}

#[test]
fn place_room_leaves_first_row_and_column_alone() {
    let mut mb = walled_blueprint();
    assert!(mb.place_room(Rect::with_exact(-2, -2, 2, 1)));
    assert_eq!(mb.map_spec.tiles[map_idx(0, 0)], TileType::Wall);
    assert_eq!(mb.map_spec.tiles[map_idx(1, 0)], TileType::Wall);
    assert_eq!(mb.map_spec.tiles[map_idx(0, 1)], TileType::Wall);
    assert_eq!(mb.map_spec.tiles[map_idx(1, 1)], TileType::Floor);
    assert_eq!(mb.map_spec.tiles[map_idx(2, 1)], TileType::Floor);
    assert_eq!(mb.map_spec.floor_count(), 2);
}

#[test]
fn place_room_refuses_overlap_and_shared_edges() {
    let mut mb = walled_blueprint();
    assert!(mb.place_room(Rect::with_size(10, 10, 5, 5)));
    let before = mb.map_spec.tiles.clone();
    assert!(!mb.place_room(Rect::with_size(12, 12, 5, 5)));
    assert!(!mb.place_room(Rect::with_size(15, 10, 3, 3)));
    assert_eq!(mb.rooms.len(), 1);
    assert_eq!(mb.map_spec.tiles, before);
    assert!(mb.place_room(Rect::with_size(16, 10, 3, 3)));
    assert_eq!(mb.rooms.len(), 2);
}

#[test]
fn random_rooms_overlap_nowhere_and_are_floor() {
    for seed in 0..5 {
        let mut rng = StdRng::seed_from_u64(seed);
        let mut mb = walled_blueprint();
        let complete = mb.build_random_rooms(&mut rng, 10_000);
        assert!(complete);
        assert_eq!(mb.rooms.len(), NUM_ROOMS);
        for (i, a) in mb.rooms.iter().enumerate() {
            assert!(1 <= a.x1 && a.x1 < 70 && 1 <= a.y1 && a.y1 < 40);
            assert!((2..10).contains(&(a.x2 - a.x1)) && (2..10).contains(&(a.y2 - a.y1)));
            for b in mb.rooms.iter().skip(i + 1) {
                assert!(!a.intersect(b));
            }
            for p in a.for_each() {
                assert_eq!(mb.map_spec.tiles[map_idx(p.x, p.y)], TileType::Floor);
            }
        }
        let carved: usize =
            mb.rooms.iter().map(|r| ((r.x2 - r.x1 + 1) * (r.y2 - r.y1 + 1)) as usize).sum();
        assert_eq!(mb.map_spec.floor_count(), carved);
    }
}

#[test]
fn random_rooms_without_attempts_place_nothing() {
    let mut rng = StdRng::seed_from_u64(1);
    let mut mb = walled_blueprint();
    assert!(!mb.build_random_rooms(&mut rng, 0));
    assert!(mb.rooms.is_empty());
    assert_eq!(mb.map_spec.floor_count(), 0);
}

#[test]
fn random_rooms_stop_at_the_budget() {
    let mut rng = StdRng::seed_from_u64(2);
    let mut mb = walled_blueprint();
    assert!(!mb.build_random_rooms(&mut rng, 3));
    assert!(mb.rooms.len() <= 3);
}

#[test]
fn horizontal_tunnel_digs_the_run_in_either_order() {
    for (x1, x2) in [(3, 7), (7, 3)] {
        let mut mb = walled_blueprint();
        mb.apply_horizontal_tunnel(x1, x2, 4);
        for y in 0..50 {
            for x in 0..80 {
                let want = if y == 4 && (3..=7).contains(&x) { TileType::Floor } else { TileType::Wall };
                assert_eq!(mb.map_spec.tiles[map_idx(x, y)], want);
            }
        }
    }
}

#[test]
fn vertical_tunnel_digs_the_run_in_either_order() {
    for (y1, y2) in [(10, 12), (12, 10)] {
        let mut mb = walled_blueprint();
        mb.apply_vertical_tunnel(y1, y2, 79);
        assert_eq!(mb.map_spec.floor_count(), 3);
        for y in 10..=12 {
            assert_eq!(mb.map_spec.tiles[map_idx(79, y)], TileType::Floor);
        }
    }
}

#[test]
fn tunnels_stop_at_the_edge_of_the_map() {
    let mut mb = walled_blueprint();
    mb.apply_horizontal_tunnel(-5, 2, 0);
    assert_eq!(mb.map_spec.floor_count(), 3);
    mb.apply_horizontal_tunnel(77, 200, 49);
    assert_eq!(mb.map_spec.floor_count(), 6);
    mb.apply_horizontal_tunnel(0, 79, 50);
    mb.apply_horizontal_tunnel(0, 79, -1);
    mb.apply_vertical_tunnel(0, 49, 80);
    mb.apply_vertical_tunnel(i32::MIN, i32::MAX, -1);
    assert_eq!(mb.map_spec.floor_count(), 6);
    mb.apply_vertical_tunnel(i32::MIN, i32::MAX, 5);
    assert_eq!(mb.map_spec.floor_count(), 56);
}

#[test]
fn sort_stable_orders_by_key_and_keeps_ties() {
    assert_eq!(sort_stable(&vec![3, 1, 2, 1]), vec![1, 3, 2, 0]);
    assert_eq!(sort_stable(&vec![5, 5, 5]), vec![0, 1, 2]);
    assert_eq!(sort_stable(&vec![-1, -7, 4]), vec![1, 0, 2]);
    assert_eq!(sort_stable(&Vec::new()), Vec::<usize>::new());
}

#[test]
fn corridors_join_two_rooms_by_an_elbow() {
    for seed in 0..8 {
        let mut rng = StdRng::seed_from_u64(seed);
        let mut mb = walled_blueprint();
        assert!(mb.place_room(Rect::with_exact(30, 30, 34, 34)));
        assert!(mb.place_room(Rect::with_exact(10, 10, 14, 14)));
        let rooms_floor = mb.map_spec.floor_count();
        mb.build_corridors(&mut rng);
        let row_first = (12..=32).all(|x| mb.map_spec.tiles[map_idx(x, 12)] == TileType::Floor)
            && (12..=32).all(|y| mb.map_spec.tiles[map_idx(32, y)] == TileType::Floor);
        let column_first = (12..=32).all(|y| mb.map_spec.tiles[map_idx(12, y)] == TileType::Floor)
            && (12..=32).all(|x| mb.map_spec.tiles[map_idx(x, 32)] == TileType::Floor);
        assert!(row_first != column_first);
        assert_eq!(mb.map_spec.floor_count(), rooms_floor + 41 - 6);
        assert_eq!(mb.rooms.len(), 2);
    }
}

#[test]
fn corridors_make_every_room_reachable() {
    for seed in 0..5 {
        let mut rng = StdRng::seed_from_u64(seed);
        let mut mb = walled_blueprint();
        assert!(mb.build_random_rooms(&mut rng, 10_000));
        mb.build_corridors(&mut rng);
        let field = DistanceField::new(
            &vec![map_idx(mb.rooms[0].center().x, mb.rooms[0].center().y)],
            &mb.map_spec,
            4000,
        );
        for idx in floor_tiles(&mb.map_spec) {
            assert_ne!(field.steps[idx], UNREACHABLE);
        }
    }
}

#[test]
fn far_apart_is_beyond_ten_tiles() {
    assert!(!far_apart(&Point::new(0, 0), &Point::new(10, 0)));
    assert!(!far_apart(&Point::new(0, 0), &Point::new(6, 8)));
    assert!(far_apart(&Point::new(0, 0), &Point::new(10, 1)));
    assert!(far_apart(&Point::new(0, 0), &Point::new(0, -11)));
    assert!(far_apart(&Point::new(i32::MIN, i32::MIN), &Point::new(i32::MAX, i32::MAX)));
}

#[test]
fn monsters_spawn_on_floor_away_from_the_start_each_once() {
    let mut rng = StdRng::seed_from_u64(7);
    let mut mb = walled_blueprint();
    for x in 0..80 {
        mb.map_spec.tiles[map_idx(x, 25)] = TileType::Floor;
    }
    let start = Point::new(40, 25);
    let spawns = mb.spawn_monsters(&start, &mut rng);
    assert_eq!(spawns.len(), NUM_MONSTERS);
    for (i, p) in spawns.iter().enumerate() {
        assert_eq!(p.y, 25);
        assert!((p.x - 40).abs() > 10);
        assert!(!spawns[i + 1..].contains(p));
    }
}

#[test]
fn monsters_stop_when_the_tiles_run_out() {
    let mut rng = StdRng::seed_from_u64(7);
    let mut mb = walled_blueprint();
    for x in 50..55 {
        mb.map_spec.tiles[map_idx(x, 25)] = TileType::Floor;
    }
    mb.map_spec.tiles[map_idx(51, 25)] = TileType::Wall;
    let mut spawns = mb.spawn_monsters(&Point::new(40, 25), &mut rng);
    spawns.sort_by_key(|p| p.x);
    assert_eq!(spawns, vec![Point::new(52, 25), Point::new(53, 25), Point::new(54, 25)]);
    assert!(walled_blueprint().spawn_monsters(&Point::new(40, 25), &mut rng).is_empty());
}

#[test]
fn most_distant_on_the_open_map_is_the_far_corner() {
    let mut mb = MapBuilder::blank();
    mb.player_start = Point::new(40, 25);
    assert_eq!(mb.find_most_distant(), Point::new(0, 0));
    mb.player_start = Point::new(0, 0);
    assert_eq!(mb.find_most_distant(), Point::new(79, 49));
}

#[test]
fn most_distant_of_a_walled_in_start_is_the_start() {
    let mut mb = walled_blueprint();
    mb.player_start = Point::new(5, 5);
    assert_eq!(mb.find_most_distant(), Point::new(5, 5));
}

#[test]
fn empty_architect_builds_the_open_level() {
    let mut rng = StdRng::seed_from_u64(3);
    let mb = EmptyArchitect.new(&mut rng);
    assert_eq!(mb.map_spec.floor_count(), NUM_TILES);
    assert_eq!(mb.player_start, Point::new(40, 25));
    assert_eq!(mb.amulet_start, Point::new(0, 0));
    assert_eq!(mb.monster_spawns.len(), NUM_MONSTERS);
    assert!(mb.monster_spawns.iter().all(|p| (1..80).contains(&p.x) && (1..50).contains(&p.y)));
    assert!(mb.rooms.is_empty());
}

#[test]
fn rooms_architect_builds_twenty_joined_rooms() {
    for seed in 0..3 {
        let mut rng = StdRng::seed_from_u64(seed);
        let mb = RoomsArchitect { attempts: 100_000 }.new(&mut rng).unwrap();
        assert_eq!(mb.rooms.len(), NUM_ROOMS);
        assert_eq!(mb.player_start, mb.rooms[0].center());
        let centers: Vec<Point> = mb.rooms.iter().skip(1).map(|r| r.center()).collect();
        assert_eq!(mb.monster_spawns, centers);
        let field = reached_from(&mb.map_spec, mb.player_start);
        for c in centers {
            assert_ne!(field.steps[map_idx(c.x, c.y)], UNREACHABLE);
        }
        let goal = field.farthest().unwrap();
        assert_eq!(mb.map_spec.index_to_point2d(goal), mb.amulet_start);
        assert!(mb.map_spec.can_enter_tile(mb.amulet_start));
    }
}

#[test]
fn rooms_architect_gives_up_without_attempts() {
    let mut rng = StdRng::seed_from_u64(0);
    assert_eq!(RoomsArchitect { attempts: 0 }.new(&mut rng).err(), Some(BuildError::OutOfAttempts));
    assert_eq!(RoomsArchitect { attempts: 19 }.new(&mut rng).err(), Some(BuildError::OutOfAttempts));
}

#[test]
fn noise_tile_is_floor_above_fifty_five() {
    assert_eq!(tile_for_roll(0), TileType::Wall);
    assert_eq!(tile_for_roll(55), TileType::Wall);
    assert_eq!(tile_for_roll(56), TileType::Floor);
    assert_eq!(tile_for_roll(99), TileType::Floor);
}

#[test]
fn random_noise_is_floor_and_wall() {
    let mut rng = StdRng::seed_from_u64(11);
    let mut map = MapSpec::new();
    map.tiles[0] = TileType::Exit;
    CellularAutomataArchitect.random_noise_map(&mut rng, &mut map);
    assert!(map.tiles.iter().all(|t| *t == TileType::Floor || *t == TileType::Wall));
    let floor = map.floor_count();
    assert!(floor > 1000 && floor < 2600);
    assert_eq!(map.tiles.len(), NUM_TILES);
}

#[test]
fn count_neighbors_counts_the_ring_of_eight() {
    let mut map = MapSpec::new();
    let arch = CellularAutomataArchitect;
    assert_eq!(arch.count_neighbors(5, 5, &map), 0);
    map.tiles[map_idx(5, 5)] = TileType::Wall;
    assert_eq!(arch.count_neighbors(5, 5, &map), 0);
    map.tiles[map_idx(4, 4)] = TileType::Wall;
    map.tiles[map_idx(6, 5)] = TileType::Wall;
    map.tiles[map_idx(5, 6)] = TileType::Wall;
    map.tiles[map_idx(7, 5)] = TileType::Wall;
    assert_eq!(arch.count_neighbors(5, 5, &map), 3);
    assert_eq!(arch.count_neighbors(6, 5, &map), 3);
    for t in map.tiles.iter_mut() {
        *t = TileType::Wall;
    }
    assert_eq!(arch.count_neighbors(1, 1, &map), 8);
    assert_eq!(arch.count_neighbors(78, 48, &map), 8);
}

#[test]
fn iteration_walls_up_the_crowded_and_the_lonely() {
    let arch = CellularAutomataArchitect;
    let mut map = MapSpec::new();
    map.tiles[map_idx(10, 10)] = TileType::Wall;
    arch.iteration(&mut map);
    for y in 0..50 {
        for x in 0..80 {
            let border = x == 0 || y == 0 || x == 79 || y == 49;
            let near = (x - 10i32).abs() <= 1 && (y - 10i32).abs() <= 1 && !(x == 10 && y == 10);
            let want = if border || near { TileType::Floor } else { TileType::Wall };
            assert_eq!(map.tiles[map_idx(x, y)], want, "at {} {}", x, y);
        }
    }
}

#[test]
fn iteration_keeps_the_border() {
    let arch = CellularAutomataArchitect;
    let mut map = MapSpec::new();
    for t in map.tiles.iter_mut() {
        *t = TileType::Wall;
    }
    map.tiles[map_idx(0, 7)] = TileType::Exit;
    map.tiles[map_idx(79, 7)] = TileType::Floor;
    arch.iteration(&mut map);
    assert_eq!(map.tiles[map_idx(0, 7)], TileType::Exit);
    assert_eq!(map.tiles[map_idx(79, 7)], TileType::Floor);
    assert_eq!(map.tiles[map_idx(1, 7)], TileType::Wall);
    assert_eq!(map.floor_count(), 1);
}

#[test]
fn find_start_is_the_floor_nearest_the_middle() {
    let arch = CellularAutomataArchitect;
    assert_eq!(arch.find_start(&MapSpec::new()), Some(Point::new(40, 25)));
    let mut map = MapSpec::new();
    for t in map.tiles.iter_mut() {
        *t = TileType::Wall;
    }
    assert_eq!(arch.find_start(&map), None);
    map.tiles[map_idx(43, 25)] = TileType::Floor;
    map.tiles[map_idx(40, 22)] = TileType::Floor;
    map.tiles[map_idx(37, 25)] = TileType::Floor;
    map.tiles[map_idx(0, 0)] = TileType::Floor;
    assert_eq!(arch.find_start(&map), Some(Point::new(40, 22)));
    map.tiles[map_idx(41, 26)] = TileType::Floor;
    assert_eq!(arch.find_start(&map), Some(Point::new(41, 26)));
}

#[test]
fn caves_from_walls_have_no_floor() {
    let mut rng = StdRng::seed_from_u64(0);
    let mut noise = MapSpec::new();
    for t in noise.tiles.iter_mut() {
        *t = TileType::Wall;
    }
    assert_eq!(CellularAutomataArchitect.grow(noise, &mut rng).err(), Some(BuildError::NoFloor));
}

#[test]
fn caves_grow_from_noise() {
    for seed in 0..3 {
        let mut rng = StdRng::seed_from_u64(seed);
        let mut noise = MapSpec::new();
        CellularAutomataArchitect.random_noise_map(&mut rng, &mut noise);
        let mut want = noise.clone();
        for _ in 0..10 {
            CellularAutomataArchitect.iteration(&mut want);
        }
        let mb = CellularAutomataArchitect.grow(noise, &mut rng).unwrap();
        assert_eq!(mb.map_spec.tiles, want.tiles);
        assert_eq!(Some(mb.player_start), CellularAutomataArchitect.find_start(&want));
        assert!(mb.map_spec.can_enter_tile(mb.player_start));
        let field = reached_from(&mb.map_spec, mb.player_start);
        assert_eq!(field.farthest().map(|i| mb.map_spec.index_to_point2d(i)), Some(mb.amulet_start));
        for p in mb.monster_spawns.iter() {
            assert!(mb.map_spec.can_enter_tile(*p));
            assert!(far_apart(&mb.player_start, p));
        }
    }
}

#[test]
fn cellular_architect_builds_caves() {
    let mut rng = StdRng::seed_from_u64(5);
    let mb = CellularAutomataArchitect.new(&mut rng).unwrap();
    assert!(mb.map_spec.can_enter_tile(mb.player_start));
    assert!(mb.map_spec.can_enter_tile(mb.amulet_start) || mb.amulet_start == mb.player_start);
    assert!(mb.monster_spawns.len() <= NUM_MONSTERS);
}

#[test]
fn one_drunkard_digs_a_walk_from_the_start() {
    for seed in 0..5 {
        let mut rng = StdRng::seed_from_u64(seed);
        let mut map = MapSpec::new();
        for t in map.tiles.iter_mut() {
            *t = TileType::Wall;
        }
        let start = Point::new(3, 3);
        DrunkardsWalkArchitect { walks: 0 }.drunkard(&start, &mut rng, &mut map);
        assert_eq!(map.tiles[map_idx(3, 3)], TileType::Floor);
        let floor = map.floor_count();
        assert!(floor >= 1 && floor <= STAGGER_DISTANCE + 1);
        let field = DistanceField::new(&vec![map_idx(3, 3)], &map, 1024);
        for idx in 0..NUM_TILES {
            if map.tiles[idx] == TileType::Floor {
                assert!(field.steps[idx] as usize <= STAGGER_DISTANCE);
            }
        }
    }
}

#[test]
fn drunkard_leaves_other_floor_alone() {
    let mut rng = StdRng::seed_from_u64(9);
    let mut map = MapSpec::new();
    map.revealed_tiles[5] = true;
    let before = map.tiles.clone();
    DrunkardsWalkArchitect { walks: 0 }.drunkard(&Point::new(79, 49), &mut rng, &mut map);
    assert_eq!(map.tiles, before);
    assert!(map.revealed_tiles[5]);
}

#[test]
fn drunkards_walk_meets_the_floor_quota() {
    for seed in 0..4 {
        let mut rng = StdRng::seed_from_u64(seed);
        let mb = DrunkardsWalkArchitect { walks: 1_000_000 }.new(&mut rng).unwrap();
        assert_eq!(DESIRED_FLOOR, 80 * 50 / 3);
        assert!(mb.map_spec.floor_count() >= DESIRED_FLOOR);
        assert_eq!(mb.player_start, center_point());
    }
}

#[test]
fn drunkards_walk_leaves_no_floor_out_of_reach() {
    for seed in 10..13 {
        let mut rng = StdRng::seed_from_u64(seed);
        let mb = DrunkardsWalkArchitect { walks: 1_000_000 }.new(&mut rng).unwrap();
        let field = reached_from(&mb.map_spec, mb.player_start);
        for idx in 0..NUM_TILES {
            match mb.map_spec.tiles[idx] {
                TileType::Floor => assert_ne!(field.steps[idx], UNREACHABLE),
                TileType::Wall => {}
                TileType::Exit => panic!("no exit is dug"),
            }
        }
        assert_eq!(field.farthest().map(|i| mb.map_spec.index_to_point2d(i)), Some(mb.amulet_start));
        for (i, p) in mb.monster_spawns.iter().enumerate() {
            assert!(mb.map_spec.can_enter_tile(*p));
            assert!(far_apart(&mb.player_start, p));
            assert!(!mb.monster_spawns[i + 1..].contains(p));
        }
        assert_eq!(mb.monster_spawns.len(), NUM_MONSTERS);
    }
}

#[test]
fn drunkards_walk_gives_up_without_walks() {
    let mut rng = StdRng::seed_from_u64(0);
    assert_eq!(
        DrunkardsWalkArchitect { walks: 0 }.new(&mut rng).err(),
        Some(BuildError::OutOfAttempts)
    );
}

#[test]
fn map_builder_runs_the_chosen_architect() {
    let mut rng = StdRng::seed_from_u64(21);
    let empty = MapBuilder::new(&mut rng, &Architect::Empty(EmptyArchitect)).unwrap();
    assert_eq!(empty.map_spec.floor_count(), NUM_TILES);
    let rooms = MapBuilder::new(&mut rng, &Architect::Rooms(RoomsArchitect { attempts: 100_000 })).unwrap();
    assert_eq!(rooms.rooms.len(), NUM_ROOMS);
    let drunk =
        MapBuilder::new(&mut rng, &Architect::Drunkard(DrunkardsWalkArchitect { walks: 100_000 })).unwrap();
    assert!(drunk.map_spec.floor_count() >= DESIRED_FLOOR);
    let caves = MapBuilder::new(&mut rng, &Architect::Cellular(CellularAutomataArchitect)).unwrap();
    assert!(caves.map_spec.can_enter_tile(caves.player_start));
    assert_eq!(
        MapBuilder::new(&mut rng, &Architect::Drunkard(DrunkardsWalkArchitect { walks: 0 })).err(),
        Some(BuildError::OutOfAttempts)
    );
    assert_eq!(
        MapBuilder::new(&mut rng, &Architect::Rooms(RoomsArchitect { attempts: 1 })).err(),
        Some(BuildError::OutOfAttempts)
    );
}

#[test]
fn rooms_architect_leaves_no_floor_out_of_reach() {
    for seed in 40..44 {
        let mut rng = StdRng::seed_from_u64(seed);
        let mb = RoomsArchitect { attempts: 100_000 }.new(&mut rng).unwrap();
        let field = DistanceField::new(
            &vec![map_idx(mb.player_start.x, mb.player_start.y)],
            &mb.map_spec,
            4000,
        );
        for idx in 0..NUM_TILES {
            match mb.map_spec.tiles[idx] {
                TileType::Floor => assert_ne!(field.steps[idx], UNREACHABLE),
                TileType::Wall => assert_eq!(field.steps[idx], UNREACHABLE),
                TileType::Exit => panic!("no exit is dug"),
            }
        }
    }
}

#[test]
fn steps_are_never_fewer_than_rows_and_columns() {
    let mut rng = StdRng::seed_from_u64(3);
    let mb = DrunkardsWalkArchitect { walks: 100_000 }.new(&mut rng).unwrap();
    let field = reached_from(&mb.map_spec, mb.player_start);
    for idx in 0..NUM_TILES {
        if field.steps[idx] != UNREACHABLE {
            let p = mb.map_spec.index_to_point2d(idx);
            let apart = (p.x - 40).abs() + (p.y - 25).abs();
            assert!(field.steps[idx] as i32 >= apart);
        }
    }
}

#[test]
fn first_room_of_a_level_is_always_placed() {
    for seed in 0..20 {
        let mut rng = StdRng::seed_from_u64(seed);
        let mut mb = walled_blueprint();
        assert!(!mb.build_random_rooms(&mut rng, 1));
        assert_eq!(mb.rooms.len(), 1);
        let r = mb.rooms[0];
        assert_eq!(mb.map_spec.floor_count(), ((r.x2 - r.x1 + 1) * (r.y2 - r.y1 + 1)) as usize);
    }
}

#[test]
fn random_rooms_draw_no_more_once_enough_stand() {
    let mut rng = StdRng::seed_from_u64(6);
    let mut mb = walled_blueprint();
    assert!(mb.build_random_rooms(&mut rng, 10_000));
    let rooms = mb.rooms.clone();
    let tiles = mb.map_spec.tiles.clone();
    assert!(mb.build_random_rooms(&mut rng, 10_000));
    assert_eq!(mb.rooms, rooms);
    assert_eq!(mb.map_spec.tiles, tiles);
}

fn walls() -> MapSpec {
    let mut map = MapSpec::new();
    for t in map.tiles.iter_mut() {
        *t = TileType::Wall;
    }
    map
}

fn floor_points(map: &MapSpec) -> Vec<Point> {
    floor_tiles(map).into_iter().map(|i| map.index_to_point2d(i)).collect()
}

#[test]
fn walk_takes_the_turns_given() {
    let mut map = walls();
    let arch = DrunkardsWalkArchitect { walks: 0 };
    arch.walk(&Point::new(10, 10), &vec![1, 1, 3, 0, 2, 2], &mut map);
    assert_eq!(
        floor_points(&map),
        vec![
            Point::new(11, 9),
            Point::new(10, 10),
            Point::new(11, 10),
            Point::new(12, 10),
            Point::new(11, 11),
            Point::new(12, 11),
        ]
    );
}

#[test]
fn walk_without_turns_digs_the_start_only() {
    let mut map = walls();
    map.revealed_tiles[3] = true;
    DrunkardsWalkArchitect { walks: 0 }.walk(&Point::new(4, 4), &Vec::new(), &mut map);
    assert_eq!(floor_points(&map), vec![Point::new(4, 4)]);
    assert!(map.revealed_tiles[3]);
}

#[test]
fn walk_ends_where_it_leaves_the_map() {
    let mut map = walls();
    let arch = DrunkardsWalkArchitect { walks: 0 };
    arch.walk(&Point::new(1, 0), &vec![0, 0, 1, 1, 1, 3], &mut map);
    assert_eq!(floor_points(&map), vec![Point::new(0, 0), Point::new(1, 0)]);
    let mut map = walls();
    arch.walk(&Point::new(79, 49), &vec![3, 0, 0], &mut map);
    assert_eq!(floor_points(&map), vec![Point::new(79, 49)]);
    let mut map = walls();
    arch.walk(&Point::new(5, 0), &vec![2, 1], &mut map);
    assert_eq!(floor_points(&map), vec![Point::new(5, 0)]);
}

#[test]
fn walk_ends_after_its_distance() {
    let mut map = walls();
    let mut turns = Vec::new();
    for row in 0..10 {
        for _ in 0..60 {
            turns.push(if row % 2 == 0 { 1 } else { 0 });
        }
        turns.push(3);
    }
    assert!(turns.len() > STAGGER_DISTANCE + 100);
    DrunkardsWalkArchitect { walks: 0 }.walk(&Point::new(5, 5), &turns, &mut map);
    assert_eq!(map.floor_count(), STAGGER_DISTANCE + 1);
    let mut short = walls();
    DrunkardsWalkArchitect { walks: 0 }.walk(&Point::new(5, 5), &turns[..STAGGER_DISTANCE].to_vec(), &mut short);
    assert_eq!(short.tiles, map.tiles);
    let mut shorter = walls();
    DrunkardsWalkArchitect { walks: 0 }.walk(&Point::new(5, 5), &turns[..STAGGER_DISTANCE - 1].to_vec(), &mut shorter);
    assert_eq!(shorter.floor_count(), STAGGER_DISTANCE);
}

#[test]
fn walk_treats_other_turns_as_south() {
    let mut map = walls();
    DrunkardsWalkArchitect { walks: 0 }.walk(&Point::new(5, 5), &vec![7, -1], &mut map);
    assert_eq!(floor_points(&map), vec![Point::new(5, 5), Point::new(5, 6), Point::new(5, 7)]);
}

#[test]
fn one_drunkard_digs_more_than_its_start_off_the_border() {
    for seed in 0..10 {
        let mut rng = StdRng::seed_from_u64(seed);
        let mut map = walls();
        DrunkardsWalkArchitect { walks: 0 }.drunkard(&Point::new(40, 25), &mut rng, &mut map);
        assert!(map.floor_count() >= 2);
    }
}
