use dungeoncrawl::map::{
    center_point, map_idx, MapSpec, TileType, NUM_TILES, TILEMAP_HEIGHT, TILEMAP_WIDTH,
};
use dungeoncrawl::utils::Point;

fn walled_map() -> MapSpec {
    let mut map = MapSpec::new();
    for t in map.tiles.iter_mut() {
        *t = TileType::Wall;
    }
    map
}

#[test]
fn map_dimensions_are_fixed() {
    assert_eq!(TILEMAP_WIDTH, 80);
    assert_eq!(TILEMAP_HEIGHT, 50);
    assert_eq!(NUM_TILES, 4000);
    assert_eq!(MapSpec::new().dimensions(), Point::new(80, 50));
    assert_eq!(center_point(), Point::new(40, 25));
}

#[test]
fn new_map_is_floor_and_hidden() {
    let map = MapSpec::new();
    assert!(map.is_valid());
    assert_eq!(map.tiles.len(), NUM_TILES);
    assert!(map.tiles.iter().all(|t| *t == TileType::Floor));
    assert!(map.revealed_tiles.iter().all(|r| !*r));
}

#[test]
fn map_with_short_array_is_not_valid() {
    let mut map = MapSpec::new();
    map.tiles.pop();
    assert!(!map.is_valid());
}

#[test]
fn map_idx_is_row_major() {
    assert_eq!(map_idx(0, 0), 0);
    assert_eq!(map_idx(3, 2), 163);
    assert_eq!(map_idx(79, 49), 3999);
}

#[test]
fn index_and_point_round_trip() {
    let map = MapSpec::new();
    for y in 0..TILEMAP_HEIGHT {
        for x in 0..TILEMAP_WIDTH {
            let p = Point::new(x, y);
            let idx = map.point2d_to_index(p);
            assert_eq!(idx, map_idx(x, y));
            assert_eq!(map.index_to_point2d(idx), p);
        }
    }
    for idx in 0..NUM_TILES {
        assert_eq!(map.point2d_to_index(map.index_to_point2d(idx)), idx);
    }
}

#[test]
fn index_to_point_of_huge_index_has_row_zero() {
    let map = MapSpec::new();
    let p = map.index_to_point2d(usize::MAX);
    assert_eq!(p.x, (usize::MAX % 80) as i32);
    assert_eq!(p.y, 0);
}

#[test]
fn in_bounds_at_the_edges() {
    let map = MapSpec::new();
    assert!(map.in_bounds(Point::new(0, 0)));
    assert!(map.in_bounds(Point::new(79, 49)));
    assert!(!map.in_bounds(Point::new(80, 0)));
    assert!(!map.in_bounds(Point::new(0, 50)));
    assert!(!map.in_bounds(Point::new(-1, 0)));
    assert!(!map.in_bounds(Point::new(0, -1)));
}

#[test]
fn try_idx_gates_by_bounds() {
    let map = MapSpec::new();
    assert_eq!(map.try_idx(Point::new(3, 2)), Some(163));
    assert_eq!(map.try_idx(Point::new(80, 2)), None);
    assert_eq!(map.try_idx(Point::new(-1, -1)), None);
}

#[test]
fn can_enter_tile_only_floor_on_the_map() {
    let mut map = MapSpec::new();
    map.tiles[map_idx(5, 5)] = TileType::Wall;
    map.tiles[map_idx(6, 5)] = TileType::Exit;
    assert!(map.can_enter_tile(Point::new(4, 5)));
    assert!(!map.can_enter_tile(Point::new(5, 5)));
    assert!(!map.can_enter_tile(Point::new(6, 5)));
    assert!(!map.can_enter_tile(Point::new(-1, 5)));
    assert!(!map.can_enter_tile(Point::new(80, 5)));
    assert!(!map.can_enter_tile(Point::new(5, 50)));
}

#[test]
fn can_enter_tile_refuses_every_wall_and_every_point_off_the_map() {
    let map = walled_map();
    for y in -2..TILEMAP_HEIGHT + 2 {
        for x in -2..TILEMAP_WIDTH + 2 {
            assert!(!map.can_enter_tile(Point::new(x, y)));
        }
    }
}

#[test]
fn valid_exit_names_the_destination() {
    let mut map = MapSpec::new();
    map.tiles[map_idx(5, 4)] = TileType::Wall;
    assert_eq!(map.valid_exit(Point::new(5, 5), Point::new(1, 0)), Some(map_idx(6, 5)));
    assert_eq!(map.valid_exit(Point::new(5, 5), Point::new(0, -1)), None);
    assert_eq!(map.valid_exit(Point::new(0, 0), Point::new(-1, 0)), None);
}

#[test]
fn is_opaque_for_everything_but_floor() {
    let mut map = MapSpec::new();
    map.tiles[1] = TileType::Wall;
    map.tiles[2] = TileType::Exit;
    assert!(!map.is_opaque(0));
    assert!(map.is_opaque(1));
    assert!(map.is_opaque(2));
}

#[test]
fn exits_in_the_open_come_west_east_north_south() {
    let map = MapSpec::new();
    let at = map_idx(10, 10);
    assert_eq!(
        map.get_available_exits(at),
        vec![map_idx(9, 10), map_idx(11, 10), map_idx(10, 9), map_idx(10, 11)]
    );
}

#[test]
fn exits_in_the_corners_stay_on_the_map() {
    let map = MapSpec::new();
    assert_eq!(map.get_available_exits(map_idx(0, 0)), vec![map_idx(1, 0), map_idx(0, 1)]);
    assert_eq!(
        map.get_available_exits(map_idx(79, 49)),
        vec![map_idx(78, 49), map_idx(79, 48)]
    );
    assert_eq!(
        map.get_available_exits(map_idx(79, 0)),
        vec![map_idx(78, 0), map_idx(79, 1)]
    );
}

#[test]
fn exits_skip_walls_and_exit_tiles() {
    let mut map = MapSpec::new();
    map.tiles[map_idx(9, 10)] = TileType::Wall;
    map.tiles[map_idx(10, 11)] = TileType::Exit;
    assert_eq!(
        map.get_available_exits(map_idx(10, 10)),
        vec![map_idx(11, 10), map_idx(10, 9)]
    );
    assert!(walled_map().get_available_exits(map_idx(10, 10)).is_empty());
}

#[test]
fn floor_count_counts_floor_only() {
    assert_eq!(MapSpec::new().floor_count(), 4000);
    let mut map = walled_map();
    assert_eq!(map.floor_count(), 0);
    map.tiles[7] = TileType::Floor;
    map.tiles[8] = TileType::Exit;
    map.tiles[3999] = TileType::Floor;
    assert_eq!(map.floor_count(), 2);
}

#[test]
fn distance_squared_between_tiles() {
    let map = MapSpec::new();
    assert_eq!(map.distance_squared(map_idx(0, 0), map_idx(3, 4)), 25);
    assert_eq!(map.distance_squared(map_idx(3, 4), map_idx(0, 0)), 25);
    assert_eq!(map.distance_squared(map_idx(7, 7), map_idx(7, 7)), 0);
    assert_eq!(map.distance_squared(map_idx(0, 0), map_idx(79, 49)), 79 * 79 + 49 * 49);
}
