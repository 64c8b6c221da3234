use dungeoncrawl::flood_fill::{DistanceField, UNREACHABLE};
use dungeoncrawl::map::{map_idx, MapSpec, TileType, NUM_TILES};

fn all_walls() -> MapSpec {
    let mut map = MapSpec::new();
    for t in map.tiles.iter_mut() {
        *t = TileType::Wall;
    }
    map
}

#[test]
fn fill_of_open_map_counts_steps_along_rows_and_columns() {
    let map = MapSpec::new();
    let field = DistanceField::new(&vec![map_idx(40, 25)], &map, 1024);
    assert_eq!(field.steps.len(), NUM_TILES);
    assert_eq!(field.steps[map_idx(40, 25)], 0);
    assert_eq!(field.steps[map_idx(41, 25)], 1);
    assert_eq!(field.steps[map_idx(40, 24)], 1);
    assert_eq!(field.steps[map_idx(42, 27)], 4);
    assert_eq!(field.steps[map_idx(0, 0)], 65);
    assert_eq!(field.steps[map_idx(79, 49)], 63);
    for y in 0..50i32 {
        for x in 0..80i32 {
            assert_eq!(field.steps[map_idx(x, y)], ((x - 40).abs() + (y - 25).abs()) as u32);
        }
    }
}

#[test]
fn fill_goes_around_walls() {
    let mut map = all_walls();
    for x in 1..=5 {
        map.tiles[map_idx(x, 1)] = TileType::Floor;
        map.tiles[map_idx(x, 3)] = TileType::Floor;
    }
    map.tiles[map_idx(5, 2)] = TileType::Floor;
    let field = DistanceField::new(&vec![map_idx(1, 1)], &map, 1024);
    assert_eq!(field.steps[map_idx(5, 1)], 4);
    assert_eq!(field.steps[map_idx(5, 2)], 5);
    assert_eq!(field.steps[map_idx(5, 3)], 6);
    assert_eq!(field.steps[map_idx(1, 3)], 10);
    assert_eq!(field.steps[map_idx(1, 2)], UNREACHABLE);
}

#[test]
fn fill_leaves_pockets_unreachable() {
    let mut map = all_walls();
    map.tiles[map_idx(1, 1)] = TileType::Floor;
    map.tiles[map_idx(2, 1)] = TileType::Floor;
    map.tiles[map_idx(10, 10)] = TileType::Floor;
    let field = DistanceField::new(&vec![map_idx(1, 1)], &map, 1024);
    assert_eq!(field.steps[map_idx(2, 1)], 1);
    assert_eq!(field.steps[map_idx(10, 10)], UNREACHABLE);
    assert_eq!(field.steps[map_idx(3, 1)], UNREACHABLE);
}

#[test]
fn fill_counts_a_source_on_a_wall_as_reached() {
    let map = all_walls();
    let field = DistanceField::new(&vec![map_idx(4, 4)], &map, 1024);
    assert_eq!(field.steps[map_idx(4, 4)], 0);
    assert_eq!(field.steps.iter().filter(|d| **d != UNREACHABLE).count(), 1);
}

#[test]
fn fill_stops_at_its_depth() {
    let map = MapSpec::new();
    let field = DistanceField::new(&vec![map_idx(40, 25)], &map, 3);
    assert_eq!(field.steps[map_idx(42, 25)], 2);
    assert_eq!(field.steps[map_idx(41, 26)], 2);
    assert_eq!(field.steps[map_idx(43, 25)], UNREACHABLE);
    assert_eq!(field.steps[map_idx(42, 26)], UNREACHABLE);
}

#[test]
fn fill_of_depth_zero_or_one_reaches_the_sources_only() {
    let map = MapSpec::new();
    for depth in 0..2 {
        let field = DistanceField::new(&vec![map_idx(40, 25)], &map, depth);
        assert_eq!(field.steps[map_idx(40, 25)], 0);
        assert_eq!(field.steps[map_idx(41, 25)], UNREACHABLE);
    }
}

#[test]
fn fill_from_several_sources_takes_the_nearest() {
    let map = MapSpec::new();
    let field = DistanceField::new(&vec![map_idx(0, 0), map_idx(10, 0), map_idx(0, 0)], &map, 1024);
    assert_eq!(field.steps[map_idx(0, 0)], 0);
    assert_eq!(field.steps[map_idx(10, 0)], 0);
    assert_eq!(field.steps[map_idx(4, 0)], 4);
    assert_eq!(field.steps[map_idx(6, 0)], 4);
    assert_eq!(field.steps[map_idx(5, 0)], 5);
}

#[test]
fn fill_without_sources_reaches_nothing() {
    let map = MapSpec::new();
    let field = DistanceField::new(&Vec::new(), &map, 1024);
    assert!(field.steps.iter().all(|d| *d == UNREACHABLE));
    assert_eq!(field.farthest(), None);
}

#[test]
fn farthest_is_the_last_of_the_most_distant() {
    let map = MapSpec::new();
    let center = DistanceField::new(&vec![map_idx(40, 25)], &map, 1024);
    assert_eq!(center.farthest(), Some(map_idx(0, 0)));
    let corner = DistanceField::new(&vec![map_idx(0, 0)], &map, 1024);
    assert_eq!(corner.farthest(), Some(map_idx(79, 49)));
    let tie = DistanceField { steps: vec![UNREACHABLE, 5, 7, 7, 2, UNREACHABLE] };
    assert_eq!(tie.farthest(), Some(3));
}

#[test]
fn lowest_exit_leads_toward_the_source() {
    let map = MapSpec::new();
    let field = DistanceField::new(&vec![map_idx(40, 25)], &map, 1024);
    assert_eq!(field.find_lowest_exit(map_idx(45, 25), &map), Some(map_idx(44, 25)));
    assert_eq!(field.find_lowest_exit(map_idx(40, 20), &map), Some(map_idx(40, 21)));
    assert_eq!(field.find_lowest_exit(map_idx(41, 25), &map), Some(map_idx(40, 25)));
}

#[test]
fn lowest_exit_breaks_ties_west_east_north_south() {
    let map = MapSpec::new();
    let field = DistanceField::new(&vec![map_idx(40, 25)], &map, 1024);
    assert_eq!(field.find_lowest_exit(map_idx(42, 27), &map), Some(map_idx(41, 27)));
    assert_eq!(field.find_lowest_exit(map_idx(38, 27), &map), Some(map_idx(39, 27)));
    assert_eq!(field.find_lowest_exit(map_idx(40, 25), &map), Some(map_idx(39, 25)));
}

#[test]
fn lowest_exit_of_a_walled_in_tile_is_none() {
    let mut map = all_walls();
    map.tiles[map_idx(4, 4)] = TileType::Floor;
    let field = DistanceField::new(&vec![map_idx(4, 4)], &map, 1024);
    assert_eq!(field.find_lowest_exit(map_idx(4, 4), &map), None);
}
