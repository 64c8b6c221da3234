use dungeoncrawl::components::{Carried, Enemy, Entity, FieldOfView, Health, Item, Name, Player, Render};
use dungeoncrawl::map::{map_idx, MapSpec, TileType, NUM_TILES};
use dungeoncrawl::systems::hud::{inventory_hud, InventoryLine};
use dungeoncrawl::systems::map_render::{
    ground_sprite, make_tilemap, map_render, move_sprite, sprite_on, Paint, Tile, Tint,
};
use dungeoncrawl::systems::tooltips::tooltips;
use dungeoncrawl::utils::Point;
use dungeoncrawl::world::{Components, World};

fn named(name: &str, at: Option<Point>) -> Components {
    let mut c = Components::bare();
    c.name = Some(Name(name.to_string()));
    c.position = at;
    c.render = Some(Render { sprite_index: name.len(), sprite_order: 1 });
    c
}

fn watcher_at(x: i32, y: i32) -> Components {
    let mut c = Components::bare();
    c.player = Some(Player { map_level: 0 });
    c.position = Some(Point::new(x, y));
    c.health = Some(Health { current: 8, max: 10 });
    c
}

#[test]
fn ground_sprites_are_dot_hash_and_stairs() {
    assert_eq!(ground_sprite(TileType::Floor), 46);
    assert_eq!(ground_sprite(TileType::Wall), 35);
    assert_eq!(ground_sprite(TileType::Exit), 62);
}

#[test]
fn tilemap_has_a_tile_for_every_map_tile() {
    let mut map = MapSpec::new();
    map.tiles[map_idx(0, 0)] = TileType::Wall;
    map.tiles[map_idx(41, 26)] = TileType::Exit;
    let tiles = make_tilemap(&map);
    assert_eq!(tiles.len(), NUM_TILES);
    assert_eq!(
        tiles[0],
        Tile { point: Point::new(-40, -25), sprite_index: 35, sprite_order: 0, tint: Tint::White }
    );
    assert_eq!(
        tiles[map_idx(40, 25)],
        Tile { point: Point::new(0, 0), sprite_index: 46, sprite_order: 0, tint: Tint::White }
    );
    assert_eq!(tiles[map_idx(41, 26)].point, Point::new(1, 1));
    assert_eq!(tiles[map_idx(41, 26)].sprite_index, 62);
    assert_eq!(tiles[3999].point, Point::new(39, 24));
}

#[test]
fn move_sprite_clears_the_old_and_draws_the_new() {
    let render = Render { sprite_index: 64, sprite_order: 3 };
    let step = move_sprite(Point::new(40, 25), Point::new(41, 25), &render);
    assert_eq!(step.clear_point, Point::new(0, 0));
    assert_eq!(step.clear_order, 3);
    assert_eq!(
        step.tile,
        Tile { point: Point::new(1, 0), sprite_index: 64, sprite_order: 3, tint: Tint::White }
    );
}

#[test]
fn first_enemy_or_item_on_a_tile_gives_the_glyph() {
    let mut world = World::new();
    let mut item = named("map", Some(Point::new(3, 3)));
    item.item = Some(Item);
    world.spawn(item);
    let mut orc = named("orc!!", Some(Point::new(3, 3)));
    orc.enemy = Some(Enemy);
    let first = world.spawn(orc.clone());
    orc.render = Some(Render { sprite_index: 99, sprite_order: 1 });
    world.spawn(orc);
    assert_eq!(sprite_on(&world, Point::new(3, 3), 1), 5);
    assert_eq!(sprite_on(&world, Point::new(3, 3), 2), 3);
    assert_eq!(sprite_on(&world, Point::new(3, 3), 0), 0);
    assert_eq!(sprite_on(&world, Point::new(3, 4), 1), 0);
    world.despawn(first);
    assert_eq!(sprite_on(&world, Point::new(3, 3), 1), 99);
}

#[test]
fn map_render_lights_what_is_in_view() {
    let mut map = MapSpec::new();
    map.revealed_tiles[map_idx(12, 10)] = true;
    let mut world = World::new();
    world.spawn(watcher_at(10, 10));
    let mut orc = named("orc", Some(Point::new(11, 10)));
    orc.enemy = Some(Enemy);
    world.spawn(orc.clone());
    orc.position = Some(Point::new(12, 10));
    world.spawn(orc);
    let mut potion = named("potion", Some(Point::new(10, 10)));
    potion.item = Some(Item);
    world.spawn(potion.clone());
    potion.position = Some(Point::new(11, 10));
    world.spawn(potion);
    let fov = FieldOfView {
        visible_tiles: vec![Point::new(10, 10), Point::new(11, 10)],
        radius: 6,
        is_dirty: false,
    };
    let paints = map_render(&map, &world, Point::new(10, 10), &fov, 10, 13, 10, 10);
    assert_eq!(
        paints,
        vec![
            Paint { point: Point::new(-30, -15), tint: Tint::White, monster: 0, item: None },
            Paint { point: Point::new(-29, -15), tint: Tint::White, monster: 3, item: Some(6) },
            Paint { point: Point::new(-28, -15), tint: Tint::DarkGray, monster: 0, item: Some(0) },
            Paint { point: Point::new(-27, -15), tint: Tint::Black, monster: 0, item: Some(0) },
        ]
    );
}

#[test]
fn map_render_keeps_to_the_map() {
    let map = MapSpec::new();
    let world = World::new();
    let fov = FieldOfView::new(6);
    let paints = map_render(&map, &world, Point::new(0, 48), &fov, -5, 1, 48, 60);
    let points: Vec<Point> = paints.iter().map(|p| p.point).collect();
    assert_eq!(
        points,
        vec![Point::new(-40, 23), Point::new(-39, 23), Point::new(-40, 24), Point::new(-39, 24)]
    );
    assert!(paints.iter().all(|p| p.tint == Tint::Black));
    assert_eq!(paints[0].item, None);
    assert_eq!(paints[1].item, Some(0));
    assert!(map_render(&map, &world, Point::new(0, 0), &fov, 80, 90, 0, 10).is_empty());
    assert!(map_render(&map, &world, Point::new(0, 0), &fov, 5, 4, 0, 10).is_empty());
    assert_eq!(map_render(&map, &world, Point::new(0, 0), &fov, i32::MIN, i32::MAX, i32::MIN, i32::MAX).len(), 4000);
}

#[test]
fn inventory_numbers_the_carried_items() {
    let mut world = World::new();
    let mut carried = named("potion", None);
    carried.item = Some(Item);
    carried.carried = Some(Carried(Entity(1)));
    let stray = world.spawn(carried.clone());
    let player = world.spawn(watcher_at(1, 1));
    assert_eq!(inventory_hud(&world), vec![InventoryLine { key: 1, item: stray }]);
    let a = world.spawn(carried.clone());
    let mut lying = named("map", Some(Point::new(1, 1)));
    lying.item = Some(Item);
    world.spawn(lying);
    let b = world.spawn(carried.clone());
    let c = world.spawn(carried);
    world.despawn(b);
    assert_eq!(player, Entity(1));
    assert_eq!(
        inventory_hud(&world),
        vec![
            InventoryLine { key: 1, item: stray },
            InventoryLine { key: 2, item: a },
            InventoryLine { key: 3, item: c },
        ]
    );
}

#[test]
fn tooltips_label_what_stands_somewhere() {
    let mut world = World::new();
    world.spawn(watcher_at(1, 1));
    let mut orc = named("Orc", Some(Point::new(5, 5)));
    orc.health = Some(Health { current: 2, max: 3 });
    let orc = world.spawn(orc);
    let potion = world.spawn(named("Potion", Some(Point::new(6, 5))));
    world.spawn(named("Carried", None));
    let gone = world.spawn(named("Gone", Some(Point::new(5, 5))));
    world.despawn(gone);
    let tips = tooltips(&world, Point::new(5, 5));
    assert_eq!(tips.len(), 2);
    assert_eq!((tips[0].entity, tips[0].shown, tips[0].name.as_str(), tips[0].health), (orc, true, "Orc", Some(2)));
    assert_eq!(
        (tips[1].entity, tips[1].shown, tips[1].name.as_str(), tips[1].health),
        (potion, false, "Potion", None)
    );
    let none = tooltips(&world, Point::new(0, 0));
    assert!(none.iter().all(|t| !t.shown));
    assert_eq!(none.len(), 2);
}
