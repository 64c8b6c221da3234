//! What the level looks like: the tiles to draw, each with its glyph and its
//! light.

use vstd::prelude::*;
use crate::components::{Entity, FieldOfView, Render};
use crate::map::{
    index_of, on_grid, point_at, MapSpec, TileType, CAMERA_OFFSET_X, CAMERA_OFFSET_Y, NUM_TILES, TILEMAP_HEIGHT,
    TILEMAP_WIDTH,
};
use crate::utils::{closed_span, cp437_code, lemma_row_major_within, to_cp437, Point, Rect};
use crate::world::{Records, World};

verus! {

/// The light in which a tile is drawn.
#[derive(PartialEq, Eq, Structural, Clone, Copy, Debug)]
pub enum Tint {
    /// In view.
    White,
    /// Out of view, but seen before.
    DarkGray,
    /// Never seen.
    Black,
}

/// One glyph on the screen. Screen points count from the middle of the
/// map, so that the map's middle lies on (0, 0); layer 0 holds the ground, layer 1 monsters, layer 2 items and
/// layer 3 the player.
#[derive(PartialEq, Eq, Structural, Clone, Copy, Debug)]
pub struct Tile {
    pub point: Point,
    pub sprite_index: usize,
    pub sprite_order: usize,
    pub tint: Tint,
}

/// A glyph to take from the screen and a glyph to put there.
#[derive(PartialEq, Eq, Structural, Clone, Copy, Debug)]
pub struct SpriteMove {
    pub clear_point: Point,
    pub clear_order: usize,
    pub tile: Tile,
}

/// How one tile of the map is to be drawn.
#[derive(PartialEq, Eq, Clone, Copy, Debug)]
pub struct Paint {
    /// Where on the screen.
    pub point: Point,
    /// The light on the ground.
    pub tint: Tint,
    /// The glyph of the monster layer: that of the first enemy on the tile
    /// where the tile is in view, none (0) where it is not.
    pub monster: usize,
    /// The glyph of the item layer, likewise; `None` on the player's tile,
    /// whose item layer is left alone.
    pub item: Option<usize>,
}

/// Where on the screen the map point `p` lies.
pub open spec fn screen_point(p: Point) -> Point {
    Point { x: (p.x - CAMERA_OFFSET_X) as i32, y: (p.y - CAMERA_OFFSET_Y) as i32 }
}

/// Whether the screen point of `p` can be computed.
pub open spec fn on_screen(p: Point) -> bool {
    p.x >= i32::MIN + CAMERA_OFFSET_X && p.y >= i32::MIN + CAMERA_OFFSET_Y
}

/// The glyph that stands for a kind of ground.
pub open spec fn ground_glyph(tile: TileType) -> char {
    match tile {
        TileType::Floor => '.',
        TileType::Wall => '#',
        TileType::Exit => '>',
    }
}

/// The ground tile of map tile `idx`.
pub open spec fn ground_tile(tiles: Seq<TileType>, idx: int) -> Tile {
    Tile {
        point: screen_point(point_at(idx)),
        sprite_index: cp437_code(ground_glyph(tiles[idx])) as usize,
        sprite_order: 0,
        tint: Tint::White,
    }
}

/// The light on map point `p`: white in view, dark gray where it was
/// revealed, else black.
pub open spec fn tint_of(map: MapSpec, seen: Seq<Point>, p: Point) -> Tint {
    if seen.contains(p) {
        Tint::White
    } else if map.revealed_tiles@[index_of(p)] {
        Tint::DarkGray
    } else {
        Tint::Black
    }
}

/// Whether `r` is drawn on layer `layer` of `p`: as an enemy on the monster
/// layer, as an item on the item layer.
pub open spec fn shows_on(r: Records, p: Point, layer: usize) -> bool {
    &&& r.stands_on(p)
    &&& r.render.is_some()
    &&& if layer == 1 {
        r.enemy.is_some()
    } else {
        layer == 2 && r.item.is_some()
    }
}

/// The first of the first `n` entities that is drawn on layer `layer` of
/// `p`.
pub open spec fn first_shown(s: Seq<Records>, p: Point, layer: usize, n: nat) -> Option<int>
    decreases n,
{
    if n == 0 {
        None
    } else {
        match first_shown(s, p, layer, (n - 1) as nat) {
            Some(i) => Some(i),
            None => if shows_on(s[n - 1], p, layer) {
                Some(n - 1)
            } else {
                None
            },
        }
    }
}

/// The glyph of the first entity that is drawn on layer `layer` of `p`;
/// none (0) where no entity is.
pub open spec fn glyph_on(s: Seq<Records>, p: Point, layer: usize) -> usize {
    match first_shown(s, p, layer, s.len()) {
        Some(i) => s[i].render.unwrap().sprite_index,
        None => 0,
    }
}

/// The points of the map between columns `x_min` and `x_max` and rows
/// `y_min` and `y_max`, row by row.
pub open spec fn window_points(x_min: i32, x_max: i32, y_min: i32, y_max: i32) -> Seq<Point> {
    (Rect {
        x1: if x_min < 0 { 0 } else { x_min },
        x2: if x_max >= TILEMAP_WIDTH { (TILEMAP_WIDTH - 1) as i32 } else { x_max },
        y1: if y_min < 0 { 0 } else { y_min },
        y2: if y_max >= TILEMAP_HEIGHT { (TILEMAP_HEIGHT - 1) as i32 } else { y_max },
    }).edge_points()
}

/// How map point `p` is to be drawn for a player who stands on `player`
/// and has `seen` in view.
pub open spec fn paint_of(map: MapSpec, s: Seq<Records>, seen: Seq<Point>, player: Point, p: Point) -> Paint {
    let lit = seen.contains(p);
    Paint {
        point: screen_point(p),
        tint: tint_of(map, seen, p),
        monster: if lit {
            glyph_on(s, p, 1)
        } else {
            0
        },
        item: if p == player {
            None
        } else if lit {
            Some(glyph_on(s, p, 2))
        } else {
            Some(0)
        },
    }
}

/// The glyph that stands for a kind of ground.
pub fn ground_sprite(tile: TileType) -> (sprite: usize)
    ensures
        sprite == cp437_code(ground_glyph(tile)),
{
    match tile {
        TileType::Floor => to_cp437('.'),
        TileType::Wall => to_cp437('#'),
        TileType::Exit => to_cp437('>'),
    }
}

/// The ground of the whole map, tile by tile, in full light.
pub fn make_tilemap(map_spec: &MapSpec) -> (tiles: Vec<Tile>)
    requires
        map_spec.wf(),
    ensures
        tiles@.len() == NUM_TILES,
        forall|i: int| 0 <= i < NUM_TILES ==> #[trigger] tiles@[i] == ground_tile(map_spec.tiles@, i),
{
    let mut tiles: Vec<Tile> = Vec::new();
    let mut i: usize = 0;
    while i < NUM_TILES
        invariant
            i <= NUM_TILES,
            map_spec.wf(),
            tiles@.len() == i,
            forall|k: int| 0 <= k < i ==> #[trigger] tiles@[k] == ground_tile(map_spec.tiles@, k),
        decreases NUM_TILES - i,
    {
        let p = map_spec.index_to_point2d(i);
        tiles.push(
            Tile {
                point: Point::new(p.x - CAMERA_OFFSET_X, p.y - CAMERA_OFFSET_Y),
                sprite_index: ground_sprite(map_spec.tiles[i]),
                sprite_order: 0,
                tint: Tint::White,
            },
        );
        i = i + 1;
    }
    tiles
}

/// What to do on the screen when the entity drawn as `render` goes from
/// `prev_pos` to `new_pos`: take its glyph from where it was, put it where
/// it is.
pub fn move_sprite(prev_pos: Point, new_pos: Point, render: &Render) -> (step: SpriteMove)
    requires
        on_screen(prev_pos),
        on_screen(new_pos),
    ensures
        step == (SpriteMove {
            clear_point: screen_point(prev_pos),
            clear_order: render.sprite_order,
            tile: Tile {
                point: screen_point(new_pos),
                sprite_index: render.sprite_index,
                sprite_order: render.sprite_order,
                tint: Tint::White,
            },
        }),
{
    SpriteMove {
        clear_point: Point::new(prev_pos.x - CAMERA_OFFSET_X, prev_pos.y - CAMERA_OFFSET_Y),
        clear_order: render.sprite_order,
        tile: Tile {
            point: Point::new(new_pos.x - CAMERA_OFFSET_X, new_pos.y - CAMERA_OFFSET_Y),
            sprite_index: render.sprite_index,
            sprite_order: render.sprite_order,
            tint: Tint::White,
        },
    }
}

/// The glyph of the first entity that is drawn on layer `layer` of `p`.
pub fn sprite_on(world: &World, p: Point, layer: usize) -> (glyph: usize)
    ensures
        glyph == glyph_on(world@, p, layer),
{
    let mut found: Option<usize> = None;
    let mut i: usize = 0;
    while i < world.entities.len()
        invariant
            i <= world@.len(),
            match found {
                Some(at) => first_shown(world@, p, layer, i as nat) == Some(at as int) && at < i && shows_on(
                    world@[at as int],
                    p,
                    layer,
                ),
                None => first_shown(world@, p, layer, i as nat).is_none(),
            },
        decreases world@.len() - i,
    {
        let c = &world.entities[i];
        let shows = c.alive && c.render.is_some() && match c.position {
            Some(at) => at == p,
            None => false,
        } && if layer == 1 {
            c.enemy.is_some()
        } else {
            layer == 2 && c.item.is_some()
        };
        assert(shows == shows_on(world@[i as int], p, layer));
        if found.is_none() && shows {
            found = Some(i);
        }
        i = i + 1;
    }
    match found {
        Some(at) => world.entities[at].render.unwrap().sprite_index,
        None => 0,
    }
}

/// How the map is to be drawn between columns `x_min` and `x_max` and rows
/// `y_min` and `y_max`, for a player who stands on `player_pos` and sees
/// what `player_fov` holds: one entry for each point of the window that
/// lies on the map, row by row.
pub fn map_render(
    map_spec: &MapSpec,
    world: &World,
    player_pos: Point,
    player_fov: &FieldOfView,
    x_min: i32,
    x_max: i32,
    y_min: i32,
    y_max: i32,
) -> (paints: Vec<Paint>)
    requires
        map_spec.wf(),
    ensures
        paints@ == window_points(x_min, x_max, y_min, y_max).map_values(
            |p: Point| paint_of(*map_spec, world@, player_fov.visible_tiles@, player_pos, p),
        ),
{
    let window = Rect::with_exact(
        if x_min < 0 { 0 } else { x_min },
        if y_min < 0 { 0 } else { y_min },
        if x_max >= TILEMAP_WIDTH { TILEMAP_WIDTH - 1 } else { x_max },
        if y_max >= TILEMAP_HEIGHT { TILEMAP_HEIGHT - 1 } else { y_max },
    );
    let points = window.for_each();
    let ghost painter = |p: Point| paint_of(*map_spec, world@, player_fov.visible_tiles@, player_pos, p);
    let mut paints: Vec<Paint> = Vec::new();
    let mut i: usize = 0;
    while i < points.len()
        invariant
            map_spec.wf(),
            i <= points@.len(),
            0 <= window.x1 && window.x2 < TILEMAP_WIDTH && 0 <= window.y1 && window.y2 < TILEMAP_HEIGHT,
            points@ == window.edge_points(),
            painter == |p: Point| paint_of(*map_spec, world@, player_fov.visible_tiles@, player_pos, p),
            paints@ == points@.take(i as int).map_values(painter),
        decreases points@.len() - i,
    {
        let pt = points[i];
        proof {
            lemma_row_major_within(
                window.x1 as int,
                window.y1 as int,
                closed_span(window.x1 as int, window.x2 as int),
                closed_span(window.y1 as int, window.y2 as int),
                i as int,
            );
        }
        let lit = player_fov.sees(pt);
        let tint = if lit {
            Tint::White
        } else if map_spec.revealed_tiles[map_spec.point2d_to_index(pt)] {
            Tint::DarkGray
        } else {
            Tint::Black
        };
        let monster = if lit { sprite_on(world, pt, 1) } else { 0 };
        let item = if pt == player_pos {
            None
        } else if lit {
            Some(sprite_on(world, pt, 2))
        } else {
            Some(0)
        };
        paints.push(Paint { point: Point::new(pt.x - CAMERA_OFFSET_X, pt.y - CAMERA_OFFSET_Y), tint, monster, item });
        proof {
            assert(paints@ =~= points@.take(i + 1).map_values(painter));
        }
        i = i + 1;
    }
    assert(points@.take(i as int) == points@);
    paints
}

} // verus!
