//! A hand-drawn fortress, stamped onto a finished level where it fits.

use vstd::prelude::*;
use vstd::string::StrSliceExecFns;
use rand::rngs::StdRng;
use crate::flood_fill::{distances, DistanceField};
use crate::map::{index_of, on_grid, point_at, TileType, NUM_TILES, TILEMAP_HEIGHT, TILEMAP_WIDTH};
use crate::map_builder::{MapBuilder, FILL_DEPTH};
use crate::random::gen_range_i32;
use crate::utils::{row_major, Point, Rect};

verus! {

pub const FORTRESS_WIDTH: i32 = 12;

pub const FORTRESS_HEIGHT: i32 = 11;

/// How many windows are drawn before the level goes without a fortress.
pub const PLACEMENT_ATTEMPTS: usize = 10;

/// Every tile under the fortress lies more steps than this from the player.
pub const NEAREST: u32 = 20;

/// Every tile under the fortress lies fewer steps than this from the player.
pub const FARTHEST: u32 = 2000;

/// The fortress, row after row: `#` wall, `-` floor, `M` floor with a
/// monster on it.
pub open spec fn fortress_layout() -> Seq<char> {
    "------------\
     ---######---\
     ---#----#---\
     ---#-M--#---\
     -###----###-\
     --M------M--\
     -###----###-\
     ---#----#---\
     ---#----#---\
     ---######---\
     ------------"@
}

/// The glyph in column `col` of row `row` of the fortress.
pub open spec fn glyph_at(col: int, row: int) -> char {
    fortress_layout()[row * FORTRESS_WIDTH + col]
}

/// The space that the fortress takes when its near corner lies on `origin`.
pub open spec fn footprint(origin: Point) -> Rect {
    Rect {
        x1: origin.x,
        y1: origin.y,
        x2: (origin.x + FORTRESS_WIDTH) as i32,
        y2: (origin.y + FORTRESS_HEIGHT) as i32,
    }
}

/// Whether `origin` is a near corner as the placement draws them: a
/// fortress that stands on it stays on the map, off its last row and
/// column.
pub open spec fn fits(origin: Point) -> bool {
    &&& 0 <= origin.x < TILEMAP_WIDTH - FORTRESS_WIDTH
    &&& 0 <= origin.y < TILEMAP_HEIGHT - FORTRESS_HEIGHT
}

/// Whether the fortress may stand on `origin`: every tile that it covers
/// lies more than `NEAREST` and fewer than `FARTHEST` steps from the
/// player's start, and none holds the amulet.
pub open spec fn placeable(steps: Seq<u32>, amulet: Point, origin: Point) -> bool {
    forall|p: Point| #[trigger]
        footprint(origin).contains(p) ==> {
            &&& NEAREST < steps[index_of(p)] < FARTHEST
            &&& p != amulet
        }
}

/// What the fortress makes of a tile that was `old` and lies under `glyph`.
pub open spec fn stamped_tile(old: TileType, glyph: char) -> TileType {
    if glyph == 'M' || glyph == '-' {
        TileType::Floor
    } else if glyph == '#' {
        TileType::Wall
    } else {
        old
    }
}

/// The tiles once the fortress stands on `origin`.
pub open spec fn stamped(tiles: Seq<TileType>, origin: Point) -> Seq<TileType> {
    Seq::new(
        tiles.len(),
        |idx: int|
            {
                let p = point_at(idx);
                if footprint(origin).contains(p) {
                    stamped_tile(tiles[idx], glyph_at(p.x - origin.x, p.y - origin.y))
                } else {
                    tiles[idx]
                }
            },
    )
}

/// Where the monsters of a fortress on `origin` stand, row by row.
pub open spec fn garrison(origin: Point) -> Seq<Point> {
    row_major(origin.x as int, origin.y as int, FORTRESS_WIDTH as nat, FORTRESS_HEIGHT as nat).filter(
        |p: Point| glyph_at(p.x - origin.x, p.y - origin.y) == 'M',
    )
}

/// The monsters of the level once the fortress stands on `origin`: those
/// planned outside it, then its garrison.
pub open spec fn stamped_spawns(spawns: Seq<Point>, origin: Point) -> Seq<Point> {
    spawns.filter(|p: Point| !footprint(origin).contains(p)) + garrison(origin)
}

/// The fortress as text.
pub fn fortress() -> (layout: &'static str)
    ensures
        layout@ == fortress_layout(),
        layout@.len() == FORTRESS_WIDTH * FORTRESS_HEIGHT,
{
    let layout = "------------\
                  ---######---\
                  ---#----#---\
                  ---#-M--#---\
                  -###----###-\
                  --M------M--\
                  -###----###-\
                  ---#----#---\
                  ---#----#---\
                  ---######---\
                  ------------";
    proof {
        reveal_strlit(
            "------------\
             ---######---\
             ---#----#---\
             ---#-M--#---\
             -###----###-\
             --M------M--\
             -###----###-\
             ---#----#---\
             ---#----#---\
             ---######---\
             ------------",
        );
    }
    layout
}

/// Whether the fortress may stand on `origin`.
pub fn can_place(field: &DistanceField, amulet: Point, origin: Point) -> (ok: bool)
    requires
        field.wf(),
        fits(origin),
    ensures
        ok == placeable(field.steps@, amulet, origin),
{
    let window = Rect::with_size(origin.x, origin.y, FORTRESS_WIDTH, FORTRESS_HEIGHT);
    let mut y: i32 = window.y1;
    while y < window.y2
        invariant
            fits(origin),
            field.wf(),
            window == footprint(origin),
            window.y1 <= y <= window.y2,
            forall|p: Point|
                #[trigger] window.contains(p) && p.y < y ==> {
                    &&& NEAREST < field.steps@[index_of(p)] < FARTHEST
                    &&& p != amulet
                },
        decreases window.y2 - y,
    {
        let mut x: i32 = window.x1;
        while x < window.x2
            invariant
                fits(origin),
                field.wf(),
                window == footprint(origin),
                window.y1 <= y < window.y2,
                window.x1 <= x <= window.x2,
                forall|p: Point|
                    #[trigger] window.contains(p) && (p.y < y || (p.y == y && p.x < x)) ==> {
                        &&& NEAREST < field.steps@[index_of(p)] < FARTHEST
                        &&& p != amulet
                    },
            decreases window.x2 - x,
        {
            let distance = field.steps[crate::map::map_idx(x, y)];
            if !(distance < FARTHEST && distance > NEAREST && !(amulet.x == x && amulet.y == y)) {
                assert(window.contains(Point { x, y }));
                return false;
            }
            x = x + 1;
        }
        y = y + 1;
    }
    true
}

/// Stamps the fortress onto the level with its near corner on `origin`, and
/// replaces the monsters planned under it by its garrison.
pub fn stamp(mb: &mut MapBuilder, origin: Point)
    requires
        old(mb).wf(),
        fits(origin),
    ensures
        final(mb).wf(),
        final(mb).map_spec.tiles@ == stamped(old(mb).map_spec.tiles@, origin),
        final(mb).monster_spawns@ == stamped_spawns(old(mb).monster_spawns@, origin),
        final(mb).map_spec.revealed_tiles == old(mb).map_spec.revealed_tiles,
        final(mb).rooms == old(mb).rooms,
        final(mb).player_start == old(mb).player_start,
        final(mb).amulet_start == old(mb).amulet_start,
{
    let window = Rect::with_size(origin.x, origin.y, FORTRESS_WIDTH, FORTRESS_HEIGHT);
    let ghost outside = |p: Point| !footprint(origin).contains(p);
    let ghost marked = |p: Point| glyph_at(p.x - origin.x, p.y - origin.y) == 'M';
    let ghost cells = row_major(origin.x as int, origin.y as int, FORTRESS_WIDTH as nat, FORTRESS_HEIGHT as nat);
    let mut kept: Vec<Point> = Vec::new();
    let mut k: usize = 0;
    while k < mb.monster_spawns.len()
        invariant
            k <= mb.monster_spawns@.len(),
            mb == old(mb),
            window == footprint(origin),
            outside == |p: Point| !footprint(origin).contains(p),
            kept@ == mb.monster_spawns@.take(k as int).filter(outside),
        decreases mb.monster_spawns@.len() - k,
    {
        let p = mb.monster_spawns[k];
        proof {
            reveal(Seq::filter);
            assert(mb.monster_spawns@.take(k + 1).drop_last() == mb.monster_spawns@.take(k as int));
        }
        if !window.point_in_rect(p) {
            kept.push(p);
        }
        k = k + 1;
    }
    assert(mb.monster_spawns@.take(k as int) == mb.monster_spawns@);
    let ghost kept_spawns = kept@;
    let layout = fortress();
    let mut i: usize = 0;
    let mut ty: i32 = origin.y;
    while ty < origin.y + FORTRESS_HEIGHT
        invariant
            fits(origin),
            mb.wf(),
            old(mb).wf(),
            origin.y <= ty <= origin.y + FORTRESS_HEIGHT,
            i == (ty - origin.y) * FORTRESS_WIDTH,
            layout@ == fortress_layout(),
            layout@.len() == FORTRESS_WIDTH * FORTRESS_HEIGHT,
            marked == |p: Point| glyph_at(p.x - origin.x, p.y - origin.y) == 'M',
            cells == row_major(origin.x as int, origin.y as int, FORTRESS_WIDTH as nat, FORTRESS_HEIGHT as nat),
            kept@ == kept_spawns + cells.take(i as int).filter(marked),
            forall|idx: int|
                0 <= idx < NUM_TILES ==> #[trigger] mb.map_spec.tiles@[idx] == if point_at(idx).y < ty {
                    stamped(old(mb).map_spec.tiles@, origin)[idx]
                } else {
                    old(mb).map_spec.tiles@[idx]
                },
            mb.map_spec.revealed_tiles == old(mb).map_spec.revealed_tiles,
            mb.rooms == old(mb).rooms,
            mb.player_start == old(mb).player_start,
            mb.amulet_start == old(mb).amulet_start,
        decreases origin.y + FORTRESS_HEIGHT - ty,
    {
        let mut tx: i32 = origin.x;
        while tx < origin.x + FORTRESS_WIDTH
            invariant
                fits(origin),
                mb.wf(),
                old(mb).wf(),
                origin.y <= ty < origin.y + FORTRESS_HEIGHT,
                origin.x <= tx <= origin.x + FORTRESS_WIDTH,
                i == (ty - origin.y) * FORTRESS_WIDTH + (tx - origin.x),
                layout@ == fortress_layout(),
                layout@.len() == FORTRESS_WIDTH * FORTRESS_HEIGHT,
                marked == |p: Point| glyph_at(p.x - origin.x, p.y - origin.y) == 'M',
                cells == row_major(
                    origin.x as int,
                    origin.y as int,
                    FORTRESS_WIDTH as nat,
                    FORTRESS_HEIGHT as nat,
                ),
                kept@ == kept_spawns + cells.take(i as int).filter(marked),
                forall|idx: int|
                    0 <= idx < NUM_TILES ==> #[trigger] mb.map_spec.tiles@[idx] == if point_at(idx).y < ty || (
                    point_at(idx).y == ty && point_at(idx).x < tx) {
                        stamped(old(mb).map_spec.tiles@, origin)[idx]
                    } else {
                        old(mb).map_spec.tiles@[idx]
                    },
                mb.map_spec.revealed_tiles == old(mb).map_spec.revealed_tiles,
                mb.rooms == old(mb).rooms,
                mb.player_start == old(mb).player_start,
                mb.amulet_start == old(mb).amulet_start,
            decreases origin.x + FORTRESS_WIDTH - tx,
        {
            let idx = crate::map::map_idx(tx, ty);
            let c = layout.get_char(i);
            proof {
                reveal(Seq::filter);
                assert(cells.take(i + 1).drop_last() == cells.take(i as int));
                assert(cells.take(i + 1).last() == cells[i as int]);
                assert(cells[i as int] == (Point { x: tx, y: ty }));
                assert(glyph_at(tx - origin.x, ty - origin.y) == c);
            }
            if c == 'M' {
                mb.map_spec.tiles[idx] = TileType::Floor;
                kept.push(Point::new(tx, ty));
            } else if c == '-' {
                mb.map_spec.tiles[idx] = TileType::Floor;
            } else if c == '#' {
                mb.map_spec.tiles[idx] = TileType::Wall;
            }
            i = i + 1;
            tx = tx + 1;
        }
        ty = ty + 1;
    }
    proof {
        assert(cells.take(i as int) == cells);
        assert(mb.map_spec.tiles@ =~= stamped(old(mb).map_spec.tiles@, origin));
    }
    mb.monster_spawns = kept;
}

/// Whether `draws` can be the windows that one placement draws, one after
/// the other: no more than `PLACEMENT_ATTEMPTS`, each within the map, and
/// none but the last fit for the fortress, since the drawing stops at the
/// first that is.
pub open spec fn drawn_windows(steps: Seq<u32>, amulet: Point, draws: Seq<Point>) -> bool {
    &&& draws.len() <= PLACEMENT_ATTEMPTS
    &&& forall|i: int| 0 <= i < draws.len() ==> fits(#[trigger] draws[i])
    &&& forall|i: int| 0 <= i < draws.len() - 1 ==> !placeable(steps, amulet, #[trigger] draws[i])
}

/// Where the fortress stands once `draws` are drawn: on the last window
/// where that one is fit for it, else nowhere.
pub open spec fn placement(steps: Seq<u32>, amulet: Point, draws: Seq<Point>) -> Option<Point> {
    if draws.len() > 0 && placeable(steps, amulet, draws.last()) {
        Some(draws.last())
    } else {
        None
    }
}

/// Whether `after` is what `before` becomes when the windows `draws` are
/// drawn: the fortress is stamped onto the one on which it may stand, or,
/// where all `PLACEMENT_ATTEMPTS` windows were drawn in vain, the level is
/// as it was.
pub open spec fn prefab_applied(before: MapBuilder, after: MapBuilder, draws: Seq<Point>) -> bool {
    let steps = distances(before.map_spec, seq![index_of(before.player_start) as usize], FILL_DEPTH);
    &&& drawn_windows(steps, before.amulet_start, draws)
    &&& match placement(steps, before.amulet_start, draws) {
        Some(origin) => {
            &&& after.map_spec.tiles@ == stamped(before.map_spec.tiles@, origin)
            &&& after.monster_spawns@ == stamped_spawns(before.monster_spawns@, origin)
        },
        None => {
            &&& draws.len() == PLACEMENT_ATTEMPTS
            &&& after.map_spec.tiles@ == before.map_spec.tiles@
            &&& after.monster_spawns@ == before.monster_spawns@
        },
    }
}

/// Draws up to `PLACEMENT_ATTEMPTS` windows and stamps the fortress onto
/// the first on which it may stand; a level on which none is found stays as
/// it is. So a level that has no window for the fortress stays as it is
/// whatever is drawn.
pub fn apply_prefab(mb: &mut MapBuilder, rng: &mut StdRng)
    requires
        old(mb).wf(),
        on_grid(old(mb).player_start),
    ensures
        final(mb).wf(),
        final(mb).map_spec.revealed_tiles == old(mb).map_spec.revealed_tiles,
        final(mb).rooms == old(mb).rooms,
        final(mb).player_start == old(mb).player_start,
        final(mb).amulet_start == old(mb).amulet_start,
        exists|draws: Seq<Point>| #[trigger] prefab_applied(*old(mb), *final(mb), draws),
        (forall|origin: Point|
            fits(origin) ==> !#[trigger] placeable(
                distances(old(mb).map_spec, seq![index_of(old(mb).player_start) as usize], FILL_DEPTH),
                old(mb).amulet_start,
                origin,
            )) ==> {
            &&& final(mb).map_spec.tiles@ == old(mb).map_spec.tiles@
            &&& final(mb).monster_spawns@ == old(mb).monster_spawns@
        },
{
    let mut sources: Vec<usize> = Vec::new();
    sources.push(mb.map_spec.point2d_to_index(mb.player_start));
    assert(sources@ == seq![index_of(mb.player_start) as usize]);
    let field = DistanceField::new(&sources, &mb.map_spec, FILL_DEPTH);
    let ghost steps = field.steps@;
    let ghost amulet = mb.amulet_start;
    let ghost mut draws: Seq<Point> = Seq::empty();
    let mut attempts: usize = 0;
    while attempts < PLACEMENT_ATTEMPTS
        invariant
            mb == old(mb),
            mb.wf(),
            field.wf(),
            attempts <= PLACEMENT_ATTEMPTS,
            steps == field.steps@,
            amulet == mb.amulet_start,
            steps == distances(old(mb).map_spec, seq![index_of(old(mb).player_start) as usize], FILL_DEPTH),
            draws.len() == attempts,
            forall|i: int| 0 <= i < draws.len() ==> fits(#[trigger] draws[i]),
            forall|i: int| 0 <= i < draws.len() ==> !placeable(steps, amulet, #[trigger] draws[i]),
        decreases PLACEMENT_ATTEMPTS - attempts,
    {
        let origin = Point::new(
            gen_range_i32(rng, 0, TILEMAP_WIDTH - FORTRESS_WIDTH),
            gen_range_i32(rng, 0, TILEMAP_HEIGHT - FORTRESS_HEIGHT),
        );
        proof {
            draws = draws.push(origin);
        }
        if can_place(&field, mb.amulet_start, origin) {
            stamp(mb, origin);
            proof {
                assert(draws.last() == origin);
                assert(drawn_windows(steps, amulet, draws));
                assert(placement(steps, amulet, draws) == Some(origin));
                assert(prefab_applied(*old(mb), *mb, draws));
            }
            return ;
        }
        attempts = attempts + 1;
    }
    proof {
        assert(drawn_windows(steps, amulet, draws));
        assert(draws.len() > 0 ==> !placeable(steps, amulet, draws[draws.len() - 1]));
        assert(prefab_applied(*old(mb), *mb, draws));
    }
}

} // verus!
