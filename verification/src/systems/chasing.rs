//! Monsters that chase: each that sees the player takes the step that
//! brings it nearest.

use vstd::prelude::*;
use crate::components::{Entity, WantsToAttack, WantsToMove};
use crate::flood_fill::{distances, lowest_exit, DistanceField};
use crate::map::{index_of, on_grid, point_at, MapSpec, NUM_TILES};
use crate::map_builder::FILL_DEPTH;
use crate::systems::intent::{attacks_of, decide, enqueue, intent_of, moves_of, Intent};
use crate::utils::Point;
use crate::world::{has_sole_player, on_map, the_player, Records, World};

verus! {

/// Whether the entity chases and sees `target`: it lives, stands somewhere,
/// chases the player and has `target` in view.
pub open spec fn pursues(r: Records, target: Point) -> bool {
    &&& r.alive
    &&& r.chasing_player.is_some()
    &&& r.position.is_some()
    &&& r.fov.is_some()
    &&& r.fov.unwrap().visible.contains(target)
}

/// Whether the chasers can be moved: the player can be found and stands on
/// the map, as does every other entity.
pub open spec fn can_chase(s: Seq<Records>) -> bool {
    &&& has_sole_player(s)
    &&& s[the_player(s).0 as int].position.is_some()
    &&& on_map(s)
}

/// What entity `i` asks for: nothing unless it chases and sees the player
/// and has an exit; else to stand on the exit that lies nearest to the
/// player, or, where the player stands next to it, on the player's tile.
pub open spec fn chase(s: Seq<Records>, map: MapSpec, steps: Seq<u32>, i: int) -> Intent {
    let player = the_player(s);
    let target = s[player.0 as int].position.unwrap();
    if pursues(s[i], target) {
        let at = s[i].position.unwrap();
        match lowest_exit(steps, map, index_of(at)) {
            Some(exit) => intent_of(
                s,
                Entity(i as usize),
                if at.dist_sq(target) > 1 {
                    point_at(exit as int)
                } else {
                    target
                },
                player,
            ),
            None => Intent::Stay,
        }
    } else {
        Intent::Stay
    }
}

/// What each entity asks for when the chasers among them go after the
/// player.
pub open spec fn chasing_plan(s: Seq<Records>, map: MapSpec) -> Seq<Intent> {
    let target = s[the_player(s).0 as int].position.unwrap();
    let steps = distances(map, seq![index_of(target) as usize], FILL_DEPTH);
    Seq::new(s.len(), |i: int| chase(s, map, steps, i))
}

/// Whether `a` and `b` lie more than one step apart: not on one tile, nor
/// on tiles that share an edge.
pub fn apart(a: Point, b: Point) -> (r: bool)
    requires
        on_grid(a),
        on_grid(b),
    ensures
        r == (a.dist_sq(b) > 1),
{
    let dx: i32 = a.x - b.x;
    let dy: i32 = a.y - b.y;
    assert(-80 * 80 <= dx * dx <= 80 * 80 && -50 * 50 <= dy * dy <= 50 * 50) by (nonlinear_arith)
        requires
            -80 < dx < 80,
            -50 < dy < 50,
    ;
    dx * dx + dy * dy > 1
}

/// Fills the map with the steps to the player once, and files what each
/// chaser that sees the player asks for: a move toward the player, an
/// attack where the player is in the way, nothing where another is.
pub fn chasing(
    map_spec: &MapSpec,
    world: &World,
    ev_movements: &mut Vec<WantsToMove>,
    ev_attacks: &mut Vec<WantsToAttack>,
)
    requires
        map_spec.wf(),
        can_chase(world@),
    ensures
        final(ev_movements)@ == old(ev_movements)@ + moves_of(chasing_plan(world@, *map_spec), world@.len()),
        final(ev_attacks)@ == old(ev_attacks)@ + attacks_of(chasing_plan(world@, *map_spec), world@.len()),
{
    let player = world.find_player().unwrap();
    let player_pos = world.entities[player.0].position.unwrap();
    assert(world@[player.0 as int].alive);
    let player_idx = map_spec.point2d_to_index(player_pos);
    let mut search_targets: Vec<usize> = Vec::new();
    search_targets.push(player_idx);
    assert(search_targets@ == seq![index_of(player_pos) as usize]);
    let dijkstra_map = DistanceField::new(&search_targets, map_spec, FILL_DEPTH);
    let ghost plan = chasing_plan(world@, *map_spec);
    let mut i: usize = 0;
    assert(ev_movements@ =~= old(ev_movements)@ + moves_of(plan, 0));
    assert(ev_attacks@ =~= old(ev_attacks)@ + attacks_of(plan, 0));
    while i < world.entities.len()
        invariant
            i <= world@.len(),
            map_spec.wf(),
            dijkstra_map.wf(),
            can_chase(world@),
            player == the_player(world@),
            player_pos == world@[player.0 as int].position.unwrap(),
            on_grid(player_pos),
            dijkstra_map.steps@ == distances(*map_spec, seq![index_of(player_pos) as usize], FILL_DEPTH),
            plan == chasing_plan(world@, *map_spec),
            ev_movements@ == old(ev_movements)@ + moves_of(plan, i as nat),
            ev_attacks@ == old(ev_attacks)@ + attacks_of(plan, i as nat),
        decreases world@.len() - i,
    {
        let c = &world.entities[i];
        let ghost mut intent = Intent::Stay;
        if c.alive && c.chasing_player.is_some() && c.position.is_some() && c.fov.is_some() {
            let source_pos = c.position.unwrap();
            if c.fov.as_ref().unwrap().sees(player_pos) {
                assert(world@[i as int].alive);
                assert(pursues(world@[i as int], player_pos));
                let idx = map_spec.point2d_to_index(source_pos);
                match dijkstra_map.find_lowest_exit(idx, map_spec) {
                    Some(exit) => {
                        let destination = if apart(source_pos, player_pos) {
                            map_spec.index_to_point2d(exit)
                        } else {
                            player_pos
                        };
                        let found = decide(world, Entity(i), destination, player);
                        proof {
                            intent = found;
                        }
                        enqueue(found, ev_movements, ev_attacks);
                    },
                    None => {},
                }
            }
        }
        proof {
            assert(intent == plan[i as int]);
            assert(ev_movements@ =~= old(ev_movements)@ + moves_of(plan, (i + 1) as nat));
            assert(ev_attacks@ =~= old(ev_attacks)@ + attacks_of(plan, (i + 1) as nat));
        }
        i = i + 1;
    }
}

} // verus!
