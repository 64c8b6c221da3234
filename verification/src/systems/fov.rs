//! Has every entity whose view is out of date look around anew.

use vstd::prelude::*;
use crate::components::{FieldOfView, Sight};
use crate::map::MapSpec;
use crate::utils::Point;
use crate::world::{consistent, lemma_same_players, same_players, the_player, Records, World};

verus! {

/// Whether `after` is what `before` becomes when the entity looks around
/// anew by means of `look`: its view holds the tiles that `look` found from
/// where it stands, and is up to date.
pub open spec fn looked<F: Fn(Point, i32, &MapSpec) -> Vec<Point>>(
    before: Records,
    after: Records,
    map_spec: &MapSpec,
    look: F,
) -> bool {
    exists|seen: Vec<Point>|
        {
            &&& #[trigger] call_ensures(look, (before.position.unwrap(), before.fov.unwrap().radius, map_spec), seen)
            &&& after == Records {
                fov: Some(Sight { visible: seen@, radius: before.fov.unwrap().radius, is_dirty: false }),
                ..before
            }
        }
}

/// Whether `after` is `before` with every view brought up to date by means
/// of `look`.
pub open spec fn refreshed<F: Fn(Point, i32, &MapSpec) -> Vec<Point>>(
    before: Seq<Records>,
    after: Seq<Records>,
    map_spec: &MapSpec,
    look: F,
) -> bool {
    &&& after.len() == before.len()
    &&& forall|i: int|
        0 <= i < before.len() ==> if (#[trigger] before[i]).looks_anew() {
            looked(before[i], after[i], map_spec, look)
        } else {
            after[i] == before[i]
        }
}

/// Recomputes the view of every live entity that stands somewhere and whose
/// view is out of date. The tiles in view are those that `look` returns
/// for the entity's position, its radius and the map; no other view is
/// touched.
pub fn fov<F: Fn(Point, i32, &MapSpec) -> Vec<Point>>(map_spec: &MapSpec, world: &mut World, look: F)
    requires
        forall|p: Point, radius: i32| call_requires(look, (p, radius, map_spec)),
    ensures
        refreshed(old(world)@, final(world)@, map_spec, look),
        forall|i: int| 0 <= i < final(world)@.len() ==> !(#[trigger] final(world)@[i]).looks_anew(),
{
    let mut i: usize = 0;
    while i < world.entities.len()
        invariant
            i <= world@.len(),
            world@.len() == old(world)@.len(),
            forall|p: Point, radius: i32| call_requires(look, (p, radius, map_spec)),
            forall|k: int|
                0 <= k < i ==> if (#[trigger] old(world)@[k]).looks_anew() {
                    looked(old(world)@[k], world@[k], map_spec, look)
                } else {
                    world@[k] == old(world)@[k]
                },
            forall|k: int| i <= k < world@.len() ==> world@[k] == old(world)@[k],
        decreases world@.len() - i,
    {
        let ghost before = world@;
        if world.entities[i].alive && world.entities[i].position.is_some() && world.entities[i].fov.is_some() {
            let pos = world.entities[i].position.unwrap();
            let radius = world.entities[i].fov.as_ref().unwrap().radius;
            if world.entities[i].fov.as_ref().unwrap().is_dirty {
                let seen = look(pos, radius, map_spec);
                let ghost found = seen;
                world.entities[i].fov = Some(FieldOfView { visible_tiles: seen, radius, is_dirty: false });
                assert(world@ =~= before.update(
                    i as int,
                    Records { fov: Some(Sight { visible: found@, radius, is_dirty: false }), ..before[i as int] },
                ));
                assert(call_ensures(look, (pos, radius, map_spec), found));
                assert(looked(old(world)@[i as int], world@[i as int], map_spec, look));
            }
        }
        assert(world@.len() == before.len());
        i = i + 1;
    }
    proof {
        assert forall|k: int| 0 <= k < world@.len() implies !(#[trigger] world@[k]).looks_anew() by {
            if old(world)@[k].looks_anew() {
                assert(looked(old(world)@[k], world@[k], map_spec, look));
            }
        }
    }
}

/// Looking around twice is looking around once: a second pass over views
/// that are all up to date changes nothing, whatever `look` would return.
pub proof fn lemma_fov_idempotent<F: Fn(Point, i32, &MapSpec) -> Vec<Point>>(
    first: Seq<Records>,
    second: Seq<Records>,
    third: Seq<Records>,
    map_spec: &MapSpec,
    look: F,
)
    requires
        refreshed(first, second, map_spec, look),
        refreshed(second, third, map_spec, look),
    ensures
        third == second,
        forall|i: int| 0 <= i < second.len() ==> !(#[trigger] second[i]).looks_anew(),
{
    assert forall|i: int| 0 <= i < second.len() implies !(#[trigger] second[i]).looks_anew() by {
        if first[i].looks_anew() {
            assert(looked(first[i], second[i], map_spec, look));
        }
    }
    assert(third =~= second);
}

/// Looking around leaves the world consistent, and the player the player.
pub proof fn lemma_refreshed_consistent<F: Fn(Point, i32, &MapSpec) -> Vec<Point>>(
    before: Seq<Records>,
    after: Seq<Records>,
    map_spec: &MapSpec,
    look: F,
)
    requires
        consistent(before),
        refreshed(before, after, map_spec, look),
    ensures
        consistent(after),
        the_player(after) == the_player(before),
{
    assert forall|i: int| 0 <= i < before.len() implies {
        &&& (#[trigger] after[i]).alive == before[i].alive
        &&& after[i].player == before[i].player
        &&& after[i].position == before[i].position
        &&& after[i].health == before[i].health
        &&& after[i].fov.is_some() == before[i].fov.is_some()
        &&& after[i].item == before[i].item
        &&& after[i].enemy == before[i].enemy
        &&& after[i].carried == before[i].carried
        &&& after[i].moving_randomly == before[i].moving_randomly
        &&& after[i].chasing_player == before[i].chasing_player
    } by {
        if before[i].looks_anew() {
            assert(looked(before[i], after[i], map_spec, look));
        }
    }
    assert(same_players(before, after));
    lemma_same_players(before, after);
}

} // verus!
