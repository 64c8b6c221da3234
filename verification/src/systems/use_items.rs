//! Resolves the use of items: the item is used up, and what it provides
//! takes effect.

use vstd::prelude::*;
use crate::components::{ActivateItem, Entity, Health};
use crate::map::{MapSpec, NUM_TILES};
use crate::systems::combat::clamp_i32;
use crate::world::{consistent, lemma_same_players, live, same_players, the_player, Records, World};

verus! {

/// Whether the item of `ev` can be used: it lives and is an item.
pub open spec fn usable(s: Seq<Records>, ev: ActivateItem) -> bool {
    live(s, ev.item) && s[ev.item.0 as int].item.is_some()
}

/// The world once the item of `ev` is used up.
pub open spec fn used_up(s: Seq<Records>, ev: ActivateItem) -> Seq<Records> {
    if usable(s, ev) {
        s.update(ev.item.0 as int, s[ev.item.0 as int].dead())
    } else {
        s
    }
}

/// The world once the first `n` of `events` have used up their items.
pub open spec fn after_uses(s: Seq<Records>, events: Seq<ActivateItem>, n: nat) -> Seq<Records>
    decreases n,
{
    if n == 0 {
        s
    } else {
        used_up(after_uses(s, events, (n - 1) as nat), events[n - 1])
    }
}

/// Whom the first `n` of `events` heal, and by how much, in their order. An
/// item heals once: when it is used again it is gone.
pub open spec fn heals(s: Seq<Records>, events: Seq<ActivateItem>, n: nat) -> Seq<(Entity, i32)>
    decreases n,
{
    if n == 0 {
        Seq::empty()
    } else {
        let before = after_uses(s, events, (n - 1) as nat);
        let ev = events[n - 1];
        if usable(before, ev) && before[ev.item.0 as int].provides_healing.is_some() {
            heals(s, events, (n - 1) as nat).push((ev.used_by, before[ev.item.0 as int].provides_healing.unwrap().amount))
        } else {
            heals(s, events, (n - 1) as nat)
        }
    }
}

/// Whether one of the first `n` of `events` uses a map of the dungeon.
pub open spec fn reveals(s: Seq<Records>, events: Seq<ActivateItem>, n: nat) -> bool
    decreases n,
{
    if n == 0 {
        false
    } else {
        let before = after_uses(s, events, (n - 1) as nat);
        let ev = events[n - 1];
        reveals(s, events, (n - 1) as nat) || (usable(before, ev) && before[ev.item.0 as int].provides_dungeon_map.is_some())
    }
}

/// The world once `target` is healed by `amount`: its health rises, though
/// not above its maximum. An entity that does not live or has no health is
/// not healed.
pub open spec fn healed(s: Seq<Records>, target: Entity, amount: i32) -> Seq<Records> {
    if live(s, target) && s[target.0 as int].health.is_some() {
        let health = s[target.0 as int].health.unwrap();
        let raised = health.current + amount;
        let current = clamp_i32(if raised < health.max { raised } else { health.max as int });
        s.update(
            target.0 as int,
            Records { health: Some(Health { current: current as i32, max: health.max }), ..s[target.0 as int] },
        )
    } else {
        s
    }
}

/// The world once the first `n` of `list` are healed, one after the other.
pub open spec fn after_heals(s: Seq<Records>, list: Seq<(Entity, i32)>, n: nat) -> Seq<Records>
    decreases n,
{
    if n == 0 {
        s
    } else {
        healed(after_heals(s, list, (n - 1) as nat), list[n - 1].0, list[n - 1].1)
    }
}

/// Uses up the item of every event of `ev_items`, in their order: a map of
/// the dungeon reveals every tile, and healing is handed out once all items
/// are used up. Empties the batch.
pub fn use_items(ev_items: &mut Vec<ActivateItem>, world: &mut World, map_spec: &mut MapSpec)
    requires
        old(map_spec).wf(),
    ensures
        final(ev_items)@.len() == 0,
        final(map_spec).wf(),
        final(map_spec).tiles == old(map_spec).tiles,
        reveals(old(world)@, old(ev_items)@, old(ev_items)@.len()) ==> forall|i: int|
            0 <= i < NUM_TILES ==> final(map_spec).revealed_tiles@[i],
        !reveals(old(world)@, old(ev_items)@, old(ev_items)@.len()) ==> final(map_spec).revealed_tiles == old(
            map_spec,
        ).revealed_tiles,
        final(world)@ == after_heals(
            after_uses(old(world)@, old(ev_items)@, old(ev_items)@.len()),
            heals(old(world)@, old(ev_items)@, old(ev_items)@.len()),
            heals(old(world)@, old(ev_items)@, old(ev_items)@.len()).len(),
        ),
{
    let mut healing_to_apply: Vec<(Entity, i32)> = Vec::new();
    let mut i: usize = 0;
    while i < ev_items.len()
        invariant
            i <= ev_items@.len(),
            ev_items@ == old(ev_items)@,
            map_spec.wf(),
            map_spec.tiles == old(map_spec).tiles,
            world@ == after_uses(old(world)@, ev_items@, i as nat),
            healing_to_apply@ == heals(old(world)@, ev_items@, i as nat),
            reveals(old(world)@, ev_items@, i as nat) ==> forall|k: int|
                0 <= k < NUM_TILES ==> map_spec.revealed_tiles@[k],
            !reveals(old(world)@, ev_items@, i as nat) ==> map_spec.revealed_tiles == old(map_spec).revealed_tiles,
        decreases ev_items@.len() - i,
    {
        let ev = ev_items[i];
        let item = ev.item;
        let ghost before = world@;
        if item.0 < world.entities.len() && world.entities[item.0].alive && world.entities[item.0].item.is_some() {
            if let Some(healing) = world.entities[item.0].provides_healing {
                healing_to_apply.push((ev.used_by, healing.amount));
            }
            if world.entities[item.0].provides_dungeon_map.is_some() {
                let mut t: usize = 0;
                while t < NUM_TILES
                    invariant
                        t <= NUM_TILES,
                        map_spec.wf(),
                        map_spec.tiles == old(map_spec).tiles,
                        forall|k: int| 0 <= k < t ==> map_spec.revealed_tiles@[k],
                    decreases NUM_TILES - t,
                {
                    map_spec.revealed_tiles[t] = true;
                    t = t + 1;
                }
            }
            world.entities[item.0].alive = false;
        }
        assert(world@ =~= used_up(before, ev));
        i = i + 1;
    }
    let mut h: usize = 0;
    let ghost used = world@;
    while h < healing_to_apply.len()
        invariant
            h <= healing_to_apply@.len(),
            world@ == after_heals(used, healing_to_apply@, h as nat),
        decreases healing_to_apply@.len() - h,
    {
        let (entity, heal) = healing_to_apply[h];
        let ghost before = world@;
        if entity.0 < world.entities.len() && world.entities[entity.0].alive {
            if let Some(health) = world.entities[entity.0].health {
                let raised: i64 = health.current as i64 + heal as i64;
                let capped: i64 = if raised < health.max as i64 { raised } else { health.max as i64 };
                let current: i32 = if capped < -0x8000_0000 { -0x8000_0000 } else { capped as i32 };
                world.entities[entity.0].health = Some(Health { current, max: health.max });
            }
        }
        assert(world@ =~= healed(before, entity, heal));
        h = h + 1;
    }
    ev_items.clear();
}

/// Using up an item leaves the world consistent, and the player the
/// player.
pub proof fn lemma_used_up_consistent(s: Seq<Records>, ev: ActivateItem)
    requires
        consistent(s),
    ensures
        consistent(used_up(s, ev)),
        the_player(used_up(s, ev)) == the_player(s),
        used_up(s, ev).len() == s.len(),
{
    let t = used_up(s, ev);
    assert(same_players(s, t)) by {
        assert forall|i: int| 0 <= i < s.len() implies ((#[trigger] t[i]).alive && t[i].player.is_some()) == (
        s[i].alive && s[i].player.is_some()) by {
            if s[i].alive && s[i].player.is_some() {
                assert(crate::world::is_player(s, Entity(i as usize)));
            }
        }
    }
    lemma_same_players(s, t);
}

/// Using up items leaves the world consistent, and the player the player.
pub proof fn lemma_uses_consistent(s: Seq<Records>, events: Seq<ActivateItem>, n: nat)
    requires
        consistent(s),
        n <= events.len(),
    ensures
        consistent(after_uses(s, events, n)),
        the_player(after_uses(s, events, n)) == the_player(s),
        after_uses(s, events, n).len() == s.len(),
    decreases n,
{
    if n > 0 {
        lemma_uses_consistent(s, events, (n - 1) as nat);
        lemma_used_up_consistent(after_uses(s, events, (n - 1) as nat), events[n - 1]);
    }
}

/// Healing leaves the world consistent, and the player the player.
pub proof fn lemma_heals_consistent(s: Seq<Records>, list: Seq<(Entity, i32)>, n: nat)
    requires
        consistent(s),
        n <= list.len(),
    ensures
        consistent(after_heals(s, list, n)),
        the_player(after_heals(s, list, n)) == the_player(s),
        after_heals(s, list, n).len() == s.len(),
    decreases n,
{
    if n > 0 {
        lemma_heals_consistent(s, list, (n - 1) as nat);
        let before = after_heals(s, list, (n - 1) as nat);
        let t = healed(before, list[n - 1].0, list[n - 1].1);
        assert(same_players(before, t));
        lemma_same_players(before, t);
    }
}

/// An item is used up once: where two events in a row use the same item,
/// the second finds it gone, heals nobody and reveals nothing.
pub proof fn lemma_used_once(s: Seq<Records>, ev: ActivateItem)
    ensures
        !usable(used_up(s, ev), ev),
        used_up(used_up(s, ev), ev) == used_up(s, ev),
        heals(s, seq![ev, ev], 2) == heals(s, seq![ev], 1),
        reveals(s, seq![ev, ev], 2) == reveals(s, seq![ev], 1),
        usable(s, ev) ==> !live(used_up(s, ev), ev.item),
{
    let twice = seq![ev, ev];
    let once = seq![ev];
    assert(after_uses(s, twice, 0) == s);
    assert(after_uses(s, twice, 1) == used_up(s, ev)) by {
        reveal_with_fuel(after_uses, 2);
    }
    assert(heals(s, twice, 1) == heals(s, once, 1)) by {
        reveal_with_fuel(heals, 2);
        reveal_with_fuel(after_uses, 2);
    }
    assert(heals(s, twice, 2) == heals(s, twice, 1)) by {
        reveal_with_fuel(heals, 2);
    }
    assert(reveals(s, twice, 1) == reveals(s, once, 1)) by {
        reveal_with_fuel(reveals, 2);
        reveal_with_fuel(after_uses, 2);
    }
    assert(reveals(s, twice, 2) == reveals(s, twice, 1)) by {
        reveal_with_fuel(reveals, 2);
    }
}

} // verus!
