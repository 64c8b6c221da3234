//! Resolves attacks: the attacker's own damage and that of the weapons it
//! carries come off the victim's health.

use vstd::prelude::*;
use crate::components::{Carried, Entity, Health, WantsToAttack};
use crate::world::{consistent, has_sole_player, lemma_same_players, live, same_players, the_player, Records, World};

verus! {

/// The value of the coordinate type nearest to `v`.
pub open spec fn clamp_i32(v: int) -> int {
    if v < i32::MIN {
        i32::MIN as int
    } else if v > i32::MAX {
        i32::MAX as int
    } else {
        v
    }
}

/// The damage that `attacker` deals bare-handed: its own, where it is a
/// live player or enemy.
pub open spec fn base_damage(s: Seq<Records>, attacker: Entity) -> int {
    if live(s, attacker) && (s[attacker.0 as int].player.is_some() || s[attacker.0 as int].enemy.is_some())
        && s[attacker.0 as int].damage.is_some() {
        s[attacker.0 as int].damage.unwrap().0 as int
    } else {
        0
    }
}

/// The damage that entity `r` adds to the blows of `attacker`: its own,
/// where it is a weapon that `attacker` carries.
pub open spec fn weapon_bonus(r: Records, attacker: Entity) -> int {
    if r.carried_weapon_of(attacker) && r.damage.is_some() {
        r.damage.unwrap().0 as int
    } else {
        0
    }
}

/// The damage that the weapons among the first `n` entities add to the
/// blows of `attacker`.
pub open spec fn weapon_damage(s: Seq<Records>, attacker: Entity, n: nat) -> int
    decreases n,
{
    if n == 0 {
        0
    } else {
        weapon_damage(s, attacker, (n - 1) as nat) + weapon_bonus(s[n - 1], attacker)
    }
}

/// The damage of one blow of `attacker`.
pub open spec fn attack_damage(s: Seq<Records>, attacker: Entity) -> int {
    base_damage(s, attacker) + weapon_damage(s, attacker, s.len())
}

/// Whether a blow can land on `victim`: it lives and has health.
pub open spec fn vulnerable(s: Seq<Records>, victim: Entity) -> bool {
    live(s, victim) && s[victim.0 as int].health.is_some()
}

/// The world after one blow. The victim loses the blow's damage, its health
/// staying within the range of its type, and is despawned where less than
/// one point is left, unless it is the player.
pub open spec fn struck(s: Seq<Records>, attack: WantsToAttack, player: Entity) -> Seq<Records> {
    if vulnerable(s, attack.victim) {
        let victim = s[attack.victim.0 as int];
        let health = victim.health.unwrap();
        let current = clamp_i32(health.current - attack_damage(s, attack.attacker));
        s.update(
            attack.victim.0 as int,
            Records {
                health: Some(Health { current: current as i32, max: health.max }),
                alive: !(current < 1 && attack.victim != player),
                ..victim
            },
        )
    } else {
        s
    }
}

/// The world after the first `n` of `attacks`, one after the other.
pub open spec fn after_attacks(s: Seq<Records>, attacks: Seq<WantsToAttack>, player: Entity, n: nat) -> Seq<
    Records,
>
    decreases n,
{
    if n == 0 {
        s
    } else {
        struck(after_attacks(s, attacks, player, (n - 1) as nat), attacks[n - 1], player)
    }
}

/// The damage of one blow of `attacker`.
pub fn damage_of(world: &World, attacker: Entity) -> (total: i128)
    ensures
        total == attack_damage(world@, attacker),
        -0x8000_0000 * (world@.len() + 1) <= total <= 0x8000_0000 * (world@.len() + 1),
{
    let mut total: i128 = 0;
    if attacker.0 < world.entities.len() {
        let a = &world.entities[attacker.0];
        if a.alive && (a.player.is_some() || a.enemy.is_some()) {
            if let Some(d) = a.damage {
                total = d.0 as i128;
            }
        }
    }
    let ghost base = total;
    let mut i: usize = 0;
    while i < world.entities.len()
        invariant
            i <= world.entities@.len(),
            base == base_damage(world@, attacker),
            total == base + weapon_damage(world@, attacker, i as nat),
            -0x8000_0000 * (i + 1) <= total <= 0x8000_0000 * (i + 1),
        decreases world.entities@.len() - i,
    {
        let c = &world.entities[i];
        if c.alive && c.weapon.is_some() {
            if let Some(owner) = c.carried {
                if owner.0 == attacker {
                    if let Some(d) = c.damage {
                        total = total + d.0 as i128;
                    }
                }
            }
        }
        i = i + 1;
    }
    total
}

/// Lands every blow of `ev_attacks`, in their order, and empties the batch.
pub fn combat(world: &mut World, ev_attacks: &mut Vec<WantsToAttack>)
    requires
        has_sole_player(old(world)@),
    ensures
        final(world)@ == after_attacks(
            old(world)@,
            old(ev_attacks)@,
            the_player(old(world)@),
            old(ev_attacks)@.len(),
        ),
        final(ev_attacks)@.len() == 0,
{
    let player = world.find_player().unwrap();
    let mut i: usize = 0;
    while i < ev_attacks.len()
        invariant
            i <= ev_attacks@.len(),
            ev_attacks@ == old(ev_attacks)@,
            player == the_player(old(world)@),
            world@ == after_attacks(old(world)@, ev_attacks@, player, i as nat),
        decreases ev_attacks@.len() - i,
    {
        let attack = ev_attacks[i];
        let final_damage = damage_of(world, attack.attacker);
        let victim = attack.victim;
        let ghost before = world@;
        if victim.0 < world.entities.len() && world.entities[victim.0].alive {
            if let Some(health) = world.entities[victim.0].health {
                let left: i128 = health.current as i128 - final_damage;
                let current: i32 = if left < -0x8000_0000 {
                    -0x8000_0000
                } else if left > 0x7fff_ffff {
                    0x7fff_ffff
                } else {
                    left as i32
                };
                world.entities[victim.0].health = Some(Health { current, max: health.max });
                if current < 1 && victim != player {
                    world.entities[victim.0].alive = false;
                }
            }
        }
        assert(world@ =~= struck(before, attack, player));
        i = i + 1;
    }
    ev_attacks.clear();
}

/// A blow leaves the world consistent, and the player the player.
pub proof fn lemma_struck_consistent(s: Seq<Records>, attack: WantsToAttack)
    requires
        consistent(s),
    ensures
        consistent(struck(s, attack, the_player(s))),
        the_player(struck(s, attack, the_player(s))) == the_player(s),
        struck(s, attack, the_player(s)).len() == s.len(),
{
    let player = the_player(s);
    let t = struck(s, attack, player);
    assert(same_players(s, t)) by {
        assert forall|i: int| 0 <= i < s.len() implies ((#[trigger] t[i]).alive && t[i].player.is_some()) == (
        s[i].alive && s[i].player.is_some()) by {
            if s[i].alive && s[i].player.is_some() {
                assert(crate::world::is_player(s, Entity(i as usize)));
            }
        }
    }
    lemma_same_players(s, t);
}

/// Combat leaves the world consistent, and the player the player.
pub proof fn lemma_combat_consistent(s: Seq<Records>, attacks: Seq<WantsToAttack>, n: nat)
    requires
        consistent(s),
        n <= attacks.len(),
    ensures
        consistent(after_attacks(s, attacks, the_player(s), n)),
        the_player(after_attacks(s, attacks, the_player(s), n)) == the_player(s),
        after_attacks(s, attacks, the_player(s), n).len() == s.len(),
    decreases n,
{
    if n > 0 {
        lemma_combat_consistent(s, attacks, (n - 1) as nat);
        lemma_struck_consistent(after_attacks(s, attacks, the_player(s), (n - 1) as nat), attacks[n - 1]);
    }
}

} // verus!
