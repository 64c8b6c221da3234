//! Turns one command of the player into intents.

use vstd::prelude::*;
use crate::components::{ActivateItem, Carried, Entity, WantsToAttack, WantsToMove};
use crate::turn_state::TurnState;
use crate::utils::Point;
use crate::world::{consistent, has_sole_player, lemma_same_players, same_players, the_player, Records, World};

verus! {

/// What the player can ask for in one turn.
#[derive(PartialEq, Eq, Structural, Clone, Copy, Debug)]
pub enum Command {
    Up,
    Down,
    Left,
    Right,
    /// Pick up what lies on the player's tile.
    PickUp,
    /// Use the carried item with this number, counted from 0.
    UseItem(usize),
    /// Any other key.
    Other,
}

/// The step that a command takes; no step for a command that does not
/// move.
pub open spec fn step_of(cmd: Command) -> Point {
    match cmd {
        Command::Up => Point { x: 0, y: 1 },
        Command::Left => Point { x: -1i32, y: 0 },
        Command::Down => Point { x: 0, y: -1i32 },
        Command::Right => Point { x: 1, y: 0 },
        _ => Point { x: 0, y: 0 },
    }
}

/// Whether a step from `p` in any direction stays within the coordinate
/// type.
pub open spec fn can_step(p: Point) -> bool {
    i32::MIN < p.x < i32::MAX && i32::MIN < p.y < i32::MAX
}

/// Whether an item that is a weapon lies on `at`.
pub open spec fn weapon_lies_on(s: Seq<Records>, at: Point) -> bool {
    exists|i: int| 0 <= i < s.len() && (#[trigger] s[i]).item_on(at) && s[i].weapon.is_some()
}

/// The world once `player` has picked up what lies on its tile: each item
/// there has no position any more and is carried by the player; where one
/// of them is a weapon, the weapons that the player carried before are
/// despawned.
pub open spec fn picked_up(s: Seq<Records>, player: Entity) -> Seq<Records> {
    let at = s[player.0 as int].position.unwrap();
    Seq::new(
        s.len(),
        |i: int|
            {
                let taken = if s[i].item_on(at) {
                    Records { position: None, carried: Some(Carried(player)), ..s[i] }
                } else {
                    s[i]
                };
                if weapon_lies_on(s, at) && s[i].carried_weapon_of(player) {
                    taken.dead()
                } else {
                    taken
                }
            },
    )
}

/// How many of the first `n` entities are items that `owner` carries.
pub open spec fn carried_count(s: Seq<Records>, owner: Entity, n: nat) -> nat
    decreases n,
{
    if n == 0 {
        0
    } else {
        carried_count(s, owner, (n - 1) as nat) + if s[n - 1].carried_item_of(owner) {
            1nat
        } else {
            0nat
        }
    }
}

/// Whether `e` is the item with number `n`, counted from 0, among those
/// that `owner` carries.
pub open spec fn is_nth_carried(s: Seq<Records>, owner: Entity, n: nat, e: Entity) -> bool {
    &&& e.0 < s.len()
    &&& s[e.0 as int].carried_item_of(owner)
    &&& carried_count(s, owner, e.0 as nat) == n
}

/// The item with number `n`, counted from 0, among those that `owner`
/// carries; `None` where it carries fewer.
pub open spec fn nth_carried(s: Seq<Records>, owner: Entity, n: nat) -> Option<Entity> {
    if exists|e: Entity| is_nth_carried(s, owner, n, e) {
        Some(choose|e: Entity| is_nth_carried(s, owner, n, e))
    } else {
        None
    }
}

/// The count of carried items never falls as more entities are counted.
pub proof fn lemma_carried_count_monotone(s: Seq<Records>, owner: Entity, a: nat, b: nat)
    requires
        a <= b,
    ensures
        carried_count(s, owner, a) <= carried_count(s, owner, b),
    decreases b,
{
    if a < b {
        lemma_carried_count_monotone(s, owner, a, (b - 1) as nat);
    }
}

/// No two carried items have the same number.
pub proof fn lemma_nth_carried_unique(s: Seq<Records>, owner: Entity, n: nat, e: Entity)
    requires
        is_nth_carried(s, owner, n, e),
    ensures
        nth_carried(s, owner, n) == Some(e),
{
    let c = choose|c: Entity| is_nth_carried(s, owner, n, c);
    if c.0 < e.0 {
        lemma_carried_count_monotone(s, owner, (c.0 + 1) as nat, e.0 as nat);
    } else if e.0 < c.0 {
        lemma_carried_count_monotone(s, owner, (e.0 + 1) as nat, c.0 as nat);
    }
}

/// The attacks of `attacker` on the enemies among the first `n` entities
/// that stand on `destination`, in their order.
pub open spec fn strikes(s: Seq<Records>, attacker: Entity, destination: Point, n: nat) -> Seq<WantsToAttack>
    decreases n,
{
    if n == 0 {
        Seq::empty()
    } else if s[n - 1].enemy_on(destination) {
        strikes(s, attacker, destination, (n - 1) as nat).push(
            WantsToAttack { attacker, victim: Entity((n - 1) as usize) },
        )
    } else {
        strikes(s, attacker, destination, (n - 1) as nat)
    }
}

/// Whether `cmd` takes the player's turn: every command but `Other`.
pub open spec fn takes_turn(cmd: Option<Command>) -> bool {
    cmd.is_some() && cmd != Some(Command::Other)
}

/// Whether the player can be found to act: there is one player, who stands
/// somewhere from where a step stays within the coordinate type.
pub open spec fn player_ready(s: Seq<Records>) -> bool {
    &&& has_sole_player(s)
    &&& s[the_player(s).0 as int].position.is_some()
    &&& can_step(s[the_player(s).0 as int].position.unwrap())
}

/// The tile that the player asks to stand on.
pub open spec fn input_destination(s: Seq<Records>, cmd: Option<Command>) -> Point {
    let at = s[the_player(s).0 as int].position.unwrap();
    let step = step_of(cmd.unwrap());
    Point { x: (at.x + step.x) as i32, y: (at.y + step.y) as i32 }
}

/// Whether `cmd` is a step in some direction.
pub open spec fn steps(cmd: Option<Command>) -> bool {
    takes_turn(cmd) && step_of(cmd.unwrap()) != (Point { x: 0, y: 0 })
}

/// The world after the command: picking up changes it, nothing else does.
pub open spec fn input_world(s: Seq<Records>, cmd: Option<Command>) -> Seq<Records> {
    if cmd == Some(Command::PickUp) {
        picked_up(s, the_player(s))
    } else {
        s
    }
}

/// The phase after the command: the player's turn where the command takes
/// it, else the phase before.
pub open spec fn input_state(state: TurnState, cmd: Option<Command>) -> TurnState {
    if takes_turn(cmd) {
        TurnState::PlayerTurn
    } else {
        state
    }
}

/// What the command asks to use: the carried item whose number it names.
pub open spec fn input_items(s: Seq<Records>, cmd: Option<Command>) -> Seq<ActivateItem> {
    match cmd {
        Some(Command::UseItem(n)) => match nth_carried(s, the_player(s), n as nat) {
            Some(item) => seq![ActivateItem { used_by: the_player(s), item }],
            None => Seq::empty(),
        },
        _ => Seq::empty(),
    }
}

/// Whom the command asks to attack: every enemy on the tile that a step
/// leads to.
pub open spec fn input_attacks(s: Seq<Records>, cmd: Option<Command>) -> Seq<WantsToAttack> {
    if steps(cmd) {
        strikes(s, the_player(s), input_destination(s, cmd), s.len())
    } else {
        Seq::empty()
    }
}

/// Where the command asks to move: onto the tile that a step leads to,
/// where no enemy stands on it.
pub open spec fn input_moves(s: Seq<Records>, cmd: Option<Command>) -> Seq<WantsToMove> {
    if steps(cmd) && input_attacks(s, cmd).len() == 0 {
        seq![WantsToMove { entity: the_player(s), destination: input_destination(s, cmd) }]
    } else {
        Seq::empty()
    }
}

/// Asks to use the carried item with number `n`, counted from 0. Nothing is
/// asked where `player` carries fewer items. The command takes no step.
pub fn use_item(n: usize, player: Entity, world: &World, ev_item: &mut Vec<ActivateItem>) -> (step: Point)
    ensures
        step == (Point { x: 0, y: 0 }),
        final(ev_item)@ == match nth_carried(world@, player, n as nat) {
            Some(item) => old(ev_item)@.push(ActivateItem { used_by: player, item }),
            None => old(ev_item)@,
        },
{
    let mut seen: usize = 0;
    let mut i: usize = 0;
    while i < world.entities.len()
        invariant
            i <= world@.len(),
            seen == carried_count(world@, player, i as nat),
            seen <= i,
            seen <= n,
            forall|e: Entity| e.0 < i ==> !is_nth_carried(world@, player, n as nat, e),
            ev_item@ == old(ev_item)@,
        decreases world@.len() - i,
    {
        let c = &world.entities[i];
        let carried = c.alive && c.item.is_some() && match c.carried {
            Some(owner) => owner.0 == player,
            None => false,
        };
        if carried {
            if seen == n {
                proof {
                    lemma_nth_carried_unique(world@, player, n as nat, Entity(i));
                }
                ev_item.push(ActivateItem { used_by: player, item: Entity(i) });
                return Point::zero();
            }
            seen = seen + 1;
        }
        i = i + 1;
    }
    Point::zero()
}

/// Resolves one command. `None` and `Other` change nothing. Any other
/// command ends the wait for input: a direction asks to attack every enemy
/// on the tile next to the player in that direction, or to move there where
/// no enemy stands; `PickUp` picks up what lies on the player's tile;
/// `UseItem` asks to use a carried item.
pub fn player_input(
    cmd: Option<Command>,
    world: &mut World,
    turn_state: &mut TurnState,
    ev_movements: &mut Vec<WantsToMove>,
    ev_attacks: &mut Vec<WantsToAttack>,
    ev_item: &mut Vec<ActivateItem>,
)
    requires
        takes_turn(cmd) ==> player_ready(old(world)@),
    ensures
        final(world)@ == input_world(old(world)@, cmd),
        *final(turn_state) == input_state(*old(turn_state), cmd),
        final(ev_item)@ == old(ev_item)@ + input_items(old(world)@, cmd),
        final(ev_attacks)@ == old(ev_attacks)@ + input_attacks(old(world)@, cmd),
        final(ev_movements)@ == old(ev_movements)@ + input_moves(old(world)@, cmd),
{
    let command = match cmd {
        Some(Command::Other) => {
            proof {
                assert(ev_item@ + Seq::<ActivateItem>::empty() =~= ev_item@);
                assert(ev_attacks@ + Seq::<WantsToAttack>::empty() =~= ev_attacks@);
                assert(ev_movements@ + Seq::<WantsToMove>::empty() =~= ev_movements@);
            }
            return ;
        },
        None => {
            proof {
                assert(ev_item@ + Seq::<ActivateItem>::empty() =~= ev_item@);
                assert(ev_attacks@ + Seq::<WantsToAttack>::empty() =~= ev_attacks@);
                assert(ev_movements@ + Seq::<WantsToMove>::empty() =~= ev_movements@);
            }
            return ;
        },
        Some(c) => c,
    };
    let player = world.find_player().unwrap();
    let player_pos = world.entities[player.0].position.unwrap();
    let delta = match command {
        Command::Up => Point::new(0, 1),
        Command::Left => Point::new(-1, 0),
        Command::Down => Point::new(0, -1),
        Command::Right => Point::new(1, 0),
        Command::PickUp => {
            pick_up(world, player, player_pos);
            Point::zero()
        },
        Command::UseItem(n) => use_item(n, player, world, ev_item),
        Command::Other => Point::zero(),
    };
    if delta != Point::zero() {
        let destination = player_pos + delta;
        let mut hit_something = false;
        let mut i: usize = 0;
        while i < world.entities.len()
            invariant
                i <= world@.len(),
                world@ == old(world)@,
                ev_attacks@ == old(ev_attacks)@ + strikes(world@, player, destination, i as nat),
                hit_something == (strikes(world@, player, destination, i as nat).len() > 0),
            decreases world@.len() - i,
        {
            let c = &world.entities[i];
            let there = c.alive && c.enemy.is_some() && match c.position {
                Some(at) => at == destination,
                None => false,
            };
            if there {
                hit_something = true;
                ev_attacks.push(WantsToAttack { attacker: player, victim: Entity(i) });
            }
            proof {
                assert(ev_attacks@ =~= old(ev_attacks)@ + strikes(world@, player, destination, (i + 1) as nat));
            }
            i = i + 1;
        }
        if !hit_something {
            ev_movements.push(WantsToMove { entity: player, destination });
        }
    }
    proof {
        let s = old(world)@;
        assert(ev_item@ =~= old(ev_item)@ + input_items(s, cmd));
        assert(ev_attacks@ =~= old(ev_attacks)@ + input_attacks(s, cmd));
        assert(ev_movements@ =~= old(ev_movements)@ + input_moves(s, cmd));
    }
    *turn_state = TurnState::PlayerTurn;
}

/// Picks up what lies on `at` for `player`.
fn pick_up(world: &mut World, player: Entity, at: Point)
    requires
        player.0 < old(world)@.len(),
        old(world)@[player.0 as int].position == Some(at),
    ensures
        final(world)@ == picked_up(old(world)@, player),
{
    let mut weapon_found = false;
    let mut i: usize = 0;
    while i < world.entities.len()
        invariant
            i <= world@.len(),
            world@ == old(world)@,
            weapon_found == weapon_lies_on(world@.take(i as int), at),
        decreases world@.len() - i,
    {
        let c = &world.entities[i];
        let lies = c.alive && c.item.is_some() && c.render.is_some() && c.weapon.is_some() && match c.position {
            Some(p) => p == at,
            None => false,
        };
        proof {
            let before = world@.take(i as int);
            let now = world@.take(i + 1);
            if lies {
                assert(now[i as int].item_on(at) && now[i as int].weapon.is_some());
            } else if weapon_lies_on(before, at) {
                let k = choose|k: int| 0 <= k < before.len() && (#[trigger] before[k]).item_on(at) && before[k].weapon.is_some();
                assert(now[k].item_on(at) && now[k].weapon.is_some());
            } else {
                assert forall|k: int| 0 <= k < now.len() implies !((#[trigger] now[k]).item_on(at) && now[k].weapon.is_some()) by {
                    if k < i {
                        assert(before[k] == now[k]);
                    }
                }
            }
        }
        if lies {
            weapon_found = true;
        }
        i = i + 1;
    }
    assert(world@.take(i as int) == world@);
    let mut k: usize = 0;
    while k < world.entities.len()
        invariant
            k <= world@.len(),
            world@.len() == old(world)@.len(),
            player.0 < old(world)@.len(),
            old(world)@[player.0 as int].position == Some(at),
            weapon_found == weapon_lies_on(old(world)@, at),
            forall|j: int|
                0 <= j < world@.len() ==> #[trigger] world@[j] == if j < k {
                    picked_up(old(world)@, player)[j]
                } else {
                    old(world)@[j]
                },
        decreases world@.len() - k,
    {
        let ghost before = world@;
        let c = &world.entities[k];
        let lies = c.alive && c.item.is_some() && c.render.is_some() && match c.position {
            Some(p) => p == at,
            None => false,
        };
        let old_weapon = c.alive && c.weapon.is_some() && match c.carried {
            Some(owner) => owner.0 == player,
            None => false,
        };
        if lies {
            world.entities[k].position = None;
            world.entities[k].carried = Some(Carried(player));
        }
        if weapon_found && old_weapon {
            world.entities[k].alive = false;
        }
        proof {
            let s0 = old(world)@;
            assert(before[k as int] == s0[k as int]);
            assert(lies == s0[k as int].item_on(at));
            assert(old_weapon == s0[k as int].carried_weapon_of(player));
            let taken = if s0[k as int].item_on(at) {
                Records { position: None, carried: Some(Carried(player)), ..s0[k as int] }
            } else {
                s0[k as int]
            };
            let want = if weapon_lies_on(s0, at) && s0[k as int].carried_weapon_of(player) {
                taken.dead()
            } else {
                taken
            };
            assert(picked_up(s0, player)[k as int] == want);
            assert(world@[k as int] == want);
            assert(world@ =~= before.update(k as int, want));
        }
        k = k + 1;
    }
    assert(world@ =~= picked_up(old(world)@, player));
}

/// Picking up leaves the world consistent, and the player the player.
pub proof fn lemma_picked_up_consistent(s: Seq<Records>)
    requires
        consistent(s),
    ensures
        consistent(picked_up(s, the_player(s))),
        the_player(picked_up(s, the_player(s))) == the_player(s),
{
    let player = the_player(s);
    let t = picked_up(s, player);
    assert(same_players(s, t)) by {
        assert forall|i: int| 0 <= i < s.len() implies ((#[trigger] t[i]).alive && t[i].player.is_some()) == (
        s[i].alive && s[i].player.is_some()) by {
            if s[i].alive && s[i].player.is_some() {
                assert(crate::world::is_player(s, Entity(i as usize)));
            }
        }
    }
    lemma_same_players(s, t);
}

/// What is picked up lies nowhere any more and is carried by the player;
/// nothing else changes hands.
pub proof fn lemma_pickup_carries(s: Seq<Records>, i: int)
    requires
        consistent(s),
        0 <= i < s.len(),
    ensures
        ({
            let player = the_player(s);
            let at = s[player.0 as int].position.unwrap();
            let t = picked_up(s, player);
            &&& s[i].item_on(at) ==> t[i].position.is_none() && t[i].carried == Some(Carried(player))
            &&& !s[i].item_on(at) ==> t[i].position == s[i].position && t[i].carried == s[i].carried
        }),
{
}

} // verus!
