use vstd::prelude::*;
use crate::geometry::Point;
use crate::systems::{EntityId, Intent, WantsToAttack, WantsToMove, WantsActivateItem};
use crate::systems::collisions::Placed;
use crate::turn_state::TurnState;

verus! {

/// The keys the game reads.
#[derive(Clone, Copy, Debug, PartialEq, Eq, Structural)]
pub enum Key {
    Left,
    Right,
    Up,
    Down,
    G,
    /// A number key, with its digit.
    Digit(u8),
    Other,
}

/// What the player's key press asks for.
#[derive(Clone, Copy, Debug, PartialEq, Eq, Structural)]
pub enum PlayerCommand {
    /// Take `item` off the floor into `carrier`'s pack.
    PickUp { item: EntityId, carrier: EntityId },
    Activate(WantsActivateItem),
    Act(Intent),
}

/// The step a key asks for: one cell for the arrow keys, none otherwise.
pub open spec fn key_delta(k: Key) -> Point {
    match k {
        Key::Left => Point { x: -1i32, y: 0i32 },
        Key::Right => Point { x: 1, y: 0 },
        Key::Up => Point { x: 0i32, y: -1i32 },
        Key::Down => Point { x: 0, y: 1 },
        _ => Point { x: 0, y: 0 },
    }
}

/// Picking up every item lying where the player stands, in order.
pub open spec fn pickups(player: EntityId, pos: Point, items: Seq<Placed>) -> Seq<PlayerCommand> {
    items.filter(|i: Placed| i.pos == pos).map_values(|i: Placed| PlayerCommand::PickUp { item: i.id, carrier: player })
}

/// Using the item of number key `d` (1 to 9): the `d`-th item carried, if
/// there is one.
pub open spec fn activation(player: EntityId, d: u8, carried: Seq<EntityId>) -> Seq<PlayerCommand> {
    if 1 <= d <= 9 && d - 1 < carried.len() {
        seq![PlayerCommand::Activate(WantsActivateItem { used_by: player, item: carried[d - 1] })]
    } else {
        Seq::empty()
    }
}

/// Stepping onto `dest`: attacking every enemy there, or moving there if
/// there is none.
pub open spec fn step(player: EntityId, dest: Point, enemies: Seq<Placed>) -> Seq<PlayerCommand> {
    let hits = enemies.filter(|e: Placed| e.pos == dest);
    if hits.len() == 0 {
        seq![PlayerCommand::Act(Intent::Move(WantsToMove { entity: player, destination: dest }))]
    } else {
        hits.map_values(|e: Placed| PlayerCommand::Act(Intent::Attack(WantsToAttack { attacker: player, victim: e.id })))
    }
}

/// Everything one key press asks for, in order.
pub open spec fn commands_for(
    key: Key,
    player: EntityId,
    pos: Point,
    floor_items: Seq<Placed>,
    carried: Seq<EntityId>,
    enemies: Seq<Placed>,
) -> Seq<PlayerCommand> {
    let before = match key {
        Key::G => pickups(player, pos, floor_items),
        Key::Digit(d) => activation(player, d, carried),
        _ => Seq::empty(),
    };
    let d = key_delta(key);
    if d.x != 0 || d.y != 0 {
        before + step(player, Point { x: (pos.x + d.x) as i32, y: (pos.y + d.y) as i32 }, enemies)
    } else {
        before
    }
}

/// The commands step onto `target`: a single move there when no enemy
/// stands on it, otherwise one or more attacks by the player, each on an
/// enemy standing there, and no move.
pub open spec fn steps_onto(cmds: Seq<PlayerCommand>, player: EntityId, target: Point, enemies: Seq<Placed>) -> bool {
    if forall|k: int| 0 <= k < enemies.len() ==> (#[trigger] enemies[k]).pos != target {
        cmds == seq![PlayerCommand::Act(Intent::Move(WantsToMove { entity: player, destination: target }))]
    } else {
        &&& cmds.len() >= 1
        &&& forall|j: int| 0 <= j < cmds.len() ==> (#[trigger] cmds[j] matches PlayerCommand::Act(Intent::Attack(a))
                && a.attacker == player
                && exists|k: int| 0 <= k < enemies.len() && enemies[k].id == a.victim && enemies[k].pos == target)
    }
}

/// Stepping onto a cell asks for exactly what `steps_onto` describes.
proof fn lemma_step_onto(player: EntityId, target: Point, enemies: Seq<Placed>)
    ensures
        steps_onto(step(player, target, enemies), player, target, enemies),
{
    let pred = |e: Placed| e.pos == target;
    let hits = enemies.filter(pred);
    let cmds = step(player, target, enemies);
    if hits.len() > 0 {
        enemies.lemma_filter_pred(pred, 0);
        assert(hits.contains(hits[0]));
        enemies.lemma_filter_contains_rev(pred, hits[0]);
    }
    if !(forall|k: int| 0 <= k < enemies.len() ==> (#[trigger] enemies[k]).pos != target) {
        let k0 = choose|k: int| 0 <= k < enemies.len() && !((#[trigger] enemies[k]).pos != target);
        enemies.lemma_filter_contains(pred, k0);
        assert forall|j: int| 0 <= j < cmds.len() implies (#[trigger] cmds[j] matches PlayerCommand::Act(Intent::Attack(a))
                && a.attacker == player
                && exists|k: int| 0 <= k < enemies.len() && enemies[k].id == a.victim && enemies[k].pos == target) by {
            enemies.lemma_filter_pred(pred, j);
            assert(hits.contains(hits[j]));
            enemies.lemma_filter_contains_rev(pred, hits[j]);
            let k = choose|k: int| 0 <= k < enemies.len() && enemies[k] == hits[j];
            assert(enemies[k].id == hits[j].id && enemies[k].pos == target);
        }
    }
}

/// The arrow keys step the player one cell: Left to `(x - 1, y)`, Right to
/// `(x + 1, y)`, Up to `(x, y - 1)`, Down to `(x, y + 1)`; each moves the
/// player there, or attacks the enemies standing there.
pub proof fn lemma_arrow_keys(
    player: EntityId,
    pos: Point,
    floor_items: Seq<Placed>,
    carried: Seq<EntityId>,
    enemies: Seq<Placed>,
)
    requires
        i32::MIN < pos.x < i32::MAX,
        i32::MIN < pos.y < i32::MAX,
    ensures
        steps_onto(commands_for(Key::Left, player, pos, floor_items, carried, enemies), player,
            Point { x: (pos.x - 1) as i32, y: pos.y }, enemies),
        steps_onto(commands_for(Key::Right, player, pos, floor_items, carried, enemies), player,
            Point { x: (pos.x + 1) as i32, y: pos.y }, enemies),
        steps_onto(commands_for(Key::Up, player, pos, floor_items, carried, enemies), player,
            Point { x: pos.x, y: (pos.y - 1) as i32 }, enemies),
        steps_onto(commands_for(Key::Down, player, pos, floor_items, carried, enemies), player,
            Point { x: pos.x, y: (pos.y + 1) as i32 }, enemies),
{
    let l = Point { x: (pos.x - 1) as i32, y: pos.y };
    let r = Point { x: (pos.x + 1) as i32, y: pos.y };
    let u = Point { x: pos.x, y: (pos.y - 1) as i32 };
    let dn = Point { x: pos.x, y: (pos.y + 1) as i32 };
    lemma_step_onto(player, l, enemies);
    lemma_step_onto(player, r, enemies);
    lemma_step_onto(player, u, enemies);
    lemma_step_onto(player, dn, enemies);
    assert(commands_for(Key::Left, player, pos, floor_items, carried, enemies) =~= step(player, l, enemies));
    assert(commands_for(Key::Right, player, pos, floor_items, carried, enemies) =~= step(player, r, enemies));
    assert(commands_for(Key::Up, player, pos, floor_items, carried, enemies) =~= step(player, u, enemies));
    assert(commands_for(Key::Down, player, pos, floor_items, carried, enemies) =~= step(player, dn, enemies));
}

fn pick_up_all(player: EntityId, pos: Point, items: &Vec<Placed>) -> (cmds: Vec<PlayerCommand>)
    ensures
        cmds@ == pickups(player, pos, items@),
{
    let ghost pred = |i: Placed| i.pos == pos;
    let ghost f = |i: Placed| PlayerCommand::PickUp { item: i.id, carrier: player };
    let mut cmds: Vec<PlayerCommand> = Vec::new();
    let mut k: usize = 0;
    while k < items.len()
        invariant
            k <= items@.len(),
            pred == (|i: Placed| i.pos == pos),
            f == (|i: Placed| PlayerCommand::PickUp { item: i.id, carrier: player }),
            cmds@ == items@.take(k as int).filter(pred).map_values(f),
        decreases items@.len() - k,
    {
        reveal_with_fuel(Seq::<Placed>::filter, 1);
        let it = items[k];
        assert(items@.take(k + 1).drop_last() =~= items@.take(k as int));
        if it.pos == pos {
            cmds.push(PlayerCommand::PickUp { item: it.id, carrier: player });
            assert(items@.take(k + 1).filter(pred) =~= items@.take(k as int).filter(pred).push(it));
            assert(items@.take(k + 1).filter(pred).map_values(f) =~= items@.take(k as int).filter(pred).map_values(f).push(f(it)));
        } else {
            assert(items@.take(k + 1).filter(pred) =~= items@.take(k as int).filter(pred));
        }
        k = k + 1;
    }
    assert(items@.take(items@.len() as int) =~= items@);
    cmds
}

fn step_onto(player: EntityId, dest: Point, enemies: &Vec<Placed>) -> (cmds: Vec<PlayerCommand>)
    ensures
        cmds@ == step(player, dest, enemies@),
{
    let ghost pred = |e: Placed| e.pos == dest;
    let ghost f = |e: Placed| PlayerCommand::Act(Intent::Attack(WantsToAttack { attacker: player, victim: e.id }));
    let mut cmds: Vec<PlayerCommand> = Vec::new();
    let mut hit_something = false;
    let mut k: usize = 0;
    while k < enemies.len()
        invariant
            k <= enemies@.len(),
            pred == (|e: Placed| e.pos == dest),
            f == (|e: Placed| PlayerCommand::Act(Intent::Attack(WantsToAttack { attacker: player, victim: e.id }))),
            cmds@ == enemies@.take(k as int).filter(pred).map_values(f),
            hit_something == (enemies@.take(k as int).filter(pred).len() > 0),
        decreases enemies@.len() - k,
    {
        reveal_with_fuel(Seq::<Placed>::filter, 1);
        let e = enemies[k];
        assert(enemies@.take(k + 1).drop_last() =~= enemies@.take(k as int));
        if e.pos == dest {
            hit_something = true;
            cmds.push(PlayerCommand::Act(Intent::Attack(WantsToAttack { attacker: player, victim: e.id })));
            assert(enemies@.take(k + 1).filter(pred) =~= enemies@.take(k as int).filter(pred).push(e));
            assert(enemies@.take(k + 1).filter(pred).map_values(f) =~= enemies@.take(k as int).filter(pred).map_values(f).push(f(e)));
        } else {
            assert(enemies@.take(k + 1).filter(pred) =~= enemies@.take(k as int).filter(pred));
        }
        k = k + 1;
    }
    assert(enemies@.take(enemies@.len() as int) =~= enemies@);
    if !hit_something {
        cmds.push(PlayerCommand::Act(Intent::Move(WantsToMove { entity: player, destination: dest })));
        assert(cmds@ =~= step(player, dest, enemies@));
    }
    cmds
}

/// The player-input system: the arrow keys step the player one cell,
/// attacking every enemy on the cell stepped onto or else moving there;
/// `G` picks up every item under the player; number keys 1 to 9 use the
/// carried item of that number. Any key press ends the player's input
/// phase; with no key nothing happens.
pub fn player_input(
    key: Option<Key>,
    player: EntityId,
    player_pos: Point,
    floor_items: &Vec<Placed>,
    carried: &Vec<EntityId>,
    enemies: &Vec<Placed>,
    turn_state: &mut TurnState,
) -> (cmds: Vec<PlayerCommand>)
    requires
        i32::MIN < player_pos.x < i32::MAX,
        i32::MIN < player_pos.y < i32::MAX,
    ensures
        key is None ==> cmds@.len() == 0 && *final(turn_state) == *old(turn_state),
        key matches Some(k) ==> cmds@ == commands_for(k, player, player_pos, floor_items@, carried@, enemies@)
            && *final(turn_state) == TurnState::PlayerTurn,
{
    match key {
        None => Vec::new(),
        Some(k) => {
            let (delta, mut cmds) = match k {
                Key::Left => (Point::new(-1, 0), Vec::new()),
                Key::Right => (Point::new(1, 0), Vec::new()),
                Key::Up => (Point::new(0, -1), Vec::new()),
                Key::Down => (Point::new(0, 1), Vec::new()),
                Key::G => (Point::new(0, 0), pick_up_all(player, player_pos, floor_items)),
                Key::Digit(d) => {
                    let mut v: Vec<PlayerCommand> = Vec::new();
                    if 1 <= d && d <= 9 && ((d - 1) as usize) < carried.len() {
                        v.push(PlayerCommand::Activate(WantsActivateItem { used_by: player, item: carried[(d - 1) as usize] }));
                    }
                    (Point::zero(), v)
                },
                Key::Other => (Point::new(0, 0), Vec::new()),
            };
            let ghost before = cmds@;
            if delta.x != 0 || delta.y != 0 {
                let destination = Point::new(player_pos.x + delta.x, player_pos.y + delta.y);
                let mut moves = step_onto(player, destination, enemies);
                cmds.append(&mut moves);
            }
            *turn_state = TurnState::PlayerTurn;
            proof {
                if let Key::Digit(d) = k {
                    assert(cmds@ =~= activation(player, d, carried@));
                }
            }
            cmds
        },
    }
}

} // verus!
