use vstd::prelude::*;
use crate::components::Health;
use crate::geometry::Point;
use crate::map::{TileMap, TileType, on_map};
use crate::turn_state::TurnState;

verus! {

/// The player's hit points and position at the end of a turn.
#[derive(Clone, Copy, Debug, PartialEq, Eq, Structural)]
pub struct PlayerStatus {
    pub health: Health,
    pub pos: Point,
}

/// Whose turn follows, before the players' state is looked at.
pub open spec fn next_in_turn(ts: TurnState) -> TurnState {
    match ts {
        TurnState::PlayerTurn => TurnState::MonsterTurn,
        TurnState::MonsterTurn => TurnState::AwaitingInput,
        _ => ts,
    }
}

/// The amulet's cell, or `(-1, -1)` when there is no amulet.
pub open spec fn amulet_cell(amulet: Option<Point>) -> Point {
    match amulet {
        Some(p) => p,
        None => Point { x: -1i32, y: -1i32 },
    }
}

/// The state after looking at the first `n` players in turn: a player out
/// of hit points ends the game, one on the amulet wins it, one on the exit
/// goes down a level, each later finding overriding earlier ones.
pub open spec fn after_players(players: Seq<PlayerStatus>, n: int, base: TurnState, amulet: Point, map: TileMap) -> TurnState
    decreases n,
{
    if n <= 0 {
        base
    } else {
        let p = players[n - 1];
        let s0 = after_players(players, n - 1, base, amulet, map);
        let s1 = if p.health.current < 1 { TurnState::GameOver } else { s0 };
        let s2 = if p.pos == amulet { TurnState::Victory } else { s1 };
        if map.tile_at(p.pos) == TileType::Exit { TurnState::NextLevel } else { s2 }
    }
}

/// The state that ends a turn.
pub open spec fn end_of_turn(ts: TurnState, players: Seq<PlayerStatus>, amulet: Option<Point>, map: TileMap) -> TurnState {
    if ts == TurnState::AwaitingInput {
        ts
    } else {
        after_players(players, players.len() as int, next_in_turn(ts), amulet_cell(amulet), map)
    }
}

/// The turn cycle: while every player has hit points left and stands
/// neither on the amulet nor on the exit, the player's turn is followed by
/// the monsters', theirs by waiting for input, and waiting for input is
/// left only by input.
pub proof fn lemma_turn_cycle(players: Seq<PlayerStatus>, amulet: Option<Point>, map: TileMap)
    requires
        forall|k: int| 0 <= k < players.len() ==> {
            let p = #[trigger] players[k];
            &&& p.health.current >= 1
            &&& p.pos != amulet_cell(amulet)
            &&& map.tile_at(p.pos) != TileType::Exit
        },
    ensures
        end_of_turn(TurnState::PlayerTurn, players, amulet, map) == TurnState::MonsterTurn,
        end_of_turn(TurnState::MonsterTurn, players, amulet, map) == TurnState::AwaitingInput,
        end_of_turn(TurnState::AwaitingInput, players, amulet, map) == TurnState::AwaitingInput,
{
    lemma_quiet_players(players, players.len() as int, TurnState::MonsterTurn, amulet_cell(amulet), map);
    lemma_quiet_players(players, players.len() as int, TurnState::AwaitingInput, amulet_cell(amulet), map);
}

proof fn lemma_quiet_players(players: Seq<PlayerStatus>, n: int, base: TurnState, amulet: Point, map: TileMap)
    requires
        n <= players.len(),
        forall|k: int| 0 <= k < players.len() ==> {
            let p = #[trigger] players[k];
            &&& p.health.current >= 1
            &&& p.pos != amulet
            &&& map.tile_at(p.pos) != TileType::Exit
        },
    ensures
        after_players(players, n, base, amulet, map) == base,
    decreases n,
{
    if n > 0 {
        lemma_quiet_players(players, n - 1, base, amulet, map);
        let p = players[n - 1];
    }
}

/// A player on the exit always goes down a level, whatever came before.
pub proof fn lemma_exit_wins_last(players: Seq<PlayerStatus>, base: TurnState, amulet: Point, map: TileMap)
    requires
        players.len() > 0,
        map.tile_at(players.last().pos) == TileType::Exit,
    ensures
        after_players(players, players.len() as int, base, amulet, map) == TurnState::NextLevel,
{
}

/// The end of a turn with one player, by priority: on the exit the player
/// goes down a level, else on the amulet it wins, else out of hit points it
/// loses, else the turn passes on; while input is awaited nothing changes.
pub proof fn lemma_end_turn_priority(ts: TurnState, p: PlayerStatus, amulet: Option<Point>, map: TileMap)
    ensures
        end_of_turn(ts, seq![p], amulet, map) == if ts == TurnState::AwaitingInput {
            ts
        } else if map.tile_at(p.pos) == TileType::Exit {
            TurnState::NextLevel
        } else if p.pos == amulet_cell(amulet) {
            TurnState::Victory
        } else if p.health.current < 1 {
            TurnState::GameOver
        } else {
            next_in_turn(ts)
        },
{
    let ps = seq![p];
    assert(ps[0] == p);
    assert(after_players(ps, 0, next_in_turn(ts), amulet_cell(amulet), map) == next_in_turn(ts));
}

/// The end-of-turn system: the player's turn passes to the monsters and
/// theirs back to waiting for input; a player out of hit points ends the
/// game, one on the amulet wins, one on the exit goes down a level. While
/// input is awaited nothing changes.
pub fn end_turn(turn_state: &mut TurnState, players: &Vec<PlayerStatus>, amulet: Option<Point>, map: &TileMap)
    requires
        map.wf(),
        forall|k: int| 0 <= k < players@.len() ==> on_map(#[trigger] players@[k].pos),
    ensures
        *final(turn_state) == end_of_turn(*old(turn_state), players@, amulet, *map),
{
    let mut new_state = match *turn_state {
        TurnState::AwaitingInput => return,
        TurnState::PlayerTurn => TurnState::MonsterTurn,
        TurnState::MonsterTurn => TurnState::AwaitingInput,
        other => other,
    };
    let amulet_position = match amulet {
        Some(p) => p,
        None => Point::new(-1, -1),
    };
    let ghost base = new_state;
    let mut k: usize = 0;
    while k < players.len()
        invariant
            k <= players@.len(),
            map.wf(),
            forall|j: int| 0 <= j < players@.len() ==> on_map(#[trigger] players@[j].pos),
            amulet_position == amulet_cell(amulet),
            new_state == after_players(players@, k as int, base, amulet_position, *map),
        decreases players@.len() - k,
    {
        let p = players[k];
        if p.health.current < 1 {
            new_state = TurnState::GameOver;
        }
        if p.pos == amulet_position {
            new_state = TurnState::Victory;
        }
        if map.tiles[map.point2d_to_index(p.pos)] == TileType::Exit {
            new_state = TurnState::NextLevel;
        }
        k = k + 1;
    }
    *turn_state = new_state;
}

} // verus!
