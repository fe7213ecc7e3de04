use vstd::prelude::*;
use legion::World;
use crate::geometry::Point;
use crate::components::{FieldOfView, Player};
use crate::map::{TileMap, TileType, on_map, map_idx, spec_idx};
use crate::spawner::{spawn_amulet_of_yala, added, is_amulet_at, Spawned};
use crate::systems::{Carried, EntityId};
use crate::systems::end_turn::{PlayerStatus, end_of_turn, next_in_turn, amulet_cell, lemma_exit_wins_last};
use crate::turn_state::TurnState;

verus! {

/// The level whose goal is the Amulet of Yala; every other level is left
/// by an exit.
pub const AMULET_LEVEL: u32 = 2;

/// Whether an entity goes along to the next level: the player does, and so
/// does every item in the player's pack.
pub open spec fn kept(e: EntityId, player: EntityId, carried: Seq<Carried>) -> bool {
    e == player || carried.contains(Carried { item: e, carrier: player })
}

fn in_pack(e: EntityId, player: EntityId, carried: &Vec<Carried>) -> (b: bool)
    ensures
        b == carried@.contains(Carried { item: e, carrier: player }),
{
    let mut j: usize = 0;
    while j < carried.len()
        invariant
            j <= carried@.len(),
            forall|k: int| 0 <= k < j ==> carried@[k] != (Carried { item: e, carrier: player }),
        decreases carried@.len() - j,
    {
        if carried[j].item == e && carried[j].carrier == player {
            assert(carried@[j as int] == Carried { item: e, carrier: player });
            return true;
        }
        j = j + 1;
    }
    false
}

/// The entities to remove when the player goes down a level: all but the
/// player and the items in its pack, in the order given.
pub fn entities_to_remove(all: &Vec<EntityId>, player: EntityId, carried: &Vec<Carried>) -> (removed: Vec<EntityId>)
    ensures
        removed@ == all@.filter(|e: EntityId| !kept(e, player, carried@)),
{
    let ghost pred = |e: EntityId| !kept(e, player, carried@);
    let mut removed: Vec<EntityId> = Vec::new();
    let mut i: usize = 0;
    while i < all.len()
        invariant
            i <= all@.len(),
            pred == (|e: EntityId| !kept(e, player, carried@)),
            removed@ == all@.take(i as int).filter(pred),
        decreases all@.len() - i,
    {
        reveal_with_fuel(Seq::<EntityId>::filter, 1);
        let e = all[i];
        assert(all@.take(i + 1).drop_last() =~= all@.take(i as int));
        if e != player && !in_pack(e, player, carried) {
            removed.push(e);
            assert(all@.take(i + 1).filter(pred) =~= all@.take(i as int).filter(pred).push(e));
        } else {
            assert(all@.take(i + 1).filter(pred) =~= all@.take(i as int).filter(pred));
        }
        i = i + 1;
    }
    assert(all@.take(all@.len() as int) =~= all@);
    removed
}

/// The player goes down a level: its level rises by one and it stands on
/// the new level's start. Returns the new level.
pub fn level_up(player: &mut Player, position: &mut Point, start: Point) -> (level: u32)
    requires
        old(player).map_level < u32::MAX,
    ensures
        final(player).map_level == old(player).map_level + 1,
        *final(position) == start,
        level == final(player).map_level,
{
    player.map_level = player.map_level + 1;
    *position = start;
    player.map_level
}

/// A new level must be seen afresh: the sight is marked to be worked out
/// again, all else kept.
pub fn refresh_sight(fov: &mut FieldOfView)
    ensures
        final(fov).is_dirty,
        final(fov).radius == old(fov).radius,
        final(fov).visible_tiles == old(fov).visible_tiles,
{
    fov.is_dirty = true;
}

/// Puts the goal of a level at `at`: on the amulet level the Amulet of
/// Yala joins the world and the map is left alone; on every other level
/// the tile there becomes the exit and the world is left alone.
pub fn place_level_goal(ecs: &mut World, map: &mut TileMap, at: Point, map_level: u32)
    requires
        old(map).wf(),
        on_map(at),
    ensures
        final(map).wf(),
        map_level == AMULET_LEVEL ==> *final(map) == *old(map)
            && exists|s: Spawned| #[trigger] added(*old(ecs), *final(ecs), s) && is_amulet_at(s, at),
        map_level != AMULET_LEVEL ==> *final(ecs) == *old(ecs)
            && final(map).tiles@ == old(map).tiles@.update(spec_idx(at.x as int, at.y as int), TileType::Exit)
            && final(map).revealed_tiles == old(map).revealed_tiles,
{
    if map_level == AMULET_LEVEL {
        spawn_amulet_of_yala(ecs, at);
    } else {
        let exit = map_idx(at.x, at.y);
        map.tiles.set(exit, TileType::Exit);
    }
}

/// The exit leads down: once the goal of a level other than the amulet
/// level stands at `at`, a turn (other than waiting for input) that ends
/// with the last player standing there ends by going down a level,
/// whatever else happened in it.
pub proof fn lemma_exit_leads_down(
    before: TileMap,
    after: TileMap,
    at: Point,
    players: Seq<PlayerStatus>,
    amulet: Option<Point>,
    ts: TurnState,
)
    requires
        before.wf(),
        on_map(at),
        after.tiles@ == before.tiles@.update(spec_idx(at.x as int, at.y as int), TileType::Exit),
        players.len() > 0,
        players.last().pos == at,
        ts != TurnState::AwaitingInput,
    ensures
        end_of_turn(ts, players, amulet, after) == TurnState::NextLevel,
{
    assert(after.tile_at(at) == TileType::Exit);
    let base = next_in_turn(ts);
    lemma_exit_wins_last(players, base, amulet_cell(amulet), after);
}

/// The amulet wins: on a map whose tile at `at` is not the exit, a turn
/// (other than waiting for input) that ends with the last player standing
/// on the amulet at `at` ends in victory, whatever else happened in it.
pub proof fn lemma_amulet_wins(map: TileMap, at: Point, players: Seq<PlayerStatus>, ts: TurnState)
    requires
        map.wf(),
        on_map(at),
        map.tile_at(at) != TileType::Exit,
        players.len() > 0,
        players.last().pos == at,
        ts != TurnState::AwaitingInput,
    ensures
        end_of_turn(ts, players, Some(at), map) == TurnState::Victory,
{
}

} // verus!
