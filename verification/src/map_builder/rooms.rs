use vstd::prelude::*;
use crate::geometry::{Point, Rect};
use crate::map::{spec_point_of, on_map, TileMap, TileType, NUM_TILES};
use crate::map_builder::{on_edge, lemma_dug_off_edge, MapBuilder, amulet_rule, room_cell, room_drawn, by_center_x, in_rooms_from, on_corridor, room_in_bounds, rooms_disjoint, sorted_by_center_x, joined, NUM_ROOMS};
use crate::pathing::{DistanceField, pathing_ok};
use bracket_lib::random::RandomNumberGenerator;

verus! {

/// Builds rectangular rooms joined by corridors.
pub struct RoomsArchitect {}

/// Where the player starts among rooms: the first room's center, or the
/// map's corner when there is no room.
pub open spec fn first_room_center(rooms: Seq<Rect>) -> Point {
    if rooms.len() > 0 { rooms[0].spec_center() } else { Point::zero_spec() }
}

/// The rooms and corridors that `RoomsArchitect::new` lays out.
pub open spec fn rooms_layout<F: Fn(&TileMap, usize) -> DistanceField>(pathing: &F, mb: &MapBuilder) -> bool {
    &&& mb.wf()
    &&& crate::map_builder::themed_by(mb, 0)
    &&& forall|i: int| 0 <= i < NUM_TILES ==> !(#[trigger] mb.map.revealed_tiles@[i])
    &&& mb.rooms@.len() <= NUM_ROOMS
    &&& rooms_disjoint(mb.rooms@)
    &&& forall|k: int| 0 <= k < mb.rooms@.len() ==> room_drawn(#[trigger] mb.rooms@[k])
    &&& forall|k: int| 0 <= k < mb.rooms@.len() ==> room_in_bounds(#[trigger] mb.rooms@[k])
    &&& forall|i: int| 0 <= i < NUM_TILES ==> #[trigger] mb.map.tiles@[i] == TileType::Wall || mb.map.tiles@[i] == TileType::Floor
    &&& forall|k: int, i: int| 0 <= k < mb.rooms@.len() && room_cell(#[trigger] mb.rooms@[k], i) ==> #[trigger] mb.map.tiles@[i] == TileType::Floor
    &&& exists|order: Seq<Rect>| {
        &&& order.to_multiset() == mb.rooms@.to_multiset()
        &&& sorted_by_center_x(order)
        &&& forall|k: int| 1 <= k < order.len() ==> joined(mb.map.tiles@,
                (#[trigger] order[k - 1]).spec_center(), order[k].spec_center())
    }
    &&& forall|k: int| 1 <= k < by_center_x(mb.rooms@).len() ==> joined(mb.map.tiles@,
            (#[trigger] by_center_x(mb.rooms@)[k - 1]).spec_center(), by_center_x(mb.rooms@)[k].spec_center())
    &&& forall|i: int| 0 <= i < NUM_TILES && #[trigger] mb.map.tiles@[i] == TileType::Floor
            ==> in_rooms_from(mb.rooms@, 0, i) || on_corridor(by_center_x(mb.rooms@), i)
    &&& forall|i: int| 0 <= i < NUM_TILES && on_edge(#[trigger] spec_point_of(i)) ==> mb.map.tiles@[i] == TileType::Wall
    &&& mb.player_start == first_room_center(mb.rooms@)
    &&& mb.monster_spawns@.len() == if mb.rooms@.len() > 0 { mb.rooms@.len() - 1 } else { 0 }
    &&& forall|k: int| 0 <= k < mb.monster_spawns@.len() ==> #[trigger] mb.monster_spawns@[k] == mb.rooms@[k + 1].spec_center()
    &&& amulet_rule(pathing, &mb.map, mb.player_start, Point::zero_spec(), mb.amulet_start)
    &&& on_map(mb.player_start)
    &&& on_map(mb.amulet_start)
}

impl RoomsArchitect {
    /// Lays out rooms and corridors in solid rock: the player starts in the
    /// first room, one monster in each other room, the amulet on the tile
    /// farthest from the player.
    /// Returns the builder and whether all `NUM_ROOMS` rooms were placed.
    pub fn new<F: Fn(&TileMap, usize) -> DistanceField>(&mut self, random: &mut RandomNumberGenerator, pathing: &F) -> (r: (MapBuilder, bool))
        requires
            pathing_ok(pathing),
        ensures
            rooms_layout(pathing, &r.0),
            r.1 == (r.0.rooms@.len() == NUM_ROOMS),
    {
        let mut mb = MapBuilder::empty();
        mb.fill(TileType::Wall);
        let ghost walled = mb.map.tiles@;
        let done = mb.build_random_rooms(random);
        proof {
            assert forall|k: int| 0 <= k < mb.rooms@.len() implies room_in_bounds(#[trigger] mb.rooms@[k]) by {
                assert(room_drawn(mb.rooms@[k]));
            }
        }
        let ghost after_rooms = mb.map.tiles@;
        mb.build_corridors(random);
        proof {
            assert forall|i: int| 0 <= i < NUM_TILES implies #[trigger] mb.map.tiles@[i] == TileType::Wall || mb.map.tiles@[i] == TileType::Floor by {
                assert(after_rooms[i] == TileType::Wall || after_rooms[i] == TileType::Floor);
            }
            assert forall|k: int, i: int| 0 <= k < mb.rooms@.len() && room_cell(#[trigger] mb.rooms@[k], i) implies
                #[trigger] mb.map.tiles@[i] == TileType::Floor by {
                assert(crate::map_builder::in_rooms_from(mb.rooms@, 0, i));
                assert(after_rooms[i] == TileType::Floor);
            }
            assert forall|i: int| 0 <= i < NUM_TILES && #[trigger] mb.map.tiles@[i] == TileType::Floor
                implies in_rooms_from(mb.rooms@, 0, i) || on_corridor(by_center_x(mb.rooms@), i) by {
                if mb.map.tiles@[i] == after_rooms[i] {
                    assert(walled[i] == TileType::Wall);
                }
            }
            assert forall|i: int| 0 <= i < NUM_TILES && on_edge(#[trigger] spec_point_of(i)) implies mb.map.tiles@[i] == TileType::Wall by {
                if mb.map.tiles@[i] == TileType::Floor {
                    lemma_dug_off_edge(mb.rooms@, i);
                }
            }
        }
        if mb.rooms.len() > 0 {
            mb.player_start = mb.rooms[0].center();
        }
        mb.place_amulet(pathing);
        proof {
            crate::map_builder::lemma_amulet_on_map(pathing, &mb.map, mb.player_start, Point::zero_spec(), mb.amulet_start);
        }
        let ghost rooms = mb.rooms@;
        let ghost map = mb.map;
        let ghost player_start = mb.player_start;
        let ghost amulet_start = mb.amulet_start;
        let mut k: usize = 1;
        while k < mb.rooms.len()
            invariant
                mb.wf(),
                crate::map_builder::themed_by(&mb, 0),
                mb.rooms@ == rooms,
                mb.map == map,
                mb.player_start == player_start,
                mb.amulet_start == amulet_start,
                1 <= k,
                k <= rooms.len() || k == 1,
                forall|j: int| 0 <= j < rooms.len() ==> room_in_bounds(#[trigger] rooms[j]),
                mb.monster_spawns@.len() == k - 1,
                forall|j: int| 0 <= j < k - 1 ==> #[trigger] mb.monster_spawns@[j] == rooms[j + 1].spec_center(),
            decreases rooms.len() - k,
        {
            let c = mb.rooms[k].center();
            mb.monster_spawns.push(c);
            k = k + 1;
        }
        (mb, done)
    }

    pub fn who_am_i(&self) -> (name: String)
        ensures
            name@ == "RoomsArchitect"@,
    {
        broadcast use vstd::string::group_string_axioms;
        "RoomsArchitect".to_string()
    }
}

} // verus!
