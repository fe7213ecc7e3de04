use vstd::prelude::*;
use crate::geometry::{Point, Rect};
use crate::map::{spec_point_of, TileMap, TileType, on_map, NUM_TILES};
use crate::map_builder::{on_edge, lemma_dug_off_edge, amulet_rule, room_cell, room_drawn, by_center_x, in_rooms_from, on_corridor, room_in_bounds, rooms_disjoint, sorted_by_center_x, joined, NUM_ROOMS};
use crate::map_builder::rooms::first_room_center;
use crate::pathing::{DistanceField, pathing_ok};
use bracket_lib::random::RandomNumberGenerator;

verus! {

/// A rooms-and-corridors level without theme or monsters: the map, its
/// rooms, and where the player and the amulet start.
pub struct MapBuilder {
    pub map: TileMap,
    pub rooms: Vec<Rect>,
    pub player_start: Point,
    pub amulet_start: Point,
}

impl MapBuilder {
    /// Lays out rooms and corridors in solid rock; the player starts in the
    /// first room, the amulet on the tile farthest from the player.
    /// Returns the builder and whether all `NUM_ROOMS` rooms were placed.
    pub fn new<F: Fn(&TileMap, usize) -> DistanceField>(random: &mut RandomNumberGenerator, pathing: &F) -> (r: (MapBuilder, bool))
        requires
            pathing_ok(pathing),
        ensures
            r.1 == (r.0.rooms@.len() == NUM_ROOMS),
            forall|k: int| 0 <= k < r.0.rooms@.len() ==> room_drawn(#[trigger] r.0.rooms@[k]),
            r.0.map.wf(),
            forall|i: int| 0 <= i < NUM_TILES ==> !(#[trigger] r.0.map.revealed_tiles@[i]),
            r.0.rooms@.len() <= NUM_ROOMS,
            rooms_disjoint(r.0.rooms@),
            forall|k: int| 0 <= k < r.0.rooms@.len() ==> room_in_bounds(#[trigger] r.0.rooms@[k]),
            forall|i: int| 0 <= i < NUM_TILES ==> #[trigger] r.0.map.tiles@[i] == TileType::Wall || r.0.map.tiles@[i] == TileType::Floor,
            forall|k: int, i: int| 0 <= k < r.0.rooms@.len() && room_cell(#[trigger] r.0.rooms@[k], i) ==> #[trigger] r.0.map.tiles@[i] == TileType::Floor,
            exists|order: Seq<Rect>| {
                &&& order.to_multiset() == r.0.rooms@.to_multiset()
                &&& sorted_by_center_x(order)
                &&& forall|k: int| 1 <= k < order.len() ==> joined(r.0.map.tiles@,
                        (#[trigger] order[k - 1]).spec_center(), order[k].spec_center())
            },
            forall|k: int| 1 <= k < by_center_x(r.0.rooms@).len() ==> joined(r.0.map.tiles@,
                (#[trigger] by_center_x(r.0.rooms@)[k - 1]).spec_center(), by_center_x(r.0.rooms@)[k].spec_center()),
            forall|i: int| 0 <= i < NUM_TILES && #[trigger] r.0.map.tiles@[i] == TileType::Floor
                ==> in_rooms_from(r.0.rooms@, 0, i) || on_corridor(by_center_x(r.0.rooms@), i),
            forall|i: int| 0 <= i < NUM_TILES && on_edge(#[trigger] spec_point_of(i)) ==> r.0.map.tiles@[i] == TileType::Wall,
            r.0.player_start == first_room_center(r.0.rooms@),
            amulet_rule(pathing, &r.0.map, r.0.player_start, Point::zero_spec(), r.0.amulet_start),
            on_map(r.0.player_start),
            on_map(r.0.amulet_start),
    {
        let mut layout = crate::map_builder::MapBuilder::empty();
        layout.fill(TileType::Wall);
        let ghost walled = layout.map.tiles@;
        let done = layout.build_random_rooms(random);
        proof {
            assert forall|k: int| 0 <= k < layout.rooms@.len() implies room_in_bounds(#[trigger] layout.rooms@[k]) by {
                assert(room_drawn(layout.rooms@[k]));
            }
        }
        let ghost after_rooms = layout.map.tiles@;
        layout.build_corridors(random);
        proof {
            assert forall|i: int| 0 <= i < NUM_TILES implies #[trigger] layout.map.tiles@[i] == TileType::Wall || layout.map.tiles@[i] == TileType::Floor by {
                assert(after_rooms[i] == TileType::Wall || after_rooms[i] == TileType::Floor);
            }
            assert forall|k: int, i: int| 0 <= k < layout.rooms@.len() && room_cell(#[trigger] layout.rooms@[k], i) implies
                #[trigger] layout.map.tiles@[i] == TileType::Floor by {
                assert(crate::map_builder::in_rooms_from(layout.rooms@, 0, i));
                assert(after_rooms[i] == TileType::Floor);
            }
            assert forall|i: int| 0 <= i < NUM_TILES && #[trigger] layout.map.tiles@[i] == TileType::Floor
                implies in_rooms_from(layout.rooms@, 0, i) || on_corridor(by_center_x(layout.rooms@), i) by {
                if layout.map.tiles@[i] == after_rooms[i] {
                    assert(walled[i] == TileType::Wall);
                }
            }
            assert forall|i: int| 0 <= i < NUM_TILES && on_edge(#[trigger] spec_point_of(i)) implies layout.map.tiles@[i] == TileType::Wall by {
                if layout.map.tiles@[i] == TileType::Floor {
                    lemma_dug_off_edge(layout.rooms@, i);
                }
            }
        }
        if layout.rooms.len() > 0 {
            layout.player_start = layout.rooms[0].center();
        }
        layout.place_amulet(pathing);
        proof {
            crate::map_builder::lemma_amulet_on_map(pathing, &layout.map, layout.player_start, Point::zero_spec(), layout.amulet_start);
        }
        (MapBuilder {
            map: layout.map,
            rooms: layout.rooms,
            player_start: layout.player_start,
            amulet_start: layout.amulet_start,
        }, done)
    }
}

} // verus!
