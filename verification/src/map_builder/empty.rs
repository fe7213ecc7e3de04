use vstd::prelude::*;
use crate::geometry::Point;
use crate::map::{on_map, TileMap, TileType, NUM_TILES, SCREEN_WIDTH, SCREEN_HEIGHT};
use crate::map_builder::{MapBuilder, amulet_rule};
use crate::pathing::{DistanceField, pathing_ok};
use crate::random::rng_range;
use bracket_lib::random::RandomNumberGenerator;

verus! {

/// Builds an open floor with monsters scattered at random.
pub struct EmptyArchitect {}

/// Number of monsters that the open layout scatters.
pub const EMPTY_MONSTERS: usize = 50;

/// The open floor that `EmptyArchitect::new` lays out.
pub open spec fn open_layout<F: Fn(&TileMap, usize) -> DistanceField>(pathing: &F, mb: &MapBuilder) -> bool {
    &&& mb.wf()
    &&& crate::map_builder::themed_by(mb, 0)
    &&& forall|i: int| 0 <= i < NUM_TILES ==> #[trigger] mb.map.tiles@[i] == TileType::Floor
    &&& forall|i: int| 0 <= i < NUM_TILES ==> !(#[trigger] mb.map.revealed_tiles@[i])
    &&& mb.rooms@.len() == 0
    &&& mb.player_start == (Point { x: 40, y: 25 })
    &&& amulet_rule(pathing, &mb.map, mb.player_start, Point::zero_spec(), mb.amulet_start)
    &&& mb.monster_spawns@.len() == EMPTY_MONSTERS
    &&& forall|k: int| 0 <= k < EMPTY_MONSTERS ==>
        1 <= (#[trigger] mb.monster_spawns@[k]).x < SCREEN_WIDTH && 1 <= mb.monster_spawns@[k].y < SCREEN_HEIGHT
}

impl EmptyArchitect {
    /// An all-floor level: the player at the center, the amulet on the tile
    /// farthest from the player, `EMPTY_MONSTERS` monsters at random cells
    /// off the top row and left column.
    pub fn new<F: Fn(&TileMap, usize) -> DistanceField>(&mut self, random: &mut RandomNumberGenerator, pathing: &F) -> (mb: MapBuilder)
        requires
            pathing_ok(pathing),
        ensures
            open_layout(pathing, &mb),
    {
        let mut mb = MapBuilder::empty();
        mb.fill(TileType::Floor);
        mb.player_start = Point::new(SCREEN_WIDTH / 2, SCREEN_HEIGHT / 2);
        mb.place_amulet(pathing);
        proof {
            crate::map_builder::lemma_amulet_on_map(pathing, &mb.map, mb.player_start, Point::zero_spec(), mb.amulet_start);
        }
        let ghost map = mb.map;
        let ghost amulet_start = mb.amulet_start;
        let mut k: usize = 0;
        while k < EMPTY_MONSTERS
            invariant
                mb.wf(),
                crate::map_builder::themed_by(&mb, 0),
                mb.map == map,
                mb.rooms@.len() == 0,
                mb.player_start == (Point { x: 40, y: 25 }),
                mb.amulet_start == amulet_start,
                k <= EMPTY_MONSTERS,
                mb.monster_spawns@.len() == k,
                forall|j: int| 0 <= j < k ==>
                    1 <= (#[trigger] mb.monster_spawns@[j]).x < SCREEN_WIDTH && 1 <= mb.monster_spawns@[j].y < SCREEN_HEIGHT,
            decreases EMPTY_MONSTERS - k,
        {
            let x = rng_range(random, 1, SCREEN_WIDTH);
            let y = rng_range(random, 1, SCREEN_HEIGHT);
            mb.monster_spawns.push(Point::new(x, y));
            k = k + 1;
        }
        mb
    }

    pub fn who_am_i(&self) -> (name: String)
        ensures
            name@ == "EmptyArchitect"@,
    {
        broadcast use vstd::string::group_string_axioms;
        "EmptyArchitect".to_string()
    }
}

} // verus!
