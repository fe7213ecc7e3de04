use vstd::prelude::*;
use crate::geometry::Point;
use crate::map::{TileMap, NUM_TILES, spec_point_of};

verus! {

/// A distance field over the map: for each tile, the number of steps from
/// the search's start along `TileMap::available_exits`, or `None` where the
/// search did not reach. The application fills it with bracket-lib's
/// Dijkstra search, which runs on an impl of bracket-lib's `BaseMap` trait
/// and so cannot be called from here; the builders take the search as a
/// function argument.
pub type DistanceField = Vec<Option<u32>>;

/// Depth at which the application's search stops.
pub const MAX_DEPTH: u32 = 1024;

/// What a breadth-first search over `TileMap::available_exits` from tile
/// `start`, stopping below depth `MAX_DEPTH`, gives: one entry per tile;
/// every tile one step from the start is reached at distance one; a tile
/// one step from a tile reached at distance `v` (with `v + 1` under the
/// depth limit) is reached at distance `v + 1` or less; every reached
/// distance lies in `1..MAX_DEPTH`; a tile reached at distance one is a
/// step from the start, and one reached at a greater distance `v` is a step
/// from a tile reached at `v - 1`. (The start itself is not given distance
/// zero: it counts as reached only when a step leads back onto it.)
pub open spec fn is_search_from(map: TileMap, start: usize, d: Seq<Option<u32>>) -> bool {
    &&& d.len() == NUM_TILES
    &&& forall|k: int| 0 <= k < map.spec_exits(start as int).len()
            ==> d[#[trigger] map.spec_exits(start as int)[k] as int] == Some(1u32)
    &&& forall|i: int, k: int| 0 <= i < NUM_TILES && 0 <= k < map.spec_exits(i).len()
            && (#[trigger] d[i]) is Some && d[i]->0 + 1 < MAX_DEPTH
            ==> (d[#[trigger] map.spec_exits(i)[k] as int] is Some
                && d[map.spec_exits(i)[k] as int]->0 <= d[i]->0 + 1)
    &&& forall|j: int| 0 <= j < NUM_TILES && (#[trigger] d[j]) is Some ==> 1 <= d[j]->0 < MAX_DEPTH
    &&& forall|j: int| 0 <= j < NUM_TILES && (#[trigger] d[j]) == Some(1u32)
            ==> exists|k: int| 0 <= k < map.spec_exits(start as int).len()
                && #[trigger] map.spec_exits(start as int)[k] as int == j
    &&& forall|j: int| 0 <= j < NUM_TILES && (#[trigger] d[j]) is Some && d[j]->0 > 1
            ==> exists|i: int, k: int| 0 <= i < NUM_TILES && 0 <= k < map.spec_exits(i).len()
                && #[trigger] map.spec_exits(i)[k] as int == j && d[i] == Some((d[j]->0 - 1) as u32)
}

/// What the builders ask of the search they are given: it may be called on
/// any map and start, it answers with one entry per tile, on a whole map
/// and a tile of it the answer is that of a search from there, and two
/// calls on the same map and start give the same answer.
pub open spec fn pathing_ok<F: Fn(&TileMap, usize) -> DistanceField>(f: &F) -> bool {
    &&& forall|m: &TileMap, s: usize| #[trigger] f.requires((m, s))
    &&& forall|m: &TileMap, s: usize, d: DistanceField| #[trigger] f.ensures((m, s), d) ==> d@.len() == NUM_TILES
    &&& forall|m: &TileMap, s: usize, d: DistanceField| #[trigger] f.ensures((m, s), d) && m.wf() && s < NUM_TILES
            ==> is_search_from(*m, s, d@)
    &&& forall|m: &TileMap, s: usize, d1: DistanceField, d2: DistanceField|
            #[trigger] f.ensures((m, s), d1) && #[trigger] f.ensures((m, s), d2) ==> d1@ == d2@
}

/// Tile `i` is reached, at the greatest distance of all, and no later tile
/// is reached at that distance.
pub open spec fn is_most_distant(d: Seq<Option<u32>>, i: int) -> bool {
    &&& 0 <= i < d.len()
    &&& d[i] is Some
    &&& forall|j: int| 0 <= j < d.len() && (#[trigger] d[j]) is Some ==> d[j]->0 <= d[i]->0
    &&& forall|j: int| i < j < d.len() && (#[trigger] d[j]) is Some ==> d[j]->0 < d[i]->0
}

/// Some tile is reached.
pub open spec fn any_reached(d: Seq<Option<u32>>) -> bool {
    exists|j: int| 0 <= j < d.len() && (#[trigger] d[j]) is Some
}

/// The cell of the farthest reached tile, the last one of several that are
/// equally far; `None` when no tile is reached.
pub fn most_distant(d: &DistanceField) -> (r: Option<Point>)
    requires
        d@.len() <= NUM_TILES,
    ensures
        r is None <==> !any_reached(d@),
        r matches Some(p) ==> exists|i: int| is_most_distant(d@, i) && p == spec_point_of(i),
{
    let mut best: Option<usize> = None;
    let mut best_d: u32 = 0;
    let mut i: usize = 0;
    while i < d.len()
        invariant
            i <= d@.len() <= NUM_TILES,
            best is None <==> !any_reached(d@.subrange(0, i as int)),
            best matches Some(b) ==> is_most_distant(d@.subrange(0, i as int), b as int) && d@[b as int] == Some(best_d),
        decreases d@.len() - i,
    {
        let ghost prev = d@.subrange(0, i as int);
        let ghost next = d@.subrange(0, i + 1);
        assert forall|j: int| 0 <= j < i implies next[j] == prev[j] by {}
        match d[i] {
            Some(v) => {
                if best.is_none() || v >= best_d {
                    best = Some(i);
                    best_d = v;
                }
            },
            None => {},
        }
        proof {
            if any_reached(prev) {
                let j = choose|j: int| 0 <= j < prev.len() && (#[trigger] prev[j]) is Some;
                assert(next[j] is Some);
            }
            if d@[i as int] is Some {
                assert(next[i as int] is Some);
            }
            if any_reached(next) && d@[i as int] is None {
                let j = choose|j: int| 0 <= j < next.len() && (#[trigger] next[j]) is Some;
                assert(prev[j] is Some);
            }
        }
        i = i + 1;
    }
    assert(d@.subrange(0, d@.len() as int) =~= d@);
    match best {
        Some(b) => {
            proof { crate::map::lemma_point_idx(b as int); }
            Some(Point { x: (b % 80) as i32, y: (b / 80) as i32 })
        },
        None => None,
    }
}

} // verus!
