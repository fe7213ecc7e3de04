use vstd::prelude::*;
use crate::camera::Camera;
use crate::geometry::Point;
use crate::glyph::{to_cp437, FontCharType};
use crate::map::{TileMap, TileType, on_map, map_idx};
use crate::systems::entity_render::{fits_on_screen, on_screen};

verus! {

/// The glyph a tile is drawn with: `.` floor, `#` wall, `>` exit.
pub open spec fn map_glyph(t: TileType) -> FontCharType {
    match t {
        TileType::Floor => 46,
        TileType::Wall => 35,
        TileType::Exit => 62,
    }
}

/// A cell within the view: rows `top_y..=bottom_y`, columns `left_x..right_x`.
pub open spec fn in_view(c: Camera, p: Point) -> bool {
    c.top_y <= p.y <= c.bottom_y && c.left_x <= p.x < c.right_x
}

/// A cell that the map is drawn at: in the view, on the map, and seen by
/// the player.
pub open spec fn drawn(map: &TileMap, c: Camera, visible: Seq<Point>, p: Point) -> bool {
    in_view(c, p) && on_map(p) && visible.contains(p)
}

/// A drawn cell: the map cell, where on screen, and the glyph.
#[derive(Clone, Copy, Debug, PartialEq, Eq, Structural)]
pub struct DrawnTile {
    pub cell: Point,
    pub screen: Point,
    pub glyph: FontCharType,
}

fn contains_point(v: &Vec<Point>, p: Point) -> (b: bool)
    ensures
        b == v@.contains(p),
{
    let mut j: usize = 0;
    while j < v.len()
        invariant
            j <= v@.len(),
            forall|k: int| 0 <= k < j ==> v@[k] != p,
        decreases v@.len() - j,
    {
        if v[j] == p {
            return true;
        }
        j = j + 1;
    }
    false
}

/// The map-render system: every cell of the view that lies on the map and
/// that the player sees is drawn with its tile's glyph, at its position
/// relative to the view's top-left corner; nothing else is drawn.
pub fn map_render(map: &TileMap, camera: &Camera, visible: &Vec<Point>) -> (tiles: Vec<DrawnTile>)
    requires
        map.wf(),
        forall|p: Point| drawn(map, *camera, visible@, p) ==> fits_on_screen(p, *camera),
    ensures
        forall|k: int| 0 <= k < tiles@.len() ==> {
            let t = #[trigger] tiles@[k];
            &&& drawn(map, *camera, visible@, t.cell)
            &&& t.screen == on_screen(t.cell, *camera)
            &&& t.glyph == map_glyph(map.tile_at(t.cell))
        },
        forall|p: Point| drawn(map, *camera, visible@, p) ==> exists|k: int| 0 <= k < tiles@.len() && (#[trigger] tiles@[k]).cell == p,
{
    let mut tiles: Vec<DrawnTile> = Vec::new();
    let top = camera.top_y as i64;
    let bottom = camera.bottom_y as i64;
    let left = camera.left_x as i64;
    let right = camera.right_x as i64;
    let mut y: i64 = top;
    while y <= bottom
        invariant
            map.wf(),
            forall|p: Point| drawn(map, *camera, visible@, p) ==> fits_on_screen(p, *camera),
            top == camera.top_y, bottom == camera.bottom_y, left == camera.left_x, right == camera.right_x,
            top <= y <= bottom + 1 || y == top,
            forall|k: int| 0 <= k < tiles@.len() ==> {
                let t = #[trigger] tiles@[k];
                &&& drawn(map, *camera, visible@, t.cell)
                &&& t.screen == on_screen(t.cell, *camera)
                &&& t.glyph == map_glyph(map.tile_at(t.cell))
            },
            forall|p: Point| drawn(map, *camera, visible@, p) && p.y < y ==>
                exists|k: int| 0 <= k < tiles@.len() && (#[trigger] tiles@[k]).cell == p,
        decreases bottom + 1 - y,
    {
        let mut x: i64 = left;
        while x < right
            invariant
                map.wf(),
                forall|p: Point| drawn(map, *camera, visible@, p) ==> fits_on_screen(p, *camera),
                top == camera.top_y, bottom == camera.bottom_y, left == camera.left_x, right == camera.right_x,
                top <= y <= bottom,
                left <= x,
                x <= right || x == left,
                forall|k: int| 0 <= k < tiles@.len() ==> {
                    let t = #[trigger] tiles@[k];
                    &&& drawn(map, *camera, visible@, t.cell)
                    &&& t.screen == on_screen(t.cell, *camera)
                    &&& t.glyph == map_glyph(map.tile_at(t.cell))
                },
                forall|p: Point| drawn(map, *camera, visible@, p) && (p.y < y || (p.y == y && p.x < x)) ==>
                    exists|k: int| 0 <= k < tiles@.len() && (#[trigger] tiles@[k]).cell == p,
            decreases right - x,
        {
            let point = Point::new(x as i32, y as i32);
            if map.in_bounds(point) && contains_point(visible, point) {
                assert(point.x == x && point.y == y);
                assert(drawn(map, *camera, visible@, point));
                assert(fits_on_screen(point, *camera));
                let idx = map_idx(point.x, point.y);
                let glyph = match map.tiles[idx] {
                    TileType::Floor => to_cp437('.'),
                    TileType::Wall => to_cp437('#'),
                    TileType::Exit => to_cp437('>'),
                };
                let ghost before = tiles@;
                tiles.push(DrawnTile { cell: point, screen: Point::new(point.x - camera.left_x, point.y - camera.top_y), glyph });
                proof {
                    assert forall|p: Point| drawn(map, *camera, visible@, p) && (p.y < y || (p.y == y && p.x < x + 1)) implies
                        exists|k: int| 0 <= k < tiles@.len() && (#[trigger] tiles@[k]).cell == p by {
                        if p == point {
                            assert(tiles@[tiles@.len() - 1].cell == p);
                        } else {
                            let k = choose|k: int| 0 <= k < before.len() && (#[trigger] before[k]).cell == p;
                            assert(tiles@[k].cell == p);
                        }
                    }
                }
            } else {
                proof {
                    assert(point.x == x && point.y == y);
                    assert forall|p: Point| drawn(map, *camera, visible@, p) && (p.y < y || (p.y == y && p.x < x + 1)) implies
                        exists|k: int| 0 <= k < tiles@.len() && (#[trigger] tiles@[k]).cell == p by {
                        if p.y == y && p.x == x {
                            assert(p == point);
                        }
                    }
                }
            }
            x = x + 1;
        }
        y = y + 1;
    }
    tiles
}

} // verus!
