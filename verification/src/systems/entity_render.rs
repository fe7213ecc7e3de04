use vstd::prelude::*;
use crate::camera::Camera;
use crate::geometry::Point;

verus! {

/// The position relative to the view's top-left corner fits in `i32`.
pub open spec fn fits_on_screen(p: Point, c: Camera) -> bool {
    i32::MIN <= p.x - c.left_x <= i32::MAX && i32::MIN <= p.y - c.top_y <= i32::MAX
}

/// A map position relative to the view's top-left corner.
pub open spec fn on_screen(p: Point, c: Camera) -> Point {
    Point { x: (p.x - c.left_x) as i32, y: (p.y - c.top_y) as i32 }
}

/// The entity-render system: each entity is drawn at its position relative
/// to the view's top-left corner. Returns the screen positions in the
/// entities' order.
pub fn entity_render(camera: &Camera, positions: &Vec<Point>) -> (screen: Vec<Point>)
    requires
        forall|k: int| 0 <= k < positions@.len() ==> fits_on_screen(#[trigger] positions@[k], *camera),
    ensures
        screen@.len() == positions@.len(),
        forall|k: int| 0 <= k < screen@.len() ==> #[trigger] screen@[k] == on_screen(positions@[k], *camera),
{
    let mut screen: Vec<Point> = Vec::new();
    let mut k: usize = 0;
    while k < positions.len()
        invariant
            k <= positions@.len(),
            forall|j: int| 0 <= j < positions@.len() ==> fits_on_screen(#[trigger] positions@[j], *camera),
            screen@.len() == k,
            forall|j: int| 0 <= j < k ==> #[trigger] screen@[j] == on_screen(positions@[j], *camera),
        decreases positions@.len() - k,
    {
        let p = positions[k];
        screen.push(Point::new(p.x - camera.left_x, p.y - camera.top_y));
        k = k + 1;
    }
    screen
}

} // verus!
