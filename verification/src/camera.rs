use vstd::prelude::*;
use crate::geometry::Point;

verus! {

/// Width of the view, in tiles.
pub const DISPLAY_WIDTH: i32 = 40;
/// Height of the view, in tiles.
pub const DISPLAY_HEIGHT: i32 = 25;

/// The part of the map on screen.
pub struct Camera {
    pub left_x: i32,
    pub right_x: i32,
    pub top_y: i32,
    pub bottom_y: i32,
}

/// The view centered on a position.
pub open spec fn centered_on(c: Camera, p: Point) -> bool {
    &&& c.left_x == p.x - DISPLAY_WIDTH / 2
    &&& c.right_x == p.x + DISPLAY_WIDTH / 2
    &&& c.top_y == p.y - DISPLAY_HEIGHT / 2
    &&& c.bottom_y == p.y + DISPLAY_HEIGHT / 2
}

/// A position whose view edges fit in `i32`.
pub open spec fn viewable(p: Point) -> bool {
    &&& i32::MIN <= p.x - DISPLAY_WIDTH / 2
    &&& p.x + DISPLAY_WIDTH / 2 <= i32::MAX
    &&& i32::MIN <= p.y - DISPLAY_HEIGHT / 2
    &&& p.y + DISPLAY_HEIGHT / 2 <= i32::MAX
}

impl Camera {
    pub fn new(player_position: Point) -> (c: Camera)
        requires
            viewable(player_position),
        ensures
            centered_on(c, player_position),
    {
        Camera {
            left_x: player_position.x - DISPLAY_WIDTH / 2,
            right_x: player_position.x + DISPLAY_WIDTH / 2,
            top_y: player_position.y - DISPLAY_HEIGHT / 2,
            bottom_y: player_position.y + DISPLAY_HEIGHT / 2,
        }
    }

    /// Recenters the view on the player.
    pub fn on_player_move(&mut self, player_position: Point)
        requires
            viewable(player_position),
        ensures
            centered_on(*final(self), player_position),
    {
        self.left_x = player_position.x - DISPLAY_WIDTH / 2;
        self.right_x = player_position.x + DISPLAY_WIDTH / 2;
        self.top_y = player_position.y - DISPLAY_HEIGHT / 2;
        self.bottom_y = player_position.y + DISPLAY_HEIGHT / 2;
    }
}

} // verus!
