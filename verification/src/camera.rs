use vstd::prelude::*;

use crate::geometry::Point;
use crate::map::{DISPLAY_HEIGHT, DISPLAY_WIDTH};

verus! {

/// The part of the map on screen: columns `left_x..right_x` and rows `top_y..bottom_y`.
pub struct Camera {
    pub left_x: i32,
    pub right_x: i32,
    pub top_y: i32,
    pub bottom_y: i32,
}

/// The player's position keeps the camera's edges within `i32`.
pub open spec fn camera_fits(p: Point) -> bool {
    i32::MIN + DISPLAY_WIDTH / 2 <= p.x <= i32::MAX - DISPLAY_WIDTH / 2
        && i32::MIN + DISPLAY_HEIGHT / 2 <= p.y <= i32::MAX - DISPLAY_HEIGHT / 2
}

impl Camera {
    /// The camera is centered on `p`: half a display to either side of it.
    pub open spec fn centered_on(&self, p: Point) -> bool {
        &&& self.left_x == p.x - DISPLAY_WIDTH / 2
        &&& self.right_x == p.x + DISPLAY_WIDTH / 2
        &&& self.top_y == p.y - DISPLAY_HEIGHT / 2
        &&& self.bottom_y == p.y + DISPLAY_HEIGHT / 2
    }

    /// A camera centered on the player's position.
    pub fn new(player_position: Point) -> (c: Camera)
        requires
            camera_fits(player_position),
        ensures
            c.centered_on(player_position),
    {
        Camera {
            left_x: player_position.x - DISPLAY_WIDTH / 2,
            right_x: player_position.x + DISPLAY_WIDTH / 2,
            top_y: player_position.y - DISPLAY_HEIGHT / 2,
            bottom_y: player_position.y + DISPLAY_HEIGHT / 2,
        }
    }

    /// Centers the camera on the player's new position.
    pub fn on_player_move(&mut self, player_position: Point)
        requires
            camera_fits(player_position),
        ensures
            final(self).centered_on(player_position),
    {
        self.left_x = player_position.x - DISPLAY_WIDTH / 2;
        self.right_x = player_position.x + DISPLAY_WIDTH / 2;
        self.top_y = player_position.y - DISPLAY_HEIGHT / 2;
        self.bottom_y = player_position.y + DISPLAY_HEIGHT / 2;
    }
}

/// Moving the camera with the player leaves it as a new camera at that position would be:
/// it no longer depends on where it was before.
pub proof fn lemma_camera_follows(moved: Camera, fresh: Camera, p: Point)
    requires
        moved.centered_on(p),
        fresh.centered_on(p),
    ensures
        moved == fresh,
{
}

} // verus!
