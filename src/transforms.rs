use crate::player::{position_in_range, Player, MAX_STEP};
use crate::vector::Vector3;
use vstd::prelude::*;

verus! {

/// Vertical field of view of the perspective projection: 72 degrees.
pub const FOV_MDEG: u32 = 72_000;

/// Near and far planes of the perspective projection, in micro-units.
pub const NEAR_MICRO: u64 = 100_000;
pub const FAR_MICRO: u64 = 100_000_000;

/// Height, in micro-units, at which the terrain is drawn below the player.
pub const TERRAIN_DROP: i64 = 5_000_000;

/// The parameters of a projection; the matrix is built from them by a
/// matrix library.
#[derive(PartialEq, Eq, Structural, Clone, Copy, Debug)]
pub enum Projection {
    /// Perspective with aspect ratio `aspect_width / aspect_height`,
    /// vertical field of view in millidegrees and clip planes in micro-units.
    Perspective { fov_mdeg: u32, aspect_width: u32, aspect_height: u32, near: u64, far: u64 },
    /// Orthographic box, in units.
    Orthographic { left: i32, right: i32, bottom: i32, top: i32, z_near: i32, z_far: i32 },
}

pub open spec fn projection_spec(aspect_width: u32, aspect_height: u32, is_perspective: bool) -> Projection {
    if is_perspective {
        Projection::Perspective {
            fov_mdeg: FOV_MDEG,
            aspect_width,
            aspect_height,
            near: NEAR_MICRO,
            far: FAR_MICRO,
        }
    } else {
        Projection::Orthographic { left: -4i32, right: 4i32, bottom: -3i32, top: 3i32, z_near: -1i32, z_far: 6i32 }
    }
}

/// The projection for an aspect ratio `aspect_width / aspect_height`: a
/// 72-degree perspective with planes at 0.1 and 100, or the fixed box
/// `[-4, 4] x [-3, 3] x [-1, 6]`.
pub fn create_projection(aspect_width: u32, aspect_height: u32, is_perspective: bool) -> (r:
    Projection)
    ensures
        r == projection_spec(aspect_width, aspect_height, is_perspective),
{
    if is_perspective {
        Projection::Perspective {
            fov_mdeg: FOV_MDEG,
            aspect_width,
            aspect_height,
            near: NEAR_MICRO,
            far: FAR_MICRO,
        }
    } else {
        Projection::Orthographic { left: -4i32, right: 4i32, bottom: -3i32, top: 3i32, z_near: -1i32, z_far: 6i32 }
    }
}

/// Where the terrain is drawn relative to the camera: centred under the
/// player by `half_extent` and dropped below it, i.e. the anchor
/// `(x - half, -5, z - half)` seen from the player.
pub fn model_translation(player: &Player, half_extent: i64) -> (r: Vector3)
    requires
        position_in_range(player.player_position),
        0 <= half_extent <= MAX_STEP,
    ensures
        r.x == -half_extent,
        r.y == -TERRAIN_DROP - player.player_position.y,
        r.z == -half_extent,
{
    let p = player.player_position;
    let anchor = Vector3::new(p.x - half_extent, -TERRAIN_DROP, p.z - half_extent);
    player.get_relative_position(anchor)
}

} // verus!
