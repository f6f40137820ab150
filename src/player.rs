use crate::fixed::{
    ceil_sqrt, ceil_sqrt_u128, is_ceil_sqrt, lemma_ceil_sqrt_exists, lemma_mod_of_negative, lemma_scaled_lower,
    lemma_scaled_within, lemma_sq_bound, lemma_trunc_div_scaled, lemma_trunc_div_sq, trunc_div,
    trunc_div_i128,
};
use crate::input::{held, InputState};
use crate::vector::{lerp_component, sqr_len, Vector3};
use vstd::prelude::*;

verus! {

/// Millidegrees in a full turn.
pub const FULL_TURN: i64 = 360_000;

/// Largest pitch, in millidegrees, either way.
pub const PITCH_LIMIT: i64 = 85_000;

/// Length of a unit direction, in thousandths.
pub const UNIT: i64 = 1000;

/// Largest distance, in micro-units, that one update may move.
pub const MAX_STEP: u64 = 1_000_000_000_000_000;

/// Microseconds in a second.
pub const MICROS: u64 = 1_000_000;

/// Default speed: two units per second, in micro-units per second.
pub const DEFAULT_SPEED: u64 = 2_000_000;

/// Default sensitivity: a tenth of a degree per count of pointer motion.
pub const DEFAULT_SENSITIVITY: i64 = 100;

/// Strafe left: `a`.
pub const KEY_LEFT: u8 = 0x61;
/// Strafe right: `d`.
pub const KEY_RIGHT: u8 = 0x64;
/// Forward: `w`.
pub const KEY_FORWARD: u8 = 0x77;
/// Backward: `s`.
pub const KEY_BACKWARD: u8 = 0x73;
/// Up: `e`.
pub const KEY_UP: u8 = 0x65;
/// Down: `q`.
pub const KEY_DOWN: u8 = 0x71;

/// Yaw in `[0, 360°)` and pitch in `[-85°, 85°]`.
pub open spec fn rotation_in_range(r: Vector3) -> bool {
    &&& 0 <= r.x < FULL_TURN
    &&& -PITCH_LIMIT <= r.y <= PITCH_LIMIT
}

/// Each component of a direction lies in `[-1, 1]` (in thousandths).
pub open spec fn is_direction(d: Vector3) -> bool {
    &&& -UNIT <= d.x <= UNIT
    &&& -UNIT <= d.y <= UNIT
    &&& -UNIT <= d.z <= UNIT
}

/// One key's share of a frame's movement: the rotation whose direction
/// it moves along, and whether the vertical part of the accumulated
/// movement is dropped after it.
#[derive(PartialEq, Eq, Structural, Clone, Copy, Debug)]
pub struct MoveStep {
    pub key: u8,
    pub rotation: Vector3,
    pub level: bool,
}

/// The rotation that a movement key moves along, relative to the camera.
pub open spec fn step_rotation(r: Vector3, key: u8) -> Vector3 {
    if key == KEY_LEFT {
        Vector3 { x: (r.x + 270_000) as i64, ..r }
    } else if key == KEY_RIGHT {
        Vector3 { x: (r.x + 90_000) as i64, ..r }
    } else if key == KEY_BACKWARD {
        Vector3 { x: (r.x + 180_000) as i64, y: (-r.y) as i64, ..r }
    } else if key == KEY_UP {
        Vector3 { y: (r.y + 90_000) as i64, ..r }
    } else if key == KEY_DOWN {
        Vector3 { y: (r.y - 90_000) as i64, ..r }
    } else {
        r
    }
}

pub open spec fn step_for(r: Vector3, key: u8) -> MoveStep {
    MoveStep { key, rotation: step_rotation(r, key), level: key == KEY_LEFT || key == KEY_RIGHT }
}

pub open spec fn step_if_held(keys: Map<u8, bool>, r: Vector3, key: u8) -> Seq<MoveStep> {
    if held(keys, key) {
        seq![step_for(r, key)]
    } else {
        seq![]
    }
}

/// The steps of a frame: strafing first, then forward, backward, up, down.
pub open spec fn plan_spec(r: Vector3, keys: Map<u8, bool>) -> Seq<MoveStep> {
    step_if_held(keys, r, KEY_LEFT) + step_if_held(keys, r, KEY_RIGHT) + step_if_held(
        keys,
        r,
        KEY_FORWARD,
    ) + step_if_held(keys, r, KEY_BACKWARD) + step_if_held(keys, r, KEY_UP) + step_if_held(
        keys,
        r,
        KEY_DOWN,
    )
}

/// Distance allowed for one frame, in micro-units.
pub open spec fn move_amount(speed: u64, dt: u64) -> int {
    (speed as int * dt as int) / (MICROS as int)
}

/// The movement of the first `n` steps, each scaled by `b`, in
/// micro-units times thousandths.
pub open spec fn accumulate(steps: Seq<MoveStep>, dirs: Seq<Vector3>, b: int, n: nat) -> (
    int,
    int,
    int,
)
    decreases n,
{
    if n == 0 {
        (0, 0, 0)
    } else {
        let (x, y, z) = accumulate(steps, dirs, b, (n - 1) as nat);
        let d = dirs[n - 1];
        let y2 = if steps[n - 1].level {
            0
        } else {
            y + b * d.y
        };
        (x + b * d.x, y2, z + b * d.z)
    }
}

/// The displacement, in micro-units, of an accumulated movement `m` with
/// budget `b`: capped to length `b`, with the x component negated.
pub open spec fn displacement(m: (int, int, int), b: int) -> (int, int, int) {
    let s = sqr_len(m.0, m.1, m.2);
    if s > (1000 * b) * (1000 * b) {
        let r = ceil_sqrt(s);
        (-trunc_div(m.0 * b, r), trunc_div(m.1 * b, r), trunc_div(m.2 * b, r))
    } else {
        (-trunc_div(m.0, 1000), trunc_div(m.1, 1000), trunc_div(m.2, 1000))
    }
}

/// The frame's displacement for the given keys and directions.
pub open spec fn frame_displacement(
    r: Vector3,
    keys: Map<u8, bool>,
    dirs: Seq<Vector3>,
    b: int,
) -> (int, int, int) {
    let steps = plan_spec(r, keys);
    displacement(accumulate(steps, dirs, b, steps.len()), b)
}

/// A displacement never exceeds its budget.
pub proof fn lemma_displacement_capped(m: (int, int, int), b: int)
    requires
        b >= 0,
    ensures
        ({
            let d = displacement(m, b);
            sqr_len(d.0, d.1, d.2) <= b * b
        }),
{
    let s = sqr_len(m.0, m.1, m.2);
    let d = displacement(m, b);
    if s > (1000 * b) * (1000 * b) {
        let r = ceil_sqrt(s);
        assert(exists|k: int| is_ceil_sqrt(s, k)) by {
            assert(s >= 0) by (nonlinear_arith)
                requires s == m.0 * m.0 + m.1 * m.1 + m.2 * m.2;
            lemma_ceil_sqrt_exists(s);
        }
        assert(r * r >= s && r >= 0);
        assert(r > 0) by (nonlinear_arith)
            requires r * r >= s, s > (1000 * b) * (1000 * b), r >= 0, b >= 0;
        lemma_scaled_within(m.0, m.1, m.2, b, r);
        let t0 = trunc_div(m.0 * b, r);
        assert(d.0 * d.0 == t0 * t0) by (nonlinear_arith)
            requires d.0 == -t0;
    } else {
        lemma_trunc_div_sq(m.0, 1000);
        lemma_trunc_div_sq(m.1, 1000);
        lemma_trunc_div_sq(m.2, 1000);
        let t0 = trunc_div(m.0, 1000);
        let t1 = trunc_div(m.1, 1000);
        let t2 = trunc_div(m.2, 1000);
        assert(sqr_len(t0, t1, t2) <= b * b) by (nonlinear_arith)
            requires
                t0 * t0 * (1000 * 1000) <= m.0 * m.0,
                t1 * t1 * (1000 * 1000) <= m.1 * m.1,
                t2 * t2 * (1000 * 1000) <= m.2 * m.2,
                m.0 * m.0 + m.1 * m.1 + m.2 * m.2 <= (1000 * b) * (1000 * b),
        ;
        assert(d.0 * d.0 == t0 * t0) by (nonlinear_arith)
            requires d.0 == -t0;
    }
}

/// Yaw wrapped into `[0, 360°)`.
pub open spec fn wrap_yaw(v: int) -> int {
    v % (FULL_TURN as int)
}

/// Pitch clamped into `[-85°, 85°]`.
pub open spec fn clamp_pitch(v: int) -> int {
    if v < -PITCH_LIMIT {
        -PITCH_LIMIT as int
    } else if v > PITCH_LIMIT {
        PITCH_LIMIT as int
    } else {
        v
    }
}

/// The camera rotation after pointer motion `(dx, dy)` at sensitivity `sens`.
pub open spec fn turned(r: Vector3, sens: int, dx: int, dy: int) -> Vector3 {
    Vector3 { x: wrap_yaw(r.x + dx * sens) as i64, y: clamp_pitch(r.y - dy * sens) as i64, z: r.z }
}

/// The signed yaw difference from `from` to `to` along the shorter arc.
pub open spec fn yaw_delta(from: int, to: int) -> int {
    let d = to - from;
    if d > 180_000 {
        d - FULL_TURN
    } else if d < -180_000 {
        d + FULL_TURN
    } else {
        d
    }
}

/// `smooth` moved toward `target` by `factor` thousandths of the way, yaw
/// along the shorter arc.
pub open spec fn smoothed(smooth: Vector3, target: Vector3, factor: int) -> Vector3 {
    Vector3 {
        x: wrap_yaw(smooth.x + trunc_div(yaw_delta(smooth.x as int, target.x as int) * factor, 1000)) as i64,
        y: lerp_component(smooth.y as int, target.y as int, factor) as i64,
        z: lerp_component(smooth.z as int, target.z as int, factor) as i64,
    }
}

/// Position components stay far enough from the ends of `i64` for one
/// more update.
pub open spec fn position_in_range(p: Vector3) -> bool {
    &&& i64::MIN + MAX_STEP <= p.x <= i64::MAX - MAX_STEP
    &&& i64::MIN + MAX_STEP <= p.y <= i64::MAX - MAX_STEP
    &&& i64::MIN + MAX_STEP <= p.z <= i64::MAX - MAX_STEP
}

/// `p` moved by `d`.
pub open spec fn moved(p: Vector3, d: (int, int, int)) -> Vector3 {
    Vector3 { x: (p.x + d.0) as i64, y: (p.y + d.1) as i64, z: (p.z + d.2) as i64 }
}

/// Wraps a yaw into `[0, 360°)`.
fn wrap_turn(v: i128) -> (r: i64)
    requires
        v > i128::MIN,
    ensures
        r == wrap_yaw(v as int),
        0 <= r < FULL_TURN,
{
    if v >= 0 {
        ((v as u128) % 360_000) as i64
    } else {
        let k = (((-v) as u128) % 360_000) as i64;
        proof {
            lemma_mod_of_negative(-v as int, FULL_TURN as int);
        }
        if k == 0 {
            0
        } else {
            FULL_TURN - k
        }
    }
}

/// The step for one movement key.
fn make_step(r: Vector3, key: u8) -> (s: MoveStep)
    requires
        rotation_in_range(r),
    ensures
        s == step_for(r, key),
{
    let rotation = if key == KEY_LEFT {
        Vector3 { x: r.x + 270_000, ..r }
    } else if key == KEY_RIGHT {
        Vector3 { x: r.x + 90_000, ..r }
    } else if key == KEY_BACKWARD {
        Vector3 { x: r.x + 180_000, y: -r.y, ..r }
    } else if key == KEY_UP {
        Vector3 { y: r.y + 90_000, ..r }
    } else if key == KEY_DOWN {
        Vector3 { y: r.y - 90_000, ..r }
    } else {
        r
    };
    MoveStep { key, rotation, level: key == KEY_LEFT || key == KEY_RIGHT }
}

/// One key's movement: `direction` scaled by `amount`.
fn move_player(amount: i128, direction: Vector3) -> (r: (i128, i128, i128))
    requires
        0 <= amount <= MAX_STEP,
        is_direction(direction),
    ensures
        r.0 == amount * direction.x && r.1 == amount * direction.y && r.2 == amount * direction.z,
        -1_000_000_000_000_000_000 <= r.0 <= 1_000_000_000_000_000_000,
        -1_000_000_000_000_000_000 <= r.1 <= 1_000_000_000_000_000_000,
        -1_000_000_000_000_000_000 <= r.2 <= 1_000_000_000_000_000_000,
{
    let (dx, dy, dz) = (direction.x as i128, direction.y as i128, direction.z as i128);
    assert(-1_000_000_000_000_000_000 <= amount * dx <= 1_000_000_000_000_000_000) by (nonlinear_arith)
        requires 0 <= amount <= MAX_STEP, -1000 <= dx <= 1000;
    assert(-1_000_000_000_000_000_000 <= amount * dy <= 1_000_000_000_000_000_000) by (nonlinear_arith)
        requires 0 <= amount <= MAX_STEP, -1000 <= dy <= 1000;
    assert(-1_000_000_000_000_000_000 <= amount * dz <= 1_000_000_000_000_000_000) by (nonlinear_arith)
        requires 0 <= amount <= MAX_STEP, -1000 <= dz <= 1000;
    (amount * dx, amount * dy, amount * dz)
}

/// The first-person player: where it stands, where it looks, how fast it
/// moves and how fast it turns.
pub struct Player {
    /// Position in micro-units.
    pub player_position: Vector3,
    /// Yaw, pitch and roll in millidegrees, as driven by the pointer.
    pub camera_rotation: Vector3,
    /// The rotation the view is drawn with, trailing `camera_rotation`.
    pub smooth_camera_rotation: Vector3,
    /// Micro-units per second.
    pub speed: u64,
    /// Millidegrees per count of pointer motion.
    pub sensitivity: i64,
}

impl Player {
    pub open spec fn wf(&self) -> bool {
        &&& rotation_in_range(self.camera_rotation)
        &&& rotation_in_range(self.smooth_camera_rotation)
    }

    /// A player at the origin, looking along +z, at the default speed and
    /// sensitivity.
    pub fn new() -> (r: Player)
        ensures
            r.wf(),
            r.player_position == (Vector3 { x: 0, y: 0, z: 0 }),
            r.camera_rotation == (Vector3 { x: 0, y: 0, z: 0 }),
            r.smooth_camera_rotation == (Vector3 { x: 0, y: 0, z: 0 }),
            r.speed == DEFAULT_SPEED,
            r.sensitivity == DEFAULT_SENSITIVITY,
    {
        Player {
            player_position: Vector3::new(0, 0, 0),
            camera_rotation: Vector3::new(0, 0, 0),
            smooth_camera_rotation: Vector3::new(0, 0, 0),
            speed: DEFAULT_SPEED,
            sensitivity: DEFAULT_SENSITIVITY,
        }
    }

    /// Turns the camera by pointer motion `(x, y)`: yaw grows with `x` and
    /// wraps into `[0, 360°)`, pitch falls with `y` and is clamped to
    /// `[-85°, 85°]`.
    pub fn move_camera(&mut self, x: i64, y: i64)
        requires
            old(self).wf(),
        ensures
            final(self).wf(),
            final(self).camera_rotation == turned(
                old(self).camera_rotation,
                old(self).sensitivity as int,
                x as int,
                y as int,
            ),
            final(self).player_position == old(self).player_position,
            final(self).smooth_camera_rotation == old(self).smooth_camera_rotation,
            final(self).speed == old(self).speed,
            final(self).sensitivity == old(self).sensitivity,
    {
        let sens = self.sensitivity as i128;
        let (xi, yi) = (x as i128, y as i128);
        assert(-0x4000_0000_0000_0000_0000_0000_0000_0000 <= xi * sens <= 0x4000_0000_0000_0000_0000_0000_0000_0000) by (nonlinear_arith)
            requires i64::MIN <= xi <= i64::MAX, i64::MIN <= sens <= i64::MAX;
        assert(-0x4000_0000_0000_0000_0000_0000_0000_0000 <= yi * sens <= 0x4000_0000_0000_0000_0000_0000_0000_0000) by (nonlinear_arith)
            requires i64::MIN <= yi <= i64::MAX, i64::MIN <= sens <= i64::MAX;
        let yaw = wrap_turn(self.camera_rotation.x as i128 + xi * sens);
        let p = self.camera_rotation.y as i128 - yi * sens;
        let pitch: i64 = if p < -85_000 {
            -PITCH_LIMIT
        } else if p > 85_000 {
            PITCH_LIMIT
        } else {
            p as i64
        };
        self.camera_rotation = Vector3 { x: yaw, y: pitch, z: self.camera_rotation.z };
    }

    /// Moves the smoothed rotation toward the camera rotation by `factor`
    /// thousandths of the way (`1000` snaps to it, `0` leaves it).
    pub fn smooth_camera(&mut self, factor: u32)
        requires
            old(self).wf(),
            factor <= 1000,
        ensures
            final(self).wf(),
            final(self).smooth_camera_rotation == smoothed(
                old(self).smooth_camera_rotation,
                old(self).camera_rotation,
                factor as int,
            ),
            final(self).camera_rotation == old(self).camera_rotation,
            final(self).player_position == old(self).player_position,
            final(self).speed == old(self).speed,
            final(self).sensitivity == old(self).sensitivity,
    {
        let s = self.smooth_camera_rotation;
        let t = self.camera_rotation;
        let f = factor as i128;
        let mut dyaw = t.x as i128 - s.x as i128;
        if dyaw > 180_000 {
            dyaw = dyaw - 360_000;
        } else if dyaw < -180_000 {
            dyaw = dyaw + 360_000;
        }
        let ghost dp = t.y - s.y;
        proof {
            lemma_trunc_div_scaled(dyaw as int, f as int, 1000);
            lemma_trunc_div_scaled(dp as int, f as int, 1000);
        }
        assert(-360_000_000 <= dyaw * f <= 360_000_000) by (nonlinear_arith)
            requires -360_000 <= dyaw <= 360_000, 0 <= f <= 1000;
        let yaw = wrap_turn(s.x as i128 + trunc_div_i128(dyaw * f, 1000));
        let towards = s.lerp_vec(t, factor);
        self.smooth_camera_rotation = Vector3 { x: yaw, y: towards.y, z: towards.z };
    }

    /// Moves the player for one frame lasting `dt` microseconds.
    ///
    /// `directions[i]` is the direction, in thousandths, of the rotation of
    /// step `i` of `movement_plan(input)`. Each step adds its direction
    /// scaled by the frame's budget `speed * dt`; a strafing step then drops
    /// the vertical part. A sum longer than the budget is scaled back to it,
    /// and the x component is negated before the position moves.
    pub fn update(&mut self, input: &InputState, directions: &Vec<Vector3>, dt: u64)
        requires
            old(self).wf(),
            position_in_range(old(self).player_position),
            directions@.len() == plan_spec(old(self).camera_rotation, input.view()).len(),
            forall|i: int| 0 <= i < directions@.len() ==> is_direction(#[trigger] directions@[i]),
            move_amount(old(self).speed, dt) <= MAX_STEP,
        ensures
            final(self).player_position == moved(
                old(self).player_position,
                frame_displacement(
                    old(self).camera_rotation,
                    input.view(),
                    directions@,
                    move_amount(old(self).speed, dt),
                ),
            ),
            sqr_len(
                final(self).player_position.x - old(self).player_position.x,
                final(self).player_position.y - old(self).player_position.y,
                final(self).player_position.z - old(self).player_position.z,
            ) <= move_amount(old(self).speed, dt) * move_amount(old(self).speed, dt),
            final(self).camera_rotation == old(self).camera_rotation,
            final(self).smooth_camera_rotation == old(self).smooth_camera_rotation,
            final(self).speed == old(self).speed,
            final(self).sensitivity == old(self).sensitivity,
    {
        let plan = self.movement_plan(input);
        let b = ((self.speed as u128 * dt as u128) / 1_000_000) as i128;
        let mut mx: i128 = 0;
        let mut my: i128 = 0;
        let mut mz: i128 = 0;
        let mut i: usize = 0;
        while i < plan.len()
            invariant
                i <= plan@.len() <= 6,
                directions@.len() == plan@.len(),
                forall|j: int| 0 <= j < directions@.len() ==> is_direction(#[trigger] directions@[j]),
                0 <= b <= MAX_STEP,
                (mx as int, my as int, mz as int) == accumulate(plan@, directions@, b as int, i as nat),
                -(i as int) * 1_000_000_000_000_000_000 <= mx <= (i as int) * 1_000_000_000_000_000_000,
                -(i as int) * 1_000_000_000_000_000_000 <= my <= (i as int) * 1_000_000_000_000_000_000,
                -(i as int) * 1_000_000_000_000_000_000 <= mz <= (i as int) * 1_000_000_000_000_000_000,
            decreases plan@.len() - i,
        {
            let d = directions[i];
            assert(is_direction(directions@[i as int]));
            let (sx, sy, sz) = move_player(b, d);
            mx = mx + sx;
            if plan[i].level {
                my = 0;
            } else {
                my = my + sy;
            }
            mz = mz + sz;
            i += 1;
        }
        let ghost m = (mx as int, my as int, mz as int);
        assert(0 <= mx * mx <= 36_000_000_000_000_000_000_000_000_000_000_000_000) by (nonlinear_arith)
            requires -6_000_000_000_000_000_000 <= mx <= 6_000_000_000_000_000_000;
        assert(0 <= my * my <= 36_000_000_000_000_000_000_000_000_000_000_000_000) by (nonlinear_arith)
            requires -6_000_000_000_000_000_000 <= my <= 6_000_000_000_000_000_000;
        assert(0 <= mz * mz <= 36_000_000_000_000_000_000_000_000_000_000_000_000) by (nonlinear_arith)
            requires -6_000_000_000_000_000_000 <= mz <= 6_000_000_000_000_000_000;
        let sq = mx * mx + my * my + mz * mz;
        let limit = 1000 * b;
        assert(limit * limit <= 1_000_000_000_000_000_000_000_000_000_000_000_000) by (nonlinear_arith)
            requires 0 <= limit <= 1_000_000_000_000_000_000;
        let (ex, ey, ez): (i128, i128, i128) = if sq > limit * limit {
            let r = ceil_sqrt_u128(sq as u128) as i128;
            assert(r > 0) by (nonlinear_arith)
                requires r * r >= sq, sq > limit * limit, r >= 0, limit >= 0;
            assert(-6_000_000_000_000_000_000_000_000_000_000_000 <= mx * b <= 6_000_000_000_000_000_000_000_000_000_000_000) by (nonlinear_arith)
                requires -6_000_000_000_000_000_000 <= mx <= 6_000_000_000_000_000_000, 0 <= b <= MAX_STEP;
            assert(-6_000_000_000_000_000_000_000_000_000_000_000 <= my * b <= 6_000_000_000_000_000_000_000_000_000_000_000) by (nonlinear_arith)
                requires -6_000_000_000_000_000_000 <= my <= 6_000_000_000_000_000_000, 0 <= b <= MAX_STEP;
            assert(-6_000_000_000_000_000_000_000_000_000_000_000 <= mz * b <= 6_000_000_000_000_000_000_000_000_000_000_000) by (nonlinear_arith)
                requires -6_000_000_000_000_000_000 <= mz <= 6_000_000_000_000_000_000, 0 <= b <= MAX_STEP;
            let qx = trunc_div_i128(mx * b, r);
            let qy = trunc_div_i128(my * b, r);
            let qz = trunc_div_i128(mz * b, r);
            (-qx, qy, qz)
        } else {
            (-trunc_div_i128(mx, 1000), trunc_div_i128(my, 1000), trunc_div_i128(mz, 1000))
        };
        proof {
            assert(displacement(m, b as int) == (ex as int, ey as int, ez as int));
            lemma_displacement_capped(m, b as int);
            let (ix, iy, iz, ib) = (ex as int, ey as int, ez as int, b as int);
            assert(ix * ix <= ib * ib && iy * iy <= ib * ib && iz * iz <= ib * ib) by (nonlinear_arith)
                requires ix * ix + iy * iy + iz * iz <= ib * ib;
            lemma_sq_bound(ex as int, b as int);
            lemma_sq_bound(ey as int, b as int);
            lemma_sq_bound(ez as int, b as int);
        }
        let p = self.player_position;
        self.player_position = Vector3 {
            x: p.x + ex as i64,
            y: p.y + ey as i64,
            z: p.z + ez as i64,
        };
    }

    /// `position` as seen from the player: `position - player_position`.
    pub fn get_relative_position(&self, position: Vector3) -> (r: Vector3)
        requires
            i64::MIN <= position.x - self.player_position.x <= i64::MAX,
            i64::MIN <= position.y - self.player_position.y <= i64::MAX,
            i64::MIN <= position.z - self.player_position.z <= i64::MAX,
        ensures
            r.x == position.x - self.player_position.x,
            r.y == position.y - self.player_position.y,
            r.z == position.z - self.player_position.z,
    {
        position.sub(self.player_position)
    }

    /// How much of a frame lasting `dt` microseconds one update may
    /// cover: all of it, unless that would move the player further than
    /// `MAX_STEP`, in which case the longest frame that stays within it.
    pub fn frame_dt(&self, dt: u64) -> (r: u64)
        ensures
            r == if self.speed == 0 || dt <= (MAX_STEP as int * MICROS as int) / (self.speed as int) {
                dt as int
            } else {
                (MAX_STEP as int * MICROS as int) / (self.speed as int)
            },
            move_amount(self.speed, r) <= MAX_STEP,
    {
        if self.speed == 0 {
            assert(move_amount(0, dt) == 0);
            return dt;
        }
        let cap: u128 = (MAX_STEP as u128 * MICROS as u128) / self.speed as u128;
        let r: u64 = if dt as u128 <= cap {
            dt
        } else {
            cap as u64
        };
        let ghost (sp, c, n) = (self.speed as int, cap as int, (MAX_STEP as int * MICROS as int));
        assert(sp * c <= n) by (nonlinear_arith)
            requires sp > 0, c == n / sp, n >= 0;
        assert(sp * r <= n) by (nonlinear_arith)
            requires sp * c <= n, 0 <= r <= c, sp > 0;
        assert((sp * r) / (MICROS as int) <= MAX_STEP) by (nonlinear_arith)
            requires sp * r <= n, n == MAX_STEP as int * MICROS as int;
        r
    }

    /// Whether the player is far enough from the ends of the representable
    /// world for one more update.
    pub fn can_move(&self) -> (r: bool)
        ensures
            r == position_in_range(self.player_position),
    {
        let p = self.player_position;
        let lo = i64::MIN + MAX_STEP as i64;
        let hi = i64::MAX - MAX_STEP as i64;
        lo <= p.x && p.x <= hi && lo <= p.y && p.y <= hi && lo <= p.z && p.z <= hi
    }

    /// The steps of one frame's movement for the keys held in `input`, in
    /// the order in which they are applied. Each step names the rotation
    /// whose direction the caller is to evaluate.
    pub fn movement_plan(&self, input: &InputState) -> (r: Vec<MoveStep>)
        requires
            self.wf(),
        ensures
            r@ == plan_spec(self.camera_rotation, input.view()),
            r@.len() <= 6,
    {
        let rot = self.camera_rotation;
        let mut plan: Vec<MoveStep> = Vec::new();
        let keys: [u8; 6] = [KEY_LEFT, KEY_RIGHT, KEY_FORWARD, KEY_BACKWARD, KEY_UP, KEY_DOWN];
        let ghost ks = seq![KEY_LEFT, KEY_RIGHT, KEY_FORWARD, KEY_BACKWARD, KEY_UP, KEY_DOWN];
        assert(keys@ == ks);
        let mut i: usize = 0;
        while i < 6
            invariant
                i <= 6,
                keys@ == ks,
                rotation_in_range(rot),
                plan@ == plan_prefix(rot, input.view(), ks, i as nat),
                plan@.len() <= i,
            decreases 6 - i,
        {
            let key = keys[i];
            if input.is_pressed(key) {
                plan.push(make_step(rot, key));
            }
            i += 1;
        }
        proof {
            let m = input.view();
            reveal_with_fuel(plan_prefix, 7);
            assert(plan_prefix(rot, m, ks, 1) =~= step_if_held(m, rot, KEY_LEFT));
            assert(plan_prefix(rot, m, ks, 6) =~= plan_spec(rot, m));
        }
        plan
    }
}

/// The steps for the first `n` keys of `ks`.
pub open spec fn plan_prefix(r: Vector3, keys: Map<u8, bool>, ks: Seq<u8>, n: nat) -> Seq<MoveStep>
    decreases n,
{
    if n == 0 {
        seq![]
    } else {
        plan_prefix(r, keys, ks, (n - 1) as nat) + step_if_held(keys, r, ks[n - 1])
    }
}

/// The rotation after each pointer motion of `moves` in turn.
pub open spec fn turned_many(r: Vector3, sens: int, moves: Seq<(i64, i64)>) -> Vector3
    decreases moves.len(),
{
    if moves.len() == 0 {
        r
    } else {
        let last = moves.last();
        turned(turned_many(r, sens, moves.drop_last()), sens, last.0 as int, last.1 as int)
    }
}

/// However many times the camera is turned, and by whatever motion, yaw
/// stays in `[0, 360°)` and pitch in `[-85°, 85°]`.
pub proof fn lemma_turns_stay_in_range(r: Vector3, sens: int, moves: Seq<(i64, i64)>)
    requires
        rotation_in_range(r),
    ensures
        rotation_in_range(turned_many(r, sens, moves)),
    decreases moves.len(),
{
    if moves.len() > 0 {
        lemma_turns_stay_in_range(r, sens, moves.drop_last());
        let last = moves.last();
        let prev = turned_many(r, sens, moves.drop_last());
        vstd::arithmetic::div_mod::lemma_mod_bound(prev.x + last.0 * sens, FULL_TURN as int);
    }
}

/// With the forward key the only movement key held, a frame moves along
/// the camera's own direction by the whole budget (component times budget,
/// in thousandths, rounded toward zero; x negated), as long as the
/// direction is no longer than a unit.
pub proof fn lemma_forward_only(r: Vector3, keys: Map<u8, bool>, d: Vector3, b: int)
    requires
        held(keys, KEY_FORWARD),
        !held(keys, KEY_LEFT),
        !held(keys, KEY_RIGHT),
        !held(keys, KEY_BACKWARD),
        !held(keys, KEY_UP),
        !held(keys, KEY_DOWN),
        sqr_len(d.x as int, d.y as int, d.z as int) <= 1000 * 1000,
        b >= 0,
    ensures
        plan_spec(r, keys) == seq![step_for(r, KEY_FORWARD)],
        frame_displacement(r, keys, seq![d], b) == (
            -trunc_div(b * d.x, 1000),
            trunc_div(b * d.y, 1000),
            trunc_div(b * d.z, 1000),
        ),
{
    assert(plan_spec(r, keys) =~= seq![step_for(r, KEY_FORWARD)]);
    let steps = plan_spec(r, keys);
    reveal_with_fuel(accumulate, 2);
    let m = accumulate(steps, seq![d], b, 1);
    assert(m == (b * d.x, b * d.y, b * d.z));
    let (x, y, z) = (d.x as int, d.y as int, d.z as int);
    let bb = b * b;
    assert((b * x) * (b * x) == bb * (x * x)) by (nonlinear_arith)
        requires bb == b * b;
    assert((b * y) * (b * y) == bb * (y * y)) by (nonlinear_arith)
        requires bb == b * b;
    assert((b * z) * (b * z) == bb * (z * z)) by (nonlinear_arith)
        requires bb == b * b;
    assert(bb * (x * x) + bb * (y * y) + bb * (z * z) == bb * (x * x + y * y + z * z)) by (nonlinear_arith);
    assert(bb >= 0) by (nonlinear_arith)
        requires bb == b * b;
    assert(bb * (x * x + y * y + z * z) <= bb * (1000 * 1000)) by (nonlinear_arith)
        requires x * x + y * y + z * z <= 1000 * 1000, bb >= 0;
    assert((1000 * b) * (1000 * b) == bb * (1000 * 1000)) by (nonlinear_arith)
        requires bb == b * b;
}

/// Whatever keys are held and whatever the directions, a frame's
/// displacement is no longer than its budget: two keys held together move
/// no faster than one.
pub proof fn lemma_frame_within_budget(
    r: Vector3,
    keys: Map<u8, bool>,
    dirs: Seq<Vector3>,
    b: int,
)
    requires
        b >= 0,
    ensures
        ({
            let d = frame_displacement(r, keys, dirs, b);
            sqr_len(d.0, d.1, d.2) <= b * b
        }),
{
    let steps = plan_spec(r, keys);
    lemma_displacement_capped(accumulate(steps, dirs, b, steps.len()), b);
}

/// A unit direction quantized to thousandths: its length is within a
/// thousandth of a unit.
pub open spec fn is_unit_direction(d: Vector3) -> bool {
    &&& is_direction(d)
    &&& 999 * 999 <= sqr_len(d.x as int, d.y as int, d.z as int) <= 1000 * 1000
}

/// From `1000 r^2 T >= 1000 b^2 (r-1)^2 - 3465 b r^2` with `r` past
/// `1000 b` and `b >= 2000`, `T` is at least `0.998^2 b^2`.
proof fn lemma_budget_lower_arith(t: int, b: int, r: int)
    requires
        b >= 2000,
        r > 1000 * b,
        1000 * (r * r) * t >= 1000 * (b * b) * ((r - 1) * (r - 1)) - 3465 * b * (r * r),
    ensures
        1_000_000 * t >= 996_004 * (b * b),
{
    let rr = r * r;
    assert(r >= 2_000_001);
    assert(3996 * b - 3_465_000 >= 2263 * b);
    assert(rr * (3996 * b - 3_465_000) >= rr * (2263 * b)) by (nonlinear_arith)
        requires 3996 * b - 3_465_000 >= 2263 * b, rr == r * r;
    assert(rr * (2263 * b) >= 2_000_000 * b * r) by (nonlinear_arith)
        requires r >= 2_000_001, b >= 0, rr == r * r;
    assert(1_000_000 * b * ((r - 1) * (r - 1)) - 3_465_000 * rr >= 996_004 * b * rr) by (nonlinear_arith)
        requires
            rr * (3996 * b - 3_465_000) >= 2_000_000 * b * r,
            rr == r * r,
            b >= 0,
    ;
    assert(1000 * rr * t >= 1000 * (b * b) * ((r - 1) * (r - 1)) - 3465 * b * rr);
    assert(1_000_000 * rr * t >= 996_004 * (b * b) * rr) by (nonlinear_arith)
        requires
            1000 * rr * t >= 1000 * (b * b) * ((r - 1) * (r - 1)) - 3465 * b * rr,
            1_000_000 * b * ((r - 1) * (r - 1)) - 3_465_000 * rr >= 996_004 * b * rr,
            b >= 0,
    ;
    assert(rr > 0) by (nonlinear_arith)
        requires r > 0, rr == r * r;
    assert(1_000_000 * t >= 996_004 * (b * b)) by (nonlinear_arith)
        requires 1_000_000 * rr * t >= 996_004 * (b * b) * rr, rr > 0;
}

/// Once the accumulated movement is longer than the budget, the capped
/// displacement is the whole budget to within two thousandths (for a budget
/// of at least 2000 micro-units).
pub proof fn lemma_capped_full_budget(m: (int, int, int), b: int)
    requires
        b >= 2000,
        sqr_len(m.0, m.1, m.2) > (1000 * b) * (1000 * b),
    ensures
        ({
            let d = displacement(m, b);
            &&& 996_004 * (b * b) <= 1_000_000 * sqr_len(d.0, d.1, d.2)
            &&& sqr_len(d.0, d.1, d.2) <= b * b
        }),
{
    let s = sqr_len(m.0, m.1, m.2);
    let r = ceil_sqrt(s);
    assert(s >= 0) by (nonlinear_arith)
        requires s == m.0 * m.0 + m.1 * m.1 + m.2 * m.2;
    lemma_ceil_sqrt_exists(s);
    assert(is_ceil_sqrt(s, r));
    assert(r > 1000 * b) by (nonlinear_arith)
        requires r * r >= s, s > (1000 * b) * (1000 * b), r >= 0, b >= 0;
    lemma_scaled_lower(m.0, m.1, m.2, b, r);
    lemma_displacement_capped(m, b);
    let d = displacement(m, b);
    let t0 = trunc_div(m.0 * b, r);
    assert(d.0 * d.0 == t0 * t0) by (nonlinear_arith)
        requires d.0 == -t0;
    let t = sqr_len(d.0, d.1, d.2);
    assert(s >= (r - 1) * (r - 1) + 1);
    assert(1000 * (b * b) * s >= 1000 * (b * b) * ((r - 1) * (r - 1))) by (nonlinear_arith)
        requires s >= (r - 1) * (r - 1) + 1;
    lemma_budget_lower_arith(t, b, r);
}

/// With the forward key the only movement key held and a unit direction, a
/// frame moves the whole budget to within two thousandths (for a budget of
/// at least 2000 micro-units), and never more.
pub proof fn lemma_forward_full_budget(r: Vector3, keys: Map<u8, bool>, d: Vector3, b: int)
    requires
        held(keys, KEY_FORWARD),
        !held(keys, KEY_LEFT),
        !held(keys, KEY_RIGHT),
        !held(keys, KEY_BACKWARD),
        !held(keys, KEY_UP),
        !held(keys, KEY_DOWN),
        is_unit_direction(d),
        b >= 2000,
    ensures
        ({
            let e = frame_displacement(r, keys, seq![d], b);
            &&& 996_004 * (b * b) <= 1_000_000 * sqr_len(e.0, e.1, e.2)
            &&& sqr_len(e.0, e.1, e.2) <= b * b
        }),
{
    lemma_forward_only(r, keys, d, b);
    lemma_frame_within_budget(r, keys, seq![d], b);
    let (x, y, z) = (d.x as int, d.y as int, d.z as int);
    lemma_scaled_lower(x, y, z, b, 1000);
    assert(x * b == b * x && y * b == b * y && z * b == b * z) by (nonlinear_arith);
    let e = frame_displacement(r, keys, seq![d], b);
    let t0 = trunc_div(b * x, 1000);
    assert(e.0 * e.0 == t0 * t0) by (nonlinear_arith)
        requires e.0 == -t0;
    let t = sqr_len(e.0, e.1, e.2);
    let sd = sqr_len(x, y, z);
    assert(1000 * (1000 * 1000) * t >= 1000 * (b * b) * sd - 3465 * b * (1000 * 1000));
    assert(1000 * (b * b) * sd >= 1000 * (b * b) * 998_001) by (nonlinear_arith)
        requires sd >= 998_001;
    assert(1_000_000_000 * t >= 998_001_000 * (b * b) - 3_465_000_000 * b);
    assert(1_997_000 * (b * b) >= 3_465_000_000 * b) by (nonlinear_arith)
        requires b >= 2000;
}

/// Two movement keys held together, neither a strafe, with unit directions
/// at right angles (to within quantization): the frame moves the budget to
/// within two thousandths, never the diagonal's `sqrt 2` times it.
pub proof fn lemma_two_orthogonal_keys(
    r: Vector3,
    keys: Map<u8, bool>,
    d1: Vector3,
    d2: Vector3,
    b: int,
)
    requires
        plan_spec(r, keys).len() == 2,
        !plan_spec(r, keys)[0].level,
        !plan_spec(r, keys)[1].level,
        is_unit_direction(d1),
        is_unit_direction(d2),
        -1000 <= d1.x * d2.x + d1.y * d2.y + d1.z * d2.z <= 1000,
        b >= 2000,
    ensures
        ({
            let e = frame_displacement(r, keys, seq![d1, d2], b);
            &&& 996_004 * (b * b) <= 1_000_000 * sqr_len(e.0, e.1, e.2)
            &&& sqr_len(e.0, e.1, e.2) <= b * b
        }),
{
    let steps = plan_spec(r, keys);
    let dirs = seq![d1, d2];
    reveal_with_fuel(accumulate, 3);
    let m = accumulate(steps, dirs, b, 2);
    let (x, y, z) = ((d1.x + d2.x) as int, (d1.y + d2.y) as int, (d1.z + d2.z) as int);
    assert(m == (b * d1.x + b * d2.x, b * d1.y + b * d2.y, b * d1.z + b * d2.z));
    assert(m.0 == b * x && m.1 == b * y && m.2 == b * z) by (nonlinear_arith)
        requires
            m == (b * d1.x + b * d2.x, b * d1.y + b * d2.y, b * d1.z + b * d2.z),
            x == d1.x + d2.x,
            y == d1.y + d2.y,
            z == d1.z + d2.z,
    ;
    let u = sqr_len(x, y, z);
    assert(u == sqr_len(d1.x as int, d1.y as int, d1.z as int) + sqr_len(d2.x as int, d2.y as int, d2.z as int)
        + 2 * (d1.x * d2.x + d1.y * d2.y + d1.z * d2.z)) by (nonlinear_arith)
        requires x == d1.x + d2.x, y == d1.y + d2.y, z == d1.z + d2.z, u == x * x + y * y + z * z;
    assert(u > 1000 * 1000);
    let bb = b * b;
    assert((b * x) * (b * x) == bb * (x * x)) by (nonlinear_arith)
        requires bb == b * b;
    assert((b * y) * (b * y) == bb * (y * y)) by (nonlinear_arith)
        requires bb == b * b;
    assert((b * z) * (b * z) == bb * (z * z)) by (nonlinear_arith)
        requires bb == b * b;
    assert(bb * (x * x) + bb * (y * y) + bb * (z * z) == bb * u) by (nonlinear_arith)
        requires u == x * x + y * y + z * z;
    assert(sqr_len(m.0, m.1, m.2) == bb * u);
    assert(bb * u > (1000 * b) * (1000 * b)) by (nonlinear_arith)
        requires u > 1000 * 1000, bb == b * b, b >= 2000;
    lemma_capped_full_budget(m, b);
}

/// A strafe key held together with one other movement key at right angles
/// to it (forward, backward, up or down): the strafe keeps only its
/// horizontal part, and as long as that part is not vanishingly short (the
/// pitch is within the camera's range), the frame moves the budget to
/// within two thousandths, never the diagonal's `sqrt 2` times it.
pub proof fn lemma_strafe_and_key(
    r: Vector3,
    keys: Map<u8, bool>,
    d1: Vector3,
    d2: Vector3,
    b: int,
)
    requires
        plan_spec(r, keys).len() == 2,
        plan_spec(r, keys)[0].level,
        !plan_spec(r, keys)[1].level,
        is_direction(d1),
        d1.x * d1.x + d1.z * d1.z >= 7000,
        is_unit_direction(d2),
        -1000 <= d1.x * d2.x + d1.z * d2.z <= 1000,
        b >= 2000,
    ensures
        ({
            let e = frame_displacement(r, keys, seq![d1, d2], b);
            &&& 996_004 * (b * b) <= 1_000_000 * sqr_len(e.0, e.1, e.2)
            &&& sqr_len(e.0, e.1, e.2) <= b * b
        }),
{
    let steps = plan_spec(r, keys);
    let dirs = seq![d1, d2];
    reveal_with_fuel(accumulate, 3);
    let m = accumulate(steps, dirs, b, 2);
    let (x, y, z) = ((d1.x + d2.x) as int, d2.y as int, (d1.z + d2.z) as int);
    assert(m == (b * d1.x + b * d2.x, b * d2.y, b * d1.z + b * d2.z));
    assert(m.0 == b * x && m.2 == b * z) by (nonlinear_arith)
        requires
            m.0 == b * d1.x + b * d2.x,
            m.2 == b * d1.z + b * d2.z,
            x == d1.x + d2.x,
            z == d1.z + d2.z,
    ;
    let u = sqr_len(x, y, z);
    assert(u == (d1.x * d1.x + d1.z * d1.z) + sqr_len(d2.x as int, d2.y as int, d2.z as int) + 2 * (
    d1.x * d2.x + d1.z * d2.z)) by (nonlinear_arith)
        requires x == d1.x + d2.x, y == d2.y, z == d1.z + d2.z, u == x * x + y * y + z * z;
    assert(u > 1000 * 1000);
    let bb = b * b;
    assert((b * x) * (b * x) == bb * (x * x)) by (nonlinear_arith)
        requires bb == b * b;
    assert((b * y) * (b * y) == bb * (y * y)) by (nonlinear_arith)
        requires bb == b * b;
    assert((b * z) * (b * z) == bb * (z * z)) by (nonlinear_arith)
        requires bb == b * b;
    assert(bb * (x * x) + bb * (y * y) + bb * (z * z) == bb * u) by (nonlinear_arith)
        requires u == x * x + y * y + z * z;
    assert(sqr_len(m.0, m.1, m.2) == bb * u);
    assert(bb * u > (1000 * b) * (1000 * b)) by (nonlinear_arith)
        requires u > 1000 * 1000, bb == b * b, b >= 2000;
    lemma_capped_full_budget(m, b);
}

} // verus!
