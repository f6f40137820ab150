use terrain_gen::frame::{clamp_dimension, frame_action, pack_uniforms, AcquireOutcome, FrameAction, Viewport};
use terrain_gen::input::{InputState, KeyResponse};
use terrain_gen::player::Player;
use terrain_gen::transforms::{create_projection, model_translation, Projection};
use terrain_gen::vector::Vector3;

#[test]
fn resize_to_zero_clamps_to_one() {
    let mut v = Viewport::new(800, 600);
    v.resize((0, 0));
    assert_eq!(v, Viewport { width: 1, height: 1 });
    v.resize((1920, 0));
    assert_eq!(v, Viewport { width: 1920, height: 1 });
    assert_eq!(Viewport::new(0, 5), Viewport { width: 1, height: 5 });
    assert_eq!(clamp_dimension(7), 7);
}

#[test]
fn projection_is_pure() {
    let a = create_projection(1, 1, true);
    let b = create_projection(1, 1, true);
    assert_eq!(a, b);
    assert_eq!(
        a,
        Projection::Perspective { fov_mdeg: 72_000, aspect_width: 1, aspect_height: 1, near: 100_000, far: 100_000_000 }
    );
}

#[test]
fn orthographic_box() {
    assert_eq!(
        create_projection(4, 3, false),
        Projection::Orthographic { left: -4, right: 4, bottom: -3, top: 3, z_near: -1, z_far: 6 }
    );
}

#[test]
fn terrain_centred_under_player() {
    let mut player = Player::new();
    player.player_position = Vector3::new(1_000_000, 2_000_000, 3_000_000);
    assert_eq!(model_translation(&player, 5_000_000), Vector3::new(-5_000_000, -7_000_000, -5_000_000));
}

#[test]
fn acquire_outcomes() {
    assert_eq!(frame_action(AcquireOutcome::Acquired), FrameAction::Draw);
    assert_eq!(frame_action(AcquireOutcome::Outdated), FrameAction::Reconfigure);
    assert_eq!(frame_action(AcquireOutcome::Lost), FrameAction::Reconfigure);
    assert_eq!(frame_action(AcquireOutcome::Timeout), FrameAction::Skip);
    assert_eq!(frame_action(AcquireOutcome::OutOfMemory), FrameAction::Skip);
}

#[test]
fn uniform_block_layout() {
    let mut m = [[0.0f32; 4]; 4];
    let mut v = [[0.0f32; 4]; 4];
    let mut p = [[0.0f32; 4]; 4];
    for c in 0..4 {
        for r in 0..4 {
            m[c][r] = (c * 4 + r) as f32;
            v[c][r] = 100.0 + (c * 4 + r) as f32;
            p[c][r] = 200.0 + (c * 4 + r) as f32;
        }
    }
    let u = pack_uniforms(&m, &v, &p, 1.5f32, -2.5f32, 0.0f32);
    assert_eq!(u.len(), 52);
    assert_eq!(std::mem::size_of_val(&u[..]), 208);
    for i in 0..16 {
        assert_eq!(u[i], i as f32);
        assert_eq!(u[16 + i], 100.0 + i as f32);
        assert_eq!(u[32 + i], 200.0 + i as f32);
    }
    assert_eq!(&u[48..], &[1.5, -2.5, 0.0, 0.0]);
}

#[test]
fn key_events() {
    let mut input = InputState::new();
    assert_eq!(input.key_event(b"w", true), KeyResponse::Recorded);
    assert!(input.is_pressed(b'w'));
    assert_eq!(input.key_event(b"w", false), KeyResponse::Recorded);
    assert!(!input.is_pressed(b'w'));
    assert_eq!(input.key_event(&[0x1b], true), KeyResponse::ReleasePointer);
    assert_eq!(input.key_event(b"", true), KeyResponse::Ignored);
    assert!(!input.is_pressed(b'a'));
}
