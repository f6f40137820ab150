use terrain_gen::player::Player;
use terrain_gen::vector::Vector3;

#[test]
fn yaw_wraps_below_zero() {
    let mut player = Player::new();
    player.move_camera(-1, 0);
    assert_eq!(player.camera_rotation, Vector3::new(359_900, 0, 0));
}

#[test]
fn yaw_wraps_past_full_turn() {
    let mut player = Player::new();
    player.move_camera(3_601, 0);
    assert_eq!(player.camera_rotation.x, 100);
}

#[test]
fn pitch_clamped_both_ways() {
    let mut player = Player::new();
    player.move_camera(0, -10_000);
    assert_eq!(player.camera_rotation.y, 85_000);
    player.move_camera(0, 10_000);
    assert_eq!(player.camera_rotation.y, -85_000);
    player.move_camera(0, -100);
    assert_eq!(player.camera_rotation.y, -75_000);
}

#[test]
fn repeated_turns_stay_in_range() {
    let mut player = Player::new();
    let moves: [(i64, i64); 6] = [(i64::MAX, i64::MIN), (i64::MIN, i64::MAX), (7, -3), (-123_456, 999), (5, 5), (-1, -1)];
    for _ in 0..50 {
        for (dx, dy) in moves {
            player.move_camera(dx, dy);
            let r = player.camera_rotation;
            assert!(0 <= r.x && r.x < 360_000);
            assert!(-85_000 <= r.y && r.y <= 85_000);
        }
    }
}

#[test]
fn smoothing_takes_shorter_arc() {
    let mut player = Player::new();
    player.camera_rotation = Vector3::new(350_000, 40_000, 0);
    player.smooth_camera_rotation = Vector3::new(10_000, 0, 0);
    player.smooth_camera(500);
    assert_eq!(player.smooth_camera_rotation, Vector3::new(0, 20_000, 0));
    player.smooth_camera(1000);
    assert_eq!(player.smooth_camera_rotation, Vector3::new(350_000, 40_000, 0));
}

#[test]
fn smoothing_with_zero_factor_keeps_rotation() {
    let mut player = Player::new();
    player.camera_rotation = Vector3::new(90_000, -10_000, 0);
    player.smooth_camera(0);
    assert_eq!(player.smooth_camera_rotation, Vector3::new(0, 0, 0));
}
