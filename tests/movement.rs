use terrain_gen::input::InputState;
use terrain_gen::player::{MoveStep, Player, KEY_BACKWARD, KEY_DOWN, KEY_FORWARD, KEY_LEFT, KEY_RIGHT, KEY_UP};
use terrain_gen::vector::Vector3;

fn held(keys: &[u8]) -> InputState {
    let mut input = InputState::new();
    for k in keys {
        input.set(*k, true);
    }
    input
}

fn sqr_len(v: Vector3) -> i128 {
    let (x, y, z) = (v.x as i128, v.y as i128, v.z as i128);
    x * x + y * y + z * z
}

#[test]
fn forward_half_second_moves_one_unit() {
    let mut player = Player::new();
    let input = held(&[KEY_FORWARD]);
    let plan = player.movement_plan(&input);
    assert_eq!(plan.len(), 1);
    assert_eq!(plan[0].rotation, Vector3::new(0, 0, 0));
    player.update(&input, &vec![Vector3::new(0, 0, 1000)], 500_000);
    assert_eq!(player.player_position, Vector3::new(0, 0, 1_000_000));
}

#[test]
fn forward_and_left_capped_to_one_unit() {
    let mut player = Player::new();
    let input = held(&[KEY_FORWARD, KEY_LEFT]);
    let plan = player.movement_plan(&input);
    assert_eq!(plan.len(), 2);
    assert_eq!(plan[0].key, KEY_LEFT);
    assert_eq!(plan[0].rotation, Vector3::new(270_000, 0, 0));
    assert!(plan[0].level);
    assert_eq!(plan[1].key, KEY_FORWARD);
    // sin 270 = -1, cos 270 = 0
    player.update(&input, &vec![Vector3::new(-1000, 0, 0), Vector3::new(0, 0, 1000)], 500_000);
    assert_eq!(player.player_position, Vector3::new(707_106, 0, 707_106));
    assert!(sqr_len(player.player_position) <= 1_000_000i128 * 1_000_000);
    assert!(sqr_len(player.player_position) > 999_000i128 * 999_000);
}

#[test]
fn forward_and_right_never_faster_than_one_key() {
    let mut player = Player::new();
    let input = held(&[KEY_FORWARD, KEY_RIGHT]);
    player.update(&input, &vec![Vector3::new(1000, 0, 0), Vector3::new(0, 0, 1000)], 500_000);
    assert_eq!(player.player_position, Vector3::new(-707_106, 0, 707_106));
    let len2 = sqr_len(player.player_position);
    assert!(998_000i128 * 998_000 <= len2 && len2 <= 1_000_000i128 * 1_000_000);
}

#[test]
fn forward_only_moves_by_speed_times_dt() {
    let mut player = Player::new();
    player.camera_rotation = Vector3::new(90_000, 0, 0);
    let input = held(&[KEY_FORWARD]);
    player.update(&input, &vec![Vector3::new(1000, 0, 0)], 250_000);
    // x is negated; 2 units/s for a quarter second
    assert_eq!(player.player_position, Vector3::new(-500_000, 0, 0));
}

#[test]
fn strafe_drops_vertical_part() {
    let mut player = Player::new();
    player.camera_rotation = Vector3::new(0, 30_000, 0);
    let input = held(&[KEY_RIGHT]);
    player.update(&input, &vec![Vector3::new(866, 500, 0)], 500_000);
    assert_eq!(player.player_position, Vector3::new(-866_000, 0, 0));
}

#[test]
fn plan_order_and_rotations() {
    let mut player = Player::new();
    player.camera_rotation = Vector3::new(10_000, 20_000, 0);
    let input = held(&[KEY_DOWN, KEY_UP, KEY_BACKWARD, KEY_FORWARD, KEY_RIGHT, KEY_LEFT, b'x']);
    let plan = player.movement_plan(&input);
    let want = vec![
        MoveStep { key: KEY_LEFT, rotation: Vector3::new(280_000, 20_000, 0), level: true },
        MoveStep { key: KEY_RIGHT, rotation: Vector3::new(100_000, 20_000, 0), level: true },
        MoveStep { key: KEY_FORWARD, rotation: Vector3::new(10_000, 20_000, 0), level: false },
        MoveStep { key: KEY_BACKWARD, rotation: Vector3::new(190_000, -20_000, 0), level: false },
        MoveStep { key: KEY_UP, rotation: Vector3::new(10_000, 110_000, 0), level: false },
        MoveStep { key: KEY_DOWN, rotation: Vector3::new(10_000, -70_000, 0), level: false },
    ];
    assert_eq!(plan, want);
}

#[test]
fn released_key_does_not_move() {
    let mut player = Player::new();
    let mut input = held(&[KEY_FORWARD]);
    input.set(KEY_FORWARD, false);
    assert!(player.movement_plan(&input).is_empty());
    player.update(&input, &vec![], 500_000);
    assert_eq!(player.player_position, Vector3::new(0, 0, 0));
}

#[test]
fn first_frame_with_zero_dt_stays_put() {
    let mut player = Player::new();
    let input = held(&[KEY_FORWARD]);
    player.update(&input, &vec![Vector3::new(0, 0, 1000)], 0);
    assert_eq!(player.player_position, Vector3::new(0, 0, 0));
}

#[test]
fn relative_position_subtracts_player() {
    let mut player = Player::new();
    player.player_position = Vector3::new(1, 2, 3);
    assert_eq!(player.get_relative_position(Vector3::new(10, 20, 30)), Vector3::new(9, 18, 27));
}

#[test]
fn forward_at_an_angle_moves_nearly_full_budget() {
    let mut player = Player::new();
    player.camera_rotation = Vector3::new(30_000, 0, 0);
    let input = held(&[KEY_FORWARD]);
    // sin 30 = 0.5, cos 30 = 0.866
    player.update(&input, &vec![Vector3::new(500, 0, 866)], 500_000);
    assert_eq!(player.player_position, Vector3::new(-500_000, 0, 866_000));
    let len2 = sqr_len(player.player_position);
    assert!(998_000i128 * 998_000 <= len2 && len2 <= 1_000_000i128 * 1_000_000);
}

#[test]
fn forward_and_up_capped_to_one_unit() {
    let mut player = Player::new();
    let input = held(&[KEY_FORWARD, KEY_UP]);
    let plan = player.movement_plan(&input);
    assert_eq!(plan[1].rotation, Vector3::new(0, 90_000, 0));
    player.update(&input, &vec![Vector3::new(0, 0, 1000), Vector3::new(0, 1000, 0)], 500_000);
    assert_eq!(player.player_position, Vector3::new(0, 707_106, 707_106));
    let len2 = sqr_len(player.player_position);
    assert!(998_000i128 * 998_000 <= len2 && len2 <= 1_000_000i128 * 1_000_000);
}

#[test]
fn strafe_and_forward_at_a_pitch_capped_to_one_unit() {
    let mut player = Player::new();
    player.camera_rotation = Vector3::new(0, 60_000, 0);
    let input = held(&[KEY_FORWARD, KEY_RIGHT]);
    // right: yaw 90, pitch 60 -> (0.5, 0.866, 0); forward: (0, 0.866, 0.5)
    player.update(&input, &vec![Vector3::new(500, 866, 0), Vector3::new(0, 866, 500)], 500_000);
    let len2 = sqr_len(player.player_position);
    assert!(998_000i128 * 998_000 <= len2 && len2 <= 1_000_000i128 * 1_000_000);
}

#[test]
fn frame_dt_limits_long_pauses() {
    let player = Player::new();
    assert_eq!(player.frame_dt(500_000), 500_000);
    assert_eq!(player.frame_dt(u64::MAX), 500_000_000_000_000);
    let mut still = Player::new();
    still.speed = 0;
    assert_eq!(still.frame_dt(u64::MAX), u64::MAX);
}

#[test]
fn can_move_near_edge_of_world() {
    let mut player = Player::new();
    assert!(player.can_move());
    player.player_position = Vector3::new(0, i64::MAX - 1_000_000_000_000_000, 0);
    assert!(player.can_move());
    player.player_position = Vector3::new(0, i64::MAX - 999_999_999_999_999, 0);
    assert!(!player.can_move());
}
