use ferris_physics::player::{Player, GRAVITY_ACCEL, LAUNCH_IMPULSE, START_AMMO};

#[test]
fn new_player_is_at_rest() {
    let p = Player::new(120);
    assert_eq!(p.pos_x, 120);
    assert_eq!(p.pos_y, 0);
    assert_eq!(p.ammo, START_AMMO);
    assert_eq!(p.velocity, 0);
    assert!(!p.going_boom);
}

#[test]
fn launch_then_one_tick_matches_exact_values() {
    let mut p = Player::new(0);
    p.go_boom();
    assert_eq!(p.velocity, -25);
    assert!(p.going_boom);
    p.update(false);
    assert_eq!(p.pos_y, 49);
    assert_eq!(p.velocity, -24);
    assert!(p.going_boom);
}

#[test]
fn launches_stack() {
    let mut p = Player::new(0);
    p.go_boom();
    p.go_boom();
    assert_eq!(p.velocity, -2 * LAUNCH_IMPULSE);
}

#[test]
fn launch_settles_without_going_negative() {
    let mut p = Player::new(0);
    p.go_boom();
    let mut ticks = 0;
    while p.going_boom || p.pos_y != 0 {
        assert!(p.can_update(false));
        p.update(false);
        assert!(p.pos_y >= 0);
        ticks += 1;
        assert!(ticks <= 100);
    }
    assert_eq!(ticks, 51);
    assert_eq!(p.velocity, LAUNCH_IMPULSE);
}

#[test]
fn arc_peaks_at_625() {
    let mut p = Player::new(0);
    p.go_boom();
    let mut top = 0;
    for _ in 0..51 {
        p.update(false);
        top = top.max(p.pos_y);
    }
    assert_eq!(top, 625);
}

#[test]
fn downward_rest_velocity_lands_in_one_tick() {
    let mut p = Player::new(0);
    p.velocity = 30;
    p.go_boom();
    p.update(false);
    assert_eq!(p.pos_y, 0);
    assert!(!p.going_boom);
}

#[test]
fn airborne_signal_keeps_adding_gravity() {
    let mut p = Player::new(0);
    for k in 1..=5 {
        p.update(true);
        assert_eq!(p.velocity, k * GRAVITY_ACCEL);
        assert!(!p.going_boom);
    }
    assert_eq!(p.pos_y, -15);
}

#[test]
fn at_rest_without_signal_nothing_moves() {
    let mut p = Player::new(7);
    p.update(false);
    assert_eq!(p.pos_y, 0);
    assert_eq!(p.velocity, 0);
    assert_eq!(p.pos_x, 7);
}

#[test]
fn can_update_detects_overflow() {
    let mut p = Player::new(0);
    p.velocity = i64::MAX;
    assert!(!p.can_update(true));
    assert!(p.can_update(false));
}
