//! Unit-level checks: fixed-point arithmetic, vectors, joystick clamping
//! and player damping.

use twinstick::fixed::{isqrt, isqrt_ceil, sine};
use twinstick::joystick::{Joystick, Vec2};
use twinstick::player::Player;

#[test]
fn isqrt_rounds_down() {
    assert_eq!(isqrt(0), 0);
    assert_eq!(isqrt(1), 1);
    assert_eq!(isqrt(15), 3);
    assert_eq!(isqrt(16), 4);
    assert_eq!(isqrt(u64::MAX), 4_294_967_295);
}

#[test]
fn isqrt_ceil_rounds_up() {
    assert_eq!(isqrt_ceil(0), 0);
    assert_eq!(isqrt_ceil(15), 4);
    assert_eq!(isqrt_ceil(16), 4);
    assert_eq!(isqrt_ceil(17), 5);
}

#[test]
fn sine_hits_the_quarter_points() {
    assert_eq!(sine(0), 0);
    assert_eq!(sine(1571), 1000);
    assert_eq!(sine(3142), 0);
    assert_eq!(sine(4713), -1000);
    assert_eq!(sine(6284), 0);
    // One full period later the values repeat.
    assert_eq!(sine(6284 + 1571), 1000);
}

#[test]
fn vector_length_and_normalize() {
    let v = Vec2::new(3000, 4000);
    assert_eq!(v.length(), 5000);
    let u = v.normalize();
    assert_eq!(u, Vec2::new(600, 800));
    let z = Vec2::new(0, 0);
    assert_eq!(z.normalize(), Vec2::new(0, 0));
    assert_eq!(Vec2::new(1, 1).length(), 1);
}

#[test]
fn vector_arithmetic_is_componentwise() {
    let a = Vec2::new(10, -20);
    let b = Vec2::new(3, 4);
    assert_eq!(a.add(b), Vec2::new(13, -16));
    assert_eq!(a.sub(b), Vec2::new(7, -24));
    // Scaling by 2000 milli-units doubles, dividing by 2000 halves.
    assert_eq!(b.mul(2000), Vec2::new(6, 8));
    assert_eq!(Vec2::new(6000, -8000).div(2000), Vec2::new(3000, -4000));
    let mut c = Vec2::new(1, 2);
    c.add_assign(b);
    assert_eq!(c, Vec2::new(4, 6));
}

#[test]
fn joystick_clamps_an_axis_drag_onto_the_rim() {
    let mut j = Joystick::new(80_000);
    j.on_touch_start(Vec2::new(100_000, 100_000));
    // A drag 200 pixels to the right, well past the 80-pixel rim.
    j.on_touch_move(Vec2::new(300_000, 100_000));
    assert_eq!(j.center, Vec2::new(100_000, 100_000));
    assert_eq!(j.current, Vec2::new(180_000, 100_000));
}

#[test]
fn joystick_clamps_a_diagonal_drag_onto_the_rim() {
    let mut j = Joystick::new(80_000);
    j.on_touch_start(Vec2::new(500_000, 500_000));
    // A 3-4-5 drag of magnitude 500 pixels lands exactly on the rim.
    j.on_touch_move(Vec2::new(800_000, 900_000));
    let dx = (j.current.x - j.center.x) as i128;
    let dy = (j.current.y - j.center.y) as i128;
    assert_eq!(dx, 48_000);
    assert_eq!(dy, 64_000);
    assert_eq!(dx * dx + dy * dy, 80_000i128 * 80_000);
}

#[test]
fn joystick_keeps_a_drag_inside_the_rim() {
    let mut j = Joystick::new(80_000);
    j.on_touch_start(Vec2::new(500_000, 500_000));
    j.on_touch_move(Vec2::new(530_000, 540_000));
    assert_eq!(j.current, Vec2::new(530_000, 540_000));
}

#[test]
fn joystick_input_is_zero_when_idle_and_unit_at_the_rim() {
    let mut j = Joystick::new(80_000);
    assert_eq!(j.get_input(), Vec2::new(0, 0));
    j.on_touch_start(Vec2::new(100_000, 100_000));
    j.on_touch_move(Vec2::new(300_000, 100_000));
    assert_eq!(j.get_input(), Vec2::new(1000, 0));
    j.on_touch_end();
    assert_eq!(j.get_input(), Vec2::new(0, 0));
    assert_eq!(j.current, j.center);
}

#[test]
fn joystick_input_magnitude_never_exceeds_one() {
    let mut j = Joystick::new(80_000);
    j.on_touch_start(Vec2::new(500_000, 500_000));
    let drags = [
        (700_000i64, 500_000i64),
        (800_000, 900_000),
        (500_000, 499_000),
        (10_000, 10_000),
        (500_001, 500_001),
    ];
    for (x, y) in drags {
        j.on_touch_move(Vec2::new(x, y));
        let v = j.get_input();
        assert!(v.x * v.x + v.y * v.y <= 1_000_000);
    }
}

#[test]
fn damping_strictly_slows_a_coasting_ship() {
    let mut p = Player::new(Vec2::new(500_000, 500_000));
    p.velocity = Vec2::new(10_000, 0);
    let zero = Vec2::new(0, 0);
    p.update(zero, zero, 100);
    assert_eq!(p.velocity.x, 9800);
    p.update(zero, zero, 100);
    assert_eq!(p.velocity.x, 9604);
    p.update(zero, zero, 100);
    assert_eq!(p.velocity.x, 9411);
    // The speed keeps strictly shrinking until it reaches rest exactly.
    let mut last = p.velocity.x;
    while last != 0 {
        p.update(zero, zero, 100);
        assert!(p.velocity.x < last);
        last = p.velocity.x;
    }
    p.update(zero, zero, 100);
    assert_eq!(p.velocity.x, 0);
}

#[test]
fn facing_follows_the_aim_stick_and_persists() {
    let mut p = Player::new(Vec2::new(500_000, 500_000));
    let zero = Vec2::new(0, 0);
    p.update(zero, Vec2::new(0, 1000), 100);
    assert_eq!(p.facing, Vec2::new(0, 1000));
    // Releasing the aim stick keeps the facing.
    p.update(zero, zero, 100);
    assert_eq!(p.facing, Vec2::new(0, 1000));
}

#[test]
fn reset_velocity_zeroes_only_the_velocity() {
    let mut p = Player::new(Vec2::new(1000, 2000));
    p.velocity = Vec2::new(5, 6);
    p.reset_velocity();
    assert_eq!(p.velocity, Vec2::new(0, 0));
    assert_eq!(p.position, Vec2::new(1000, 2000));
}
