//! Simulation-level checks: pools, combat, collisions, wrapping, and a
//! whole-session scenario.

use twinstick::combat::{resolve_collision, resolve_shots};
use twinstick::entities::{
    step_bullets, step_trail, wrap_exec, wrap_margin_exec, Bullet, Enemy, Explosion, TrailSegment,
};
use twinstick::game::{GameState, MouseInput, TouchEvent, TouchPhase};
use twinstick::joystick::Vec2;

fn quiet_mouse() -> MouseInput {
    MouseInput { pos: Vec2::new(0, 0), pressed: false, down: false, released: false }
}

fn enemy_at(x: i64, y: i64, health: i32) -> Enemy {
    Enemy {
        pos: Vec2::new(x, y),
        velocity: Vec2::new(0, 0),
        facing: Vec2::new(1000, 0),
        health,
        size: 25_000,
    }
}

#[test]
fn screen_wrap_is_idempotent() {
    let w: i64 = 1_280_000;
    for x in [-1, 0, 1, w - 1, w, w + 1, -500_000, 2_000_000] {
        let once = wrap_exec(x, w);
        assert_eq!(wrap_exec(once, w), once);
        let m_once = wrap_margin_exec(x, w);
        assert_eq!(wrap_margin_exec(m_once, w), m_once);
    }
    // A coordinate exactly on an edge stays put.
    assert_eq!(wrap_exec(0, w), 0);
    assert_eq!(wrap_exec(w, w), w);
    // Leaving one edge re-enters at the opposite one.
    assert_eq!(wrap_exec(-1, w), w);
    assert_eq!(wrap_exec(w + 1, w), 0);
}

#[test]
fn trail_keeps_the_twenty_newest_segments_in_order() {
    let mut trail: Vec<TrailSegment> = Vec::new();
    for i in 0..25i64 {
        trail.push(TrailSegment { pos: Vec2::new(i * 1000, 0), life: 1000, size: 30_000 });
    }
    step_trail(&mut trail, 10);
    assert_eq!(trail.len(), 20);
    for (k, seg) in trail.iter().enumerate() {
        // The survivors are the last twenty pushed, aged once, in order.
        assert_eq!(seg.pos, Vec2::new((k as i64 + 5) * 1000, 0));
        assert_eq!(seg.life, 980);
        assert_eq!(seg.size, 29_600);
    }
}

#[test]
fn trail_drops_spent_segments() {
    let mut trail = vec![
        TrailSegment { pos: Vec2::new(0, 0), life: 10, size: 10_200 },
        TrailSegment { pos: Vec2::new(1, 0), life: 1000, size: 30_000 },
    ];
    step_trail(&mut trail, 100);
    assert_eq!(trail.len(), 1);
    assert_eq!(trail[0].pos, Vec2::new(1, 0));
}

#[test]
fn bullet_expires_after_its_fuse() {
    let mut bullets = vec![Bullet {
        pos: Vec2::new(500_000, 500_000),
        velocity: Vec2::new(0, 0),
        life: 2000,
    }];
    let (w, h) = (1_280_000, 720_000);
    for frame in 1..=19 {
        step_bullets(&mut bullets, 100, w, h);
        assert_eq!(bullets.len(), 1, "alive before 2.0 s (frame {frame})");
        assert_eq!(bullets[0].life, 2000 - 100 * frame);
    }
    // At 2.0 seconds of flight the bullet is gone.
    step_bullets(&mut bullets, 100, w, h);
    assert_eq!(bullets.len(), 0);
}

#[test]
fn bullet_leaves_when_off_screen() {
    let mut bullets = vec![Bullet {
        pos: Vec2::new(1_270_000, 500_000),
        velocity: Vec2::new(600_000, 0),
        life: 2000,
    }];
    step_bullets(&mut bullets, 100, 1_280_000, 720_000);
    // It moved 60 pixels past the right edge and was removed.
    assert_eq!(bullets.len(), 0);
}

#[test]
fn one_hit_wounds_and_spends_the_bullet() {
    let mut enemies = vec![enemy_at(500_000, 500_000, 2)];
    let mut bullets = vec![Bullet {
        pos: Vec2::new(520_000, 500_000),
        velocity: Vec2::new(0, 0),
        life: 1500,
    }];
    let mut explosions: Vec<Explosion> = Vec::new();
    let mut score: i32 = 0;
    resolve_shots(&mut enemies, &mut bullets, &mut explosions, &mut score);
    assert_eq!(enemies.len(), 1);
    assert_eq!(enemies[0].health, 1);
    assert_eq!(bullets.len(), 1);
    assert_eq!(bullets[0].life, 0);
    assert_eq!(explosions.len(), 0);
    assert_eq!(score, 0);
}

#[test]
fn second_hit_kills_scores_and_leaves_one_blast() {
    let mut enemies = vec![enemy_at(500_000, 500_000, 1)];
    let mut bullets = vec![Bullet {
        pos: Vec2::new(520_000, 500_000),
        velocity: Vec2::new(0, 0),
        life: 1500,
    }];
    let mut explosions: Vec<Explosion> = Vec::new();
    let mut score: i32 = 300;
    resolve_shots(&mut enemies, &mut bullets, &mut explosions, &mut score);
    assert_eq!(enemies.len(), 0);
    assert_eq!(score, 400);
    assert_eq!(explosions.len(), 1);
    assert_eq!(explosions[0].pos, Vec2::new(500_000, 500_000));
    assert_eq!(explosions[0].size, 50_000);
    assert_eq!(explosions[0].life, 500);
    assert_eq!(bullets[0].life, 0);
}

#[test]
fn out_of_reach_bullet_changes_nothing() {
    let mut enemies = vec![enemy_at(500_000, 500_000, 2)];
    let mut bullets = vec![Bullet {
        pos: Vec2::new(600_000, 500_000),
        velocity: Vec2::new(0, 0),
        life: 1500,
    }];
    let mut explosions: Vec<Explosion> = Vec::new();
    let mut score: i32 = 0;
    resolve_shots(&mut enemies, &mut bullets, &mut explosions, &mut score);
    assert_eq!(enemies[0].health, 2);
    assert_eq!(bullets[0].life, 1500);
    assert_eq!(score, 0);
}

#[test]
fn player_collision_costs_one_health_and_one_enemy() {
    // Two overlapping enemies: only the first in pool order is resolved.
    let mut enemies = vec![enemy_at(560_000, 500_000, 2), enemy_at(540_000, 500_000, 2)];
    let mut explosions: Vec<Explosion> = Vec::new();
    let mut health: i32 = 3;
    let mut safe_time: i64 = -50;
    resolve_collision(
        &mut enemies,
        &mut explosions,
        &mut health,
        &mut safe_time,
        Vec2::new(500_000, 500_000),
    );
    assert_eq!(enemies.len(), 1);
    assert_eq!(enemies[0].pos, Vec2::new(540_000, 500_000));
    assert_eq!(health, 2);
    assert_eq!(safe_time, 300);
    assert_eq!(explosions.len(), 1);
    assert_eq!(explosions[0].pos, Vec2::new(560_000, 500_000));
}

#[test]
fn distant_enemy_leaves_the_player_unharmed() {
    let mut enemies = vec![enemy_at(600_000, 500_000, 2)];
    let mut explosions: Vec<Explosion> = Vec::new();
    let mut health: i32 = 3;
    let mut safe_time: i64 = -50;
    resolve_collision(
        &mut enemies,
        &mut explosions,
        &mut health,
        &mut safe_time,
        Vec2::new(500_000, 500_000),
    );
    assert_eq!(enemies.len(), 1);
    assert_eq!(health, 3);
    assert_eq!(safe_time, -50);
    assert_eq!(explosions.len(), 0);
}

#[test]
fn new_session_scatters_ambience_within_bounds() {
    let g = GameState::new(1_280_000, 720_000);
    assert_eq!(g.health, 3);
    assert_eq!(g.score, 0);
    assert_eq!(g.safe_time, 3000);
    assert_eq!(g.intro_alpha, 1000);
    assert!(!g.game_started && !g.game_over);
    assert_eq!(g.player.position, Vec2::new(640_000, 360_000));
    assert_eq!(g.particles.len(), 150);
    for p in &g.particles {
        assert!(0 <= p.pos.x && p.pos.x < 1_280_000);
        assert!(0 <= p.pos.y && p.pos.y < 720_000);
        assert!(-15_000 <= p.velocity.x && p.velocity.x < 15_000);
        assert!(-15_000 <= p.velocity.y && p.velocity.y < 15_000);
        assert!(1000 <= p.size && p.size < 3000);
        assert!(100 <= p.alpha && p.alpha < 400);
    }
    assert_eq!(g.obstacles.len(), 5);
    for (i, o) in g.obstacles.iter().enumerate() {
        assert_eq!(o.pos.x, 384_000 + (i as i64) * 150_000);
        assert_eq!(o.size, 40_000);
        assert!(0 <= o.glow_phase && o.glow_phase < 6280);
    }
}

#[test]
fn spawned_enemies_sit_fifty_pixels_outside_an_edge() {
    let mut g = GameState::new(1_280_000, 720_000);
    for _ in 0..20 {
        g.spawn_enemy();
    }
    assert_eq!(g.enemies.len(), 20);
    for e in &g.enemies {
        let on_top = e.pos.y == -50_000 && 0 <= e.pos.x && e.pos.x < 1_280_000;
        let on_bottom = e.pos.y == 770_000 && 0 <= e.pos.x && e.pos.x < 1_280_000;
        let on_left = e.pos.x == -50_000 && 0 <= e.pos.y && e.pos.y < 720_000;
        let on_right = e.pos.x == 1_330_000 && 0 <= e.pos.y && e.pos.y < 720_000;
        assert!(on_top || on_bottom || on_left || on_right);
        assert_eq!(e.health, 2);
        assert_eq!(e.size, 25_000);
        assert_eq!(e.velocity, Vec2::new(0, 0));
    }
}

#[test]
fn shooting_spawns_a_bullet_at_the_nose() {
    let mut g = GameState::new(1_280_000, 720_000);
    g.shoot();
    assert_eq!(g.bullets.len(), 1);
    assert_eq!(g.bullets[0].pos, Vec2::new(640_000 + 45_000, 360_000));
    assert_eq!(g.bullets[0].velocity, Vec2::new(600_000, 0));
    assert_eq!(g.bullets[0].life, 2000);
}

#[test]
fn intro_fades_out_and_latches_game_started() {
    let mut g = GameState::new(1_280_000, 720_000);
    let mouse = quiet_mouse();
    for _ in 0..19 {
        g.update(100, &vec![], &mouse);
    }
    assert_eq!(g.intro_alpha, 50);
    assert!(!g.game_started);
    g.update(100, &vec![], &mouse);
    assert_eq!(g.intro_alpha, 0);
    assert!(g.game_started);
    // The latch is one-way.
    g.update(100, &vec![], &mouse);
    assert!(g.game_started);
}

#[test]
fn an_enemy_spawns_soon_after_the_safe_period() {
    let mut g = GameState::new(1_280_000, 720_000);
    let mouse = quiet_mouse();
    for _ in 0..31 {
        g.update(100, &vec![], &mouse);
    }
    assert!(g.safe_time <= 0);
    assert!(g.enemies.len() >= 1);
    // The re-rolled delay has since ticked down by one more frame.
    assert!(g.enemy_spawn_timer >= 900 && g.enemy_spawn_timer < 2500);
    assert_eq!(g.health, 3);
    assert!(!g.game_over);
}

#[test]
fn mouse_fallback_drives_the_left_stick() {
    let mut g = GameState::new(1_280_000, 720_000);
    let press = MouseInput {
        pos: Vec2::new(200_000, 400_000),
        pressed: true,
        down: true,
        released: false,
    };
    g.update(100, &vec![], &press);
    assert!(g.left_joystick.active);
    assert_eq!(g.left_joystick.center, Vec2::new(200_000, 400_000));
    let drag = MouseInput {
        pos: Vec2::new(240_000, 400_000),
        pressed: false,
        down: true,
        released: false,
    };
    g.update(100, &vec![], &drag);
    assert_eq!(g.left_joystick.current, Vec2::new(240_000, 400_000));
    let release = MouseInput {
        pos: Vec2::new(240_000, 400_000),
        pressed: false,
        down: false,
        released: true,
    };
    g.update(100, &vec![], &release);
    assert!(!g.left_joystick.active);
}

#[test]
fn touches_bind_one_stick_per_side() {
    let mut g = GameState::new(1_280_000, 720_000);
    let mouse = quiet_mouse();
    let touches = vec![
        TouchEvent { id: 7, phase: TouchPhase::Started, pos: Vec2::new(100_000, 600_000) },
        TouchEvent { id: 9, phase: TouchPhase::Started, pos: Vec2::new(1_000_000, 600_000) },
    ];
    g.update(100, &touches, &mouse);
    assert!(g.left_joystick.active);
    assert!(g.right_joystick.active);
    let moves = vec![TouchEvent {
        id: 7,
        phase: TouchPhase::Moved,
        pos: Vec2::new(140_000, 600_000),
    }];
    g.update(100, &moves, &mouse);
    assert_eq!(g.left_joystick.current, Vec2::new(140_000, 600_000));
    let ends = vec![TouchEvent { id: 7, phase: TouchPhase::Ended, pos: Vec2::new(0, 0) }];
    g.update(100, &ends, &mouse);
    assert!(!g.left_joystick.active);
    assert!(g.right_joystick.active);
    // Aiming auto-fires: with the right stick held, bullets have spawned.
    assert!(g.bullets.len() >= 1);
}
