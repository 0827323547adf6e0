//! The game session: state, input ingestion, firing, spawning and the
//! per-frame simulation step.

use vstd::prelude::*;

verus! {

use crate::fixed::iabs;
use crate::fixed::tdiv;
use crate::fixed::sine_spec;
use crate::fixed::sine;
use crate::fixed::lemma_tdiv_bounds;
use crate::joystick::Vec2;
use crate::joystick::Joystick;
use crate::joystick::norm2;
use crate::joystick::in_range;
use crate::joystick::unit_x;
use crate::joystick::unit_y;
use crate::joystick::start_spec;
use crate::joystick::move_spec;
use crate::joystick::end_spec;
use crate::joystick::input_of;
use crate::player::Player;
use crate::player::stepped_v;
use crate::entities::Particle;
use crate::entities::TrailSegment;
use crate::entities::Obstacle;
use crate::entities::Bullet;
use crate::entities::Enemy;
use crate::entities::Explosion;
use crate::entities::wrap_coord;
use crate::entities::wrap_exec;
use crate::entities::segment_wf;
use crate::entities::aged_trail;
use crate::entities::capped;
use crate::entities::step_trail;
use crate::entities::bullet_pre;
use crate::entities::stepped_bullets;
use crate::entities::step_bullets;
use crate::entities::explosion_wf;
use crate::entities::stepped_explosions;
use crate::entities::step_explosions;
use crate::entities::particle_wf;
use crate::entities::stepped_particle;
use crate::entities::step_particles;
use crate::entities::obstacle_wf;
use crate::entities::stepped_obstacle;
use crate::entities::step_obstacles;
use crate::entities::enemy_wf;
use crate::entities::steered_enemy;
use crate::entities::step_enemies;
use crate::combat::Battle;
use crate::combat::resolve_shots_spec;
use crate::combat::resolve_shots;
use crate::combat::first_hit_from;
use crate::combat::blast_of;
use crate::combat::dec_i32;
use crate::combat::resolve_collision;

/// What a touch event reports.
#[derive(Clone, Copy, Debug, PartialEq, Eq, Structural)]
pub enum TouchPhase {
    Started,
    Stationary,
    Moved,
    Ended,
    Cancelled,
}

/// One touch event, already in fixed-point screen coordinates.
#[derive(Clone, Copy, Debug, PartialEq, Eq, Structural)]
pub struct TouchEvent {
    pub id: u64,
    pub phase: TouchPhase,
    pub pos: Vec2,
}

/// The mouse's state this frame, the desktop fallback for touch.
#[derive(Clone, Copy, Debug, PartialEq, Eq, Structural)]
pub struct MouseInput {
    pub pos: Vec2,
    pub pressed: bool,
    pub down: bool,
    pub released: bool,
}

/// The input-facing slice of the session: both sticks and the touch
/// bindings that own them.
pub struct InputState {
    pub left: Joystick,
    pub right: Joystick,
    pub left_id: Option<u64>,
    pub right_id: Option<u64>,
}

/// One touch event applied to the sticks: a press left of `mid` claims
/// the movement stick, one right of it the aim stick, each held by its
/// touch id until it ends.
pub open spec fn touch_step(st: InputState, ev: TouchEvent, mid: int) -> InputState {
    match ev.phase {
        TouchPhase::Started => {
            if ev.pos.x < mid && st.left_id is None {
                InputState {
                    left: start_spec(st.left, ev.pos),
                    right: st.right,
                    left_id: Some(ev.id),
                    right_id: st.right_id,
                }
            } else if ev.pos.x >= mid && st.right_id is None {
                InputState {
                    left: st.left,
                    right: start_spec(st.right, ev.pos),
                    left_id: st.left_id,
                    right_id: Some(ev.id),
                }
            } else {
                st
            }
        },
        TouchPhase::Moved => {
            if st.left_id == Some(ev.id) {
                InputState {
                    left: move_spec(st.left, ev.pos),
                    right: st.right,
                    left_id: st.left_id,
                    right_id: st.right_id,
                }
            } else if st.right_id == Some(ev.id) {
                InputState {
                    left: st.left,
                    right: move_spec(st.right, ev.pos),
                    left_id: st.left_id,
                    right_id: st.right_id,
                }
            } else {
                st
            }
        },
        TouchPhase::Ended | TouchPhase::Cancelled => {
            if st.left_id == Some(ev.id) {
                InputState {
                    left: end_spec(st.left),
                    right: st.right,
                    left_id: None,
                    right_id: st.right_id,
                }
            } else if st.right_id == Some(ev.id) {
                InputState {
                    left: st.left,
                    right: end_spec(st.right),
                    left_id: st.left_id,
                    right_id: None,
                }
            } else {
                st
            }
        },
        TouchPhase::Stationary => st,
    }
}

/// The sticks after the first `j` touch events, in order.
pub open spec fn touch_fold(st: InputState, evs: Seq<TouchEvent>, mid: int, j: nat) -> InputState
    decreases j,
{
    if j == 0 {
        st
    } else {
        touch_step(touch_fold(st, evs, mid, (j - 1) as nat), evs[j - 1], mid)
    }
}

/// The mouse fallback: press claims the side's stick, drag moves a held
/// stick on its side, release lets both go.
pub open spec fn mouse_step(st: InputState, m: MouseInput, mid: int) -> InputState {
    if m.pressed {
        if m.pos.x < mid {
            InputState {
                left: start_spec(st.left, m.pos),
                right: st.right,
                left_id: st.left_id,
                right_id: st.right_id,
            }
        } else {
            InputState {
                left: st.left,
                right: start_spec(st.right, m.pos),
                left_id: st.left_id,
                right_id: st.right_id,
            }
        }
    } else if m.down {
        if m.pos.x < mid && st.left.active {
            InputState {
                left: move_spec(st.left, m.pos),
                right: st.right,
                left_id: st.left_id,
                right_id: st.right_id,
            }
        } else if m.pos.x >= mid && st.right.active {
            InputState {
                left: st.left,
                right: move_spec(st.right, m.pos),
                left_id: st.left_id,
                right_id: st.right_id,
            }
        } else {
            st
        }
    } else if m.released {
        InputState {
            left: end_spec(st.left),
            right: end_spec(st.right),
            left_id: st.left_id,
            right_id: st.right_id,
        }
    } else {
        st
    }
}

/// A frame's whole input phase: the touch events in order, or, when no
/// touch is present, the mouse fallback.
pub open spec fn input_apply(
    st: InputState,
    evs: Seq<TouchEvent>,
    m: MouseInput,
    mid: int,
) -> InputState {
    if evs.len() == 0 {
        mouse_step(st, m, mid)
    } else {
        touch_fold(st, evs, mid, evs.len())
    }
}

/// An enemy spawned at a random screen edge, fifty pixels outside.
pub open spec fn spawned_enemy(side: int, coord: int, w: int, h: int) -> Enemy {
    let pos = if side == 0 {
        Vec2 { x: coord as i64, y: -50_000i64 }
    } else if side == 1 {
        Vec2 { x: coord as i64, y: (h + 50_000) as i64 }
    } else if side == 2 {
        Vec2 { x: -50_000i64, y: coord as i64 }
    } else {
        Vec2 { x: (w + 50_000) as i64, y: coord as i64 }
    };
    Enemy {
        pos,
        velocity: Vec2 { x: 0, y: 0 },
        facing: Vec2 { x: 1000, y: 0 },
        health: 2,
        size: 25_000,
    }
}

/// Valid random draws for one spawn: an edge, a coordinate along it, and
/// the next spawn delay.
pub open spec fn spawn_draws_ok(side: int, coord: int, reroll: int, w: int, h: int) -> bool {
    0 <= side < 4 && 0 <= coord && (side < 2 ==> coord < w) && (side >= 2 ==> coord < h) && 1000
        <= reroll < 2500
}

/// Relies on rand::random_range: a uniform draw from a nonempty half-open
/// range lies within it (the function panics only on an empty range,
/// which the precondition rules out).
#[verifier::external_body]
fn rand_in(lo: i64, hi: i64) -> (r: i64)
    requires
        lo < hi,
    ensures
        lo <= r < hi,
{
    rand::random_range(lo..hi)
}

/// The session scalars, unchanged by phases that do not own them.
pub open spec fn same_session_scalars(a: GameState, b: GameState) -> bool {
    a.shoot_cooldown == b.shoot_cooldown && a.enemy_spawn_timer == b.enemy_spawn_timer && a.health
        == b.health && a.score == b.score && a.time == b.time && a.intro_alpha == b.intro_alpha
        && a.game_started == b.game_started && a.safe_time == b.safe_time && a.game_over
        == b.game_over && a.width == b.width && a.height == b.height
}

/// The bullet that leaves the ship's nose: forty-five pixels ahead of the
/// ship along its facing, flying at six hundred pixels per second.
pub open spec fn nose_bullet(p: Player) -> Bullet {
    Bullet {
        pos: Vec2 {
            x: (p.position.x + p.facing.x * 45) as i64,
            y: (p.position.y + p.facing.y * 45) as i64,
        },
        velocity: Vec2 { x: (p.facing.x * 600) as i64, y: (p.facing.y * 600) as i64 },
        life: 2000,
    }
}

/// Every enemy steered one frame toward the player.
pub open spec fn steered_all(s: Seq<Enemy>, target: Vec2, dt: int, w: int, h: int) -> Seq<Enemy> {
    Seq::new(s.len(), |i: int| steered_enemy(s[i], target, dt, w, h))
}

/// Every ambient particle stepped one frame.
pub open spec fn particles_all(s: Seq<Particle>, dt: int, w: int, h: int, time: int) -> Seq<
    Particle,
> {
    Seq::new(s.len(), |i: int| stepped_particle(s[i], dt, w, h, time))
}

/// Every obstacle stepped one frame.
pub open spec fn obstacles_all(s: Seq<Obstacle>, dt: int) -> Seq<Obstacle> {
    Seq::new(s.len(), |i: int| stepped_obstacle(s[i], dt))
}

/// The frame relation: everything one call of `update` does, phase by
/// phase, given the frame's random draws (`side`, `coord` and `reroll`
/// matter only on a frame that spawns an enemy).
#[verifier::opaque]
pub open spec fn frame_rel(
    pre: GameState,
    post: GameState,
    dt: int,
    touches: Seq<TouchEvent>,
    mouse: MouseInput,
    side: int,
    coord: int,
    reroll: int,
) -> bool {
    let w = pre.width as int;
    let h = pre.height as int;
    let time1: int = if pre.time <= 1_000_000_000_000_000 {
        pre.time + dt
    } else {
        pre.time as int
    };
    let alpha_dec = pre.intro_alpha - tdiv(dt as int, 2);
    let alpha1: int = if pre.intro_alpha > 0 {
        if alpha_dec <= 0 {
            0
        } else {
            alpha_dec
        }
    } else {
        pre.intro_alpha as int
    };
    let started1 = if pre.intro_alpha > 0 && alpha_dec <= 0 {
        true
    } else {
        pre.game_started
    };
    let safe1: int = if pre.safe_time > 0 {
        pre.safe_time - dt
    } else {
        pre.safe_time as int
    };
    let ist = input_apply(pre.input_st(), touches, mouse, tdiv(w, 2));
    let movement = input_of(ist.left);
    let aim = input_of(ist.right);
    let v1x = stepped_v(pre.player.velocity.x as int, movement.x as int, dt);
    let v1y = stepped_v(pre.player.velocity.y as int, movement.y as int, dt);
    let p1x = pre.player.position.x + tdiv(v1x * dt, 1000);
    let p1y = pre.player.position.y + tdiv(v1y * dt, 1000);
    let facing1 = if aim.x == 0 && aim.y == 0 {
        pre.player.facing
    } else {
        Vec2 { x: unit_x(aim) as i64, y: unit_y(aim) as i64 }
    };
    let player1 = Player {
        position: Vec2 { x: p1x as i64, y: p1y as i64 },
        velocity: Vec2 { x: v1x as i64, y: v1y as i64 },
        facing: facing1,
    };
    let cd1: int = if pre.shoot_cooldown > -1_000_000 {
        pre.shoot_cooldown - dt
    } else {
        pre.shoot_cooldown as int
    };
    let firing = ist.right.active && cd1 <= 0;
    let cd2: int = if firing {
        150
    } else {
        cd1
    };
    let bullets1 = if firing {
        pre.bullets@.push(nose_bullet(player1))
    } else {
        pre.bullets@
    };
    let trail1 = if iabs(movement.x as int) > 100 || iabs(movement.y as int) > 100 {
        pre.trail@.push(TrailSegment { pos: player1.position, life: 1000, size: 30_000 })
    } else {
        pre.trail@
    };
    let trail2 = capped(aged_trail(trail1, dt), 20);
    let p2 = Vec2 { x: wrap_coord(p1x, w) as i64, y: wrap_coord(p1y, h) as i64 };
    let bullets2 = stepped_bullets(bullets1, dt, w, h);
    let timer_dec = pre.enemy_spawn_timer - dt;
    let spawning = safe1 <= 0 && timer_dec <= 0;
    let timer1: int = if safe1 <= 0 {
        if timer_dec <= 0 {
            reroll
        } else {
            timer_dec
        }
    } else {
        pre.enemy_spawn_timer as int
    };
    let enemies1 = if spawning {
        pre.enemies@.push(spawned_enemy(side, coord, w, h))
    } else {
        pre.enemies@
    };
    let enemies2 = steered_all(enemies1, p2, dt, w, h);
    let battle = resolve_shots_spec(
        Battle {
            enemies: enemies2,
            bullets: bullets2,
            explosions: pre.explosions@,
            score: pre.score as int,
        },
    );
    let khit: int = if safe1 <= 0 {
        first_hit_from(p2, battle.enemies, 0)
    } else {
        battle.enemies.len() as int
    };
    let colliding = khit < battle.enemies.len();
    let enemies3 = if colliding {
        battle.enemies.remove(khit)
    } else {
        battle.enemies
    };
    let explosions1 = if colliding {
        battle.explosions.push(blast_of(battle.enemies[khit]))
    } else {
        battle.explosions
    };
    let health1 = if colliding {
        dec_i32(pre.health)
    } else {
        pre.health
    };
    let safe2: int = if colliding {
        300
    } else {
        safe1
    };
    let explosions2 = stepped_explosions(explosions1, dt);
    &&& (spawning ==> spawn_draws_ok(side, coord, reroll, w, h))
    &&& post.width == pre.width
    &&& post.height == pre.height
    &&& post.time == time1
    &&& post.intro_alpha == alpha1
    &&& post.game_started == started1
    &&& post.input_st() == ist
    &&& post.player.velocity == player1.velocity
    &&& post.player.facing == player1.facing
    &&& post.player.position == p2
    &&& post.shoot_cooldown == cd2
    &&& post.trail@ == trail2
    &&& post.bullets@ == battle.bullets
    &&& post.enemy_spawn_timer == timer1
    &&& post.enemies@ == enemies3
    &&& post.explosions@ == explosions2
    &&& post.score == battle.score
    &&& post.health == health1
    &&& post.safe_time == safe2
    &&& post.particles@ == particles_all(pre.particles@, dt, w, h, time1)
    &&& post.obstacles@ == obstacles_all(pre.obstacles@, dt)
    &&& post.game_over == (pre.game_over || health1 <= 0)
}

/// The first half of a frame: timers, input, player physics, firing, the
/// trail, and the screen wrap.
#[verifier::opaque]
pub open spec fn prelude_rel(
    pre: GameState,
    post: GameState,
    dt: int,
    touches: Seq<TouchEvent>,
    mouse: MouseInput,
) -> bool {
    let w = pre.width as int;
    let h = pre.height as int;
    let time1: int = if pre.time <= 1_000_000_000_000_000 {
        pre.time + dt
    } else {
        pre.time as int
    };
    let alpha_dec = pre.intro_alpha - tdiv(dt, 2);
    let alpha1: int = if pre.intro_alpha > 0 {
        if alpha_dec <= 0 {
            0
        } else {
            alpha_dec
        }
    } else {
        pre.intro_alpha as int
    };
    let started1 = if pre.intro_alpha > 0 && alpha_dec <= 0 {
        true
    } else {
        pre.game_started
    };
    let safe1: int = if pre.safe_time > 0 {
        pre.safe_time - dt
    } else {
        pre.safe_time as int
    };
    let ist = input_apply(pre.input_st(), touches, mouse, tdiv(w, 2));
    let movement = input_of(ist.left);
    let aim = input_of(ist.right);
    let v1x = stepped_v(pre.player.velocity.x as int, movement.x as int, dt);
    let v1y = stepped_v(pre.player.velocity.y as int, movement.y as int, dt);
    let p1x = pre.player.position.x + tdiv(v1x * dt, 1000);
    let p1y = pre.player.position.y + tdiv(v1y * dt, 1000);
    let facing1 = if aim.x == 0 && aim.y == 0 {
        pre.player.facing
    } else {
        Vec2 { x: unit_x(aim) as i64, y: unit_y(aim) as i64 }
    };
    let player1 = Player {
        position: Vec2 { x: p1x as i64, y: p1y as i64 },
        velocity: Vec2 { x: v1x as i64, y: v1y as i64 },
        facing: facing1,
    };
    let cd1: int = if pre.shoot_cooldown > -1_000_000 {
        pre.shoot_cooldown - dt
    } else {
        pre.shoot_cooldown as int
    };
    let firing = ist.right.active && cd1 <= 0;
    let cd2: int = if firing {
        150
    } else {
        cd1
    };
    let bullets1 = if firing {
        pre.bullets@.push(nose_bullet(player1))
    } else {
        pre.bullets@
    };
    let trail1 = if iabs(movement.x as int) > 100 || iabs(movement.y as int) > 100 {
        pre.trail@.push(TrailSegment { pos: player1.position, life: 1000, size: 30_000 })
    } else {
        pre.trail@
    };
    &&& post.width == pre.width
    &&& post.height == pre.height
    &&& post.time == time1
    &&& post.intro_alpha == alpha1
    &&& post.game_started == started1
    &&& post.safe_time == safe1
    &&& post.input_st() == ist
    &&& post.player.velocity == player1.velocity
    &&& post.player.facing == player1.facing
    &&& post.player.position.x == wrap_coord(p1x, w)
    &&& post.player.position.y == wrap_coord(p1y, h)
    &&& post.shoot_cooldown == cd2
    &&& post.bullets@ == bullets1
    &&& post.trail@ == capped(aged_trail(trail1, dt), 20)
    &&& post.enemies@ == pre.enemies@
    &&& post.explosions@ == pre.explosions@
    &&& post.particles@ == pre.particles@
    &&& post.obstacles@ == pre.obstacles@
    &&& post.score == pre.score
    &&& post.health == pre.health
    &&& post.enemy_spawn_timer == pre.enemy_spawn_timer
    &&& post.game_over == pre.game_over
}

/// The second half of a frame: bullet flight, enemy spawn and pursuit,
/// combat, the player collision, effects, ambience and the terminal
/// check, starting from the state the first half left.
#[verifier::opaque]
pub open spec fn combat_rel(
    pre: GameState,
    post: GameState,
    dt: int,
    side: int,
    coord: int,
    reroll: int,
) -> bool {
    let w = pre.width as int;
    let h = pre.height as int;
    let p2 = pre.player.position;
    let bullets2 = stepped_bullets(pre.bullets@, dt, w, h);
    let timer_dec = pre.enemy_spawn_timer - dt;
    let spawning = pre.safe_time <= 0 && timer_dec <= 0;
    let timer1: int = if pre.safe_time <= 0 {
        if timer_dec <= 0 {
            reroll
        } else {
            timer_dec
        }
    } else {
        pre.enemy_spawn_timer as int
    };
    let enemies1 = if spawning {
        pre.enemies@.push(spawned_enemy(side, coord, w, h))
    } else {
        pre.enemies@
    };
    let enemies2 = steered_all(enemies1, p2, dt, w, h);
    let battle = resolve_shots_spec(
        Battle {
            enemies: enemies2,
            bullets: bullets2,
            explosions: pre.explosions@,
            score: pre.score as int,
        },
    );
    let khit: int = if pre.safe_time <= 0 {
        first_hit_from(p2, battle.enemies, 0)
    } else {
        battle.enemies.len() as int
    };
    let colliding = khit < battle.enemies.len();
    let enemies3 = if colliding {
        battle.enemies.remove(khit)
    } else {
        battle.enemies
    };
    let explosions1 = if colliding {
        battle.explosions.push(blast_of(battle.enemies[khit]))
    } else {
        battle.explosions
    };
    let health1 = if colliding {
        dec_i32(pre.health)
    } else {
        pre.health
    };
    let safe2: int = if colliding {
        300
    } else {
        pre.safe_time as int
    };
    &&& (spawning ==> spawn_draws_ok(side, coord, reroll, w, h))
    &&& post.width == pre.width
    &&& post.height == pre.height
    &&& post.time == pre.time
    &&& post.intro_alpha == pre.intro_alpha
    &&& post.game_started == pre.game_started
    &&& post.input_st() == pre.input_st()
    &&& post.player == pre.player
    &&& post.shoot_cooldown == pre.shoot_cooldown
    &&& post.trail@ == pre.trail@
    &&& post.bullets@ == battle.bullets
    &&& post.enemy_spawn_timer == timer1
    &&& post.enemies@ == enemies3
    &&& post.explosions@ == stepped_explosions(explosions1, dt)
    &&& post.score == battle.score
    &&& post.health == health1
    &&& post.safe_time == safe2
    &&& post.particles@ == particles_all(pre.particles@, dt, w, h, pre.time as int)
    &&& post.obstacles@ == obstacles_all(pre.obstacles@, dt)
    &&& post.game_over == (pre.game_over || health1 <= 0)
}

/// The session invariant at the frame's midpoint: as between frames, but
/// a just-fired bullet may still be off screen.
pub open spec fn mid_wf(g: GameState) -> bool {
    &&& 1000 <= g.width <= 10_000_000
    &&& 1000 <= g.height <= 10_000_000
    &&& g.left_joystick.wf()
    &&& g.right_joystick.wf()
    &&& 0 <= g.player.position.x <= g.width
    &&& 0 <= g.player.position.y <= g.height
    &&& in_range(g.player.velocity, 200_000_000)
    &&& norm2(g.player.facing) <= 1_000_000
    &&& in_range(g.player.facing, 1000)
    &&& g.trail@.len() <= 20
    &&& (forall|i: int| 0 <= i < g.trail@.len() ==> segment_wf(#[trigger] g.trail@[i]))
    &&& (forall|i: int| 0 <= i < g.bullets@.len() ==> bullet_pre(#[trigger] g.bullets@[i]))
    &&& (forall|i: int|
        0 <= i < g.enemies@.len() ==> enemy_wf(
            #[trigger] g.enemies@[i],
            g.width as int,
            g.height as int,
        ))
    &&& (forall|i: int|
        0 <= i < g.explosions@.len() ==> explosion_wf(#[trigger] g.explosions@[i]))
    &&& (forall|i: int|
        0 <= i < g.particles@.len() ==> particle_wf(
            #[trigger] g.particles@[i],
            g.width as int,
            g.height as int,
        ))
    &&& (forall|i: int| 0 <= i < g.obstacles@.len() ==> obstacle_wf(#[trigger] g.obstacles@[i]))
    &&& 0 <= g.time <= 1_000_000_000_000_000 + 10_000
    &&& 0 <= g.intro_alpha <= 1000
    &&& (g.game_started <==> g.intro_alpha == 0)
    &&& -10_000 <= g.safe_time <= 3000
    &&& -1_010_000 <= g.shoot_cooldown <= 150
    &&& 0 <= g.enemy_spawn_timer <= 2500
    &&& g.health <= 3
    &&& 0 <= g.score
    &&& (g.game_over <==> g.health <= 0)
}

/// The whole game session.
pub struct GameState {
    pub left_joystick: Joystick,
    pub right_joystick: Joystick,
    pub player: Player,
    pub left_touch_id: Option<u64>,
    pub right_touch_id: Option<u64>,
    pub particles: Vec<Particle>,
    pub trail: Vec<TrailSegment>,
    pub obstacles: Vec<Obstacle>,
    pub bullets: Vec<Bullet>,
    pub enemies: Vec<Enemy>,
    pub explosions: Vec<Explosion>,
    pub shoot_cooldown: i64,
    pub enemy_spawn_timer: i64,
    pub health: i32,
    pub score: i32,
    pub time: i64,
    pub intro_alpha: i64,
    pub game_started: bool,
    pub safe_time: i64,
    pub game_over: bool,
    pub width: i64,
    pub height: i64,
}

/// A pooled bullet between frames: strictly on screen; a spent one (fuse
/// zero) may linger until the next frame removes it.
pub open spec fn pooled_bullet_wf(b: Bullet, w: int, h: int) -> bool {
    0 < b.pos.x < w && 0 < b.pos.y < h && 0 <= b.life <= 2000 && in_range(b.velocity, 1_000_000)
}

impl GameState {
    /// The input-facing slice of the session.
    pub open spec fn input_st(self) -> InputState {
        InputState {
            left: self.left_joystick,
            right: self.right_joystick,
            left_id: self.left_touch_id,
            right_id: self.right_touch_id,
        }
    }

    /// The session invariant, held between frames.
    pub open spec fn wf(self) -> bool {
        &&& 1000 <= self.width <= 10_000_000
        &&& 1000 <= self.height <= 10_000_000
        &&& self.left_joystick.wf()
        &&& self.right_joystick.wf()
        &&& 0 <= self.player.position.x <= self.width
        &&& 0 <= self.player.position.y <= self.height
        &&& in_range(self.player.velocity, 200_000_000)
        &&& norm2(self.player.facing) <= 1_000_000
        &&& in_range(self.player.facing, 1000)
        &&& self.trail@.len() <= 20
        &&& (forall|i: int| 0 <= i < self.trail@.len() ==> segment_wf(#[trigger] self.trail@[i]))
        &&& (forall|i: int|
            0 <= i < self.bullets@.len() ==> pooled_bullet_wf(
                #[trigger] self.bullets@[i],
                self.width as int,
                self.height as int,
            ))
        &&& (forall|i: int|
            0 <= i < self.enemies@.len() ==> enemy_wf(
                #[trigger] self.enemies@[i],
                self.width as int,
                self.height as int,
            ))
        &&& (forall|i: int|
            0 <= i < self.explosions@.len() ==> explosion_wf(#[trigger] self.explosions@[i]))
        &&& (forall|i: int|
            0 <= i < self.particles@.len() ==> particle_wf(
                #[trigger] self.particles@[i],
                self.width as int,
                self.height as int,
            ))
        &&& (forall|i: int|
            0 <= i < self.obstacles@.len() ==> obstacle_wf(#[trigger] self.obstacles@[i]))
        &&& 0 <= self.time <= 1_000_000_000_000_000 + 10_000
        &&& 0 <= self.intro_alpha <= 1000
        &&& (self.game_started <==> self.intro_alpha == 0)
        &&& -10_000 <= self.safe_time <= 3000
        &&& -1_010_000 <= self.shoot_cooldown <= 150
        &&& 0 <= self.enemy_spawn_timer <= 2500
        &&& self.health <= 3
        &&& 0 <= self.score
        &&& (self.game_over <==> self.health <= 0)
    }

    /// A fresh session on a `width` by `height` screen (in milli-pixels):
    /// full health, the intro fading in, three seconds of grace, the ship
    /// at the center, and randomly scattered ambient dressing.
    pub fn new(width: i64, height: i64) -> (g: GameState)
        requires
            1000 <= width <= 10_000_000,
            1000 <= height <= 10_000_000,
        ensures
            g.wf(),
            g.width == width && g.height == height,
            g.health == 3 && g.score == 0 && g.time == 0,
            g.intro_alpha == 1000 && !g.game_started && !g.game_over,
            g.safe_time == 3000 && g.shoot_cooldown == 0 && g.enemy_spawn_timer == 0,
            (g.player.position.x as int) == tdiv(width as int, 2),
            (g.player.position.y as int) == tdiv(height as int, 2),
            g.player.velocity.x == 0 && g.player.velocity.y == 0,
            g.player.facing.x == 1000 && g.player.facing.y == 0,
            !g.left_joystick.active && g.left_joystick.radius == 80_000,
            !g.right_joystick.active && g.right_joystick.radius == 80_000,
            g.left_touch_id is None && g.right_touch_id is None,
            g.trail@.len() == 0 && g.bullets@.len() == 0 && g.enemies@.len() == 0
                && g.explosions@.len() == 0,
            g.particles@.len() == 150,
            g.obstacles@.len() == 5,
            forall|i: int|
                0 <= i < 5 ==> (#[trigger] g.obstacles@[i]).pos.x == tdiv(3 * width as int, 10) + i
                    * 150_000 && g.obstacles@[i].pos.y == tdiv(height as int, 2) + 100 * sine_spec(
                    i * 50_000,
                ) && g.obstacles@[i].size == 40_000 && 0 <= g.obstacles@[i].glow_phase < 6280,
    {
        let mut particles: Vec<Particle> = Vec::new();
        let mut i: usize = 0;
        while i < 150
            invariant
                i <= 150,
                particles@.len() == i,
                1000 <= width <= 10_000_000,
                1000 <= height <= 10_000_000,
                forall|k: int|
                    0 <= k < particles@.len() ==> particle_wf(
                        #[trigger] particles@[k],
                        width as int,
                        height as int,
                    ),
            decreases 150 - i,
        {
            let px = rand_in(0, width);
            let py = rand_in(0, height);
            let vx = rand_in(-15_000, 15_000);
            let vy = rand_in(-15_000, 15_000);
            let size = rand_in(1000, 3000);
            let alpha = rand_in(100, 400);
            particles.push(
                Particle {
                    pos: Vec2 { x: px, y: py },
                    velocity: Vec2 { x: vx, y: vy },
                    size,
                    alpha,
                },
            );
            i = i + 1;
        }
        let mut obstacles: Vec<Obstacle> = Vec::new();
        let base_x: i64 = (width * 3) / 10;
        let base_y: i64 = height / 2;
        let mut j: usize = 0;
        while j < 5
            invariant
                j <= 5,
                obstacles@.len() == j,
                1000 <= width <= 10_000_000,
                1000 <= height <= 10_000_000,
                base_x as int == tdiv(3 * width as int, 10),
                base_y as int == tdiv(height as int, 2),
                0 <= base_x <= 3_000_000,
                0 <= base_y <= 5_000_000,
                forall|k: int|
                    0 <= k < obstacles@.len() ==> (#[trigger] obstacles@[k]).pos.x == base_x + k
                        * 150_000 && obstacles@[k].pos.y == base_y + 100 * sine_spec(k * 50_000)
                        && obstacles@[k].size == 40_000 && 0 <= obstacles@[k].glow_phase < 6280,
                forall|k: int| 0 <= k < obstacles@.len() ==> obstacle_wf(#[trigger] obstacles@[k]),
            decreases 5 - j,
        {
            let wave: i64 = sine((j as i64) * 50_000);
            let glow = rand_in(0, 6280);
            obstacles.push(
                Obstacle {
                    pos: Vec2 { x: base_x + (j as i64) * 150_000, y: base_y + 100 * wave },
                    size: 40_000,
                    glow_phase: glow,
                },
            );
            j = j + 1;
        }
        let g = GameState {
            left_joystick: Joystick::new(80_000),
            right_joystick: Joystick::new(80_000),
            player: Player::new(Vec2 { x: width / 2, y: height / 2 }),
            left_touch_id: None,
            right_touch_id: None,
            particles,
            trail: Vec::new(),
            obstacles,
            bullets: Vec::new(),
            enemies: Vec::new(),
            explosions: Vec::new(),
            shoot_cooldown: 0,
            enemy_spawn_timer: 0,
            health: 3,
            score: 0,
            time: 0,
            intro_alpha: 1000,
            game_started: false,
            safe_time: 3000,
            game_over: false,
            width,
            height,
        };
        proof {
            assert(norm2(g.player.facing) == 1_000_000) by (nonlinear_arith)
                requires
                    g.player.facing.x == 1000 && g.player.facing.y == 0,
            ;
            lemma_tdiv_bounds(width as int, 2);
            lemma_tdiv_bounds(height as int, 2);
        }
        g
    }

    /// Maps this frame's touch events (or the mouse fallback when no touch
    /// is present) onto the two sticks, holding a stable id binding per
    /// stick until its touch ends.
    fn handle_input(&mut self, touches: &Vec<TouchEvent>, mouse: &MouseInput)
        requires
            old(self).left_joystick.wf(),
            old(self).right_joystick.wf(),
            1000 <= old(self).width <= 10_000_000,
            forall|i: int|
                0 <= i < touches@.len() ==> in_range((#[trigger] touches@[i]).pos, 10_000_000),
            in_range(mouse.pos, 10_000_000),
        ensures
            final(self).input_st() == input_apply(
                old(self).input_st(),
                touches@,
                *mouse,
                tdiv(old(self).width as int, 2),
            ),
            final(self).left_joystick.wf(),
            final(self).right_joystick.wf(),
            final(self).player == old(self).player,
            final(self).particles@ == old(self).particles@,
            final(self).trail@ == old(self).trail@,
            final(self).obstacles@ == old(self).obstacles@,
            final(self).bullets@ == old(self).bullets@,
            final(self).enemies@ == old(self).enemies@,
            final(self).explosions@ == old(self).explosions@,
            same_session_scalars(*final(self), *old(self)),
    {
        let mid: i64 = self.width / 2;
        let ghost st0 = self.input_st();
        let ghost evs = touches@;
        let n: usize = touches.len();
        let mut i: usize = 0;
        while i < n
            invariant
                i <= n,
                n == evs.len(),
                touches@ == evs,
                forall|k: int|
                    0 <= k < evs.len() ==> in_range((#[trigger] evs[k]).pos, 10_000_000),
                st0 == old(self).input_st(),
                self.input_st() == touch_fold(st0, evs, mid as int, i as nat),
                self.left_joystick.wf(),
                self.right_joystick.wf(),
                self.player == old(self).player,
                self.particles@ == old(self).particles@,
                self.trail@ == old(self).trail@,
                self.obstacles@ == old(self).obstacles@,
                self.bullets@ == old(self).bullets@,
                self.enemies@ == old(self).enemies@,
                self.explosions@ == old(self).explosions@,
                same_session_scalars(*self, *old(self)),
            decreases n - i,
        {
            let ev = touches[i];
            match ev.phase {
                TouchPhase::Started => {
                    let l_free = match self.left_touch_id {
                        None => true,
                        Some(_) => false,
                    };
                    let r_free = match self.right_touch_id {
                        None => true,
                        Some(_) => false,
                    };
                    if ev.pos.x < mid && l_free {
                        self.left_joystick.on_touch_start(ev.pos);
                        self.left_touch_id = Some(ev.id);
                    } else if ev.pos.x >= mid && r_free {
                        self.right_joystick.on_touch_start(ev.pos);
                        self.right_touch_id = Some(ev.id);
                    }
                },
                TouchPhase::Moved => {
                    let l_held = match self.left_touch_id {
                        Some(lid) => lid == ev.id,
                        None => false,
                    };
                    let r_held = match self.right_touch_id {
                        Some(rid) => rid == ev.id,
                        None => false,
                    };
                    if l_held {
                        self.left_joystick.on_touch_move(ev.pos);
                    } else if r_held {
                        self.right_joystick.on_touch_move(ev.pos);
                    }
                },
                TouchPhase::Ended | TouchPhase::Cancelled => {
                    let l_held = match self.left_touch_id {
                        Some(lid) => lid == ev.id,
                        None => false,
                    };
                    let r_held = match self.right_touch_id {
                        Some(rid) => rid == ev.id,
                        None => false,
                    };
                    if l_held {
                        self.left_joystick.on_touch_end();
                        self.left_touch_id = None;
                    } else if r_held {
                        self.right_joystick.on_touch_end();
                        self.right_touch_id = None;
                    }
                },
                TouchPhase::Stationary => {},
            }
            i = i + 1;
        }
        if n == 0 {
            if mouse.pressed {
                if mouse.pos.x < mid {
                    self.left_joystick.on_touch_start(mouse.pos);
                } else {
                    self.right_joystick.on_touch_start(mouse.pos);
                }
            } else if mouse.down {
                if mouse.pos.x < mid && self.left_joystick.active {
                    self.left_joystick.on_touch_move(mouse.pos);
                } else if mouse.pos.x >= mid && self.right_joystick.active {
                    self.right_joystick.on_touch_move(mouse.pos);
                }
            } else if mouse.released {
                self.left_joystick.on_touch_end();
                self.right_joystick.on_touch_end();
            }
        }
    }

    /// Fires one bullet from the ship's nose, along its facing, at six
    /// hundred pixels per second with a two second fuse.
    pub fn shoot(&mut self)
        requires
            in_range(old(self).player.position, 2_100_000_000),
            in_range(old(self).player.facing, 1000),
        ensures
            final(self).bullets@ == old(self).bullets@.push(nose_bullet(old(self).player)),
            final(self).player == old(self).player,
            final(self).input_st() == old(self).input_st(),
            final(self).particles@ == old(self).particles@,
            final(self).trail@ == old(self).trail@,
            final(self).obstacles@ == old(self).obstacles@,
            final(self).enemies@ == old(self).enemies@,
            final(self).explosions@ == old(self).explosions@,
            same_session_scalars(*final(self), *old(self)),
    {
        let bx: i64 = self.player.position.x + self.player.facing.x * 45;
        let by: i64 = self.player.position.y + self.player.facing.y * 45;
        let vx: i64 = self.player.facing.x * 600;
        let vy: i64 = self.player.facing.y * 600;
        self.bullets.push(
            Bullet { pos: Vec2 { x: bx, y: by }, velocity: Vec2 { x: vx, y: vy }, life: 2000 },
        );
    }

    /// Spawns one enemy at a uniformly chosen screen edge, fifty pixels
    /// outside the bounds, at rest, with two health.
    pub fn spawn_enemy(&mut self)
        requires
            1000 <= old(self).width <= 10_000_000,
            1000 <= old(self).height <= 10_000_000,
        ensures
            exists|side: int, coord: int|
                0 <= side < 4 && 0 <= coord && (side < 2 ==> coord < old(self).width) && (side >= 2
                    ==> coord < old(self).height) && final(self).enemies@ == old(
                    self,
                ).enemies@.push(
                    spawned_enemy(side, coord, old(self).width as int, old(self).height as int),
                ),
            final(self).player == old(self).player,
            final(self).input_st() == old(self).input_st(),
            final(self).particles@ == old(self).particles@,
            final(self).trail@ == old(self).trail@,
            final(self).obstacles@ == old(self).obstacles@,
            final(self).bullets@ == old(self).bullets@,
            final(self).explosions@ == old(self).explosions@,
            same_session_scalars(*final(self), *old(self)),
    {
        let side: i64 = rand_in(0, 4);
        let ghost w = self.width as int;
        let ghost h = self.height as int;
        let pos: Vec2;
        let ghost_coord: i64;
        if side == 0 {
            let c = rand_in(0, self.width);
            pos = Vec2 { x: c, y: -50_000 };
            ghost_coord = c;
        } else if side == 1 {
            let c = rand_in(0, self.width);
            pos = Vec2 { x: c, y: self.height + 50_000 };
            ghost_coord = c;
        } else if side == 2 {
            let c = rand_in(0, self.height);
            pos = Vec2 { x: -50_000, y: c };
            ghost_coord = c;
        } else {
            let c = rand_in(0, self.height);
            pos = Vec2 { x: self.width + 50_000, y: c };
            ghost_coord = c;
        }
        let e = Enemy {
            pos,
            velocity: Vec2 { x: 0, y: 0 },
            facing: Vec2 { x: 1000, y: 0 },
            health: 2,
            size: 25_000,
        };
        proof {
            assert(e == spawned_enemy(side as int, ghost_coord as int, w, h));
        }
        self.enemies.push(e);
    }

    /// The frame's first half: timers, input ingestion, player physics,
    /// firing, the trail, and the screen wrap.
    #[verifier::rlimit(100)]
    #[verifier::spinoff_prover]
    fn frame_prelude(&mut self, dt: i64, touches: &Vec<TouchEvent>, mouse: &MouseInput)
        requires
            old(self).wf(),
            0 <= dt <= 10_000,
            forall|i: int|
                0 <= i < touches@.len() ==> in_range((#[trigger] touches@[i]).pos, 10_000_000),
            in_range(mouse.pos, 10_000_000),
        ensures
            mid_wf(*final(self)),
            prelude_rel(*old(self), *final(self), dt as int, touches@, *mouse),
    {
        let ghost pre = *old(self);
        if self.time <= 1_000_000_000_000_000 {
            self.time = self.time + dt;
        }
        if self.intro_alpha > 0 {
            self.intro_alpha = self.intro_alpha - dt / 2;
            if self.intro_alpha <= 0 {
                self.intro_alpha = 0;
                self.game_started = true;
            }
        }
        if self.safe_time > 0 {
            self.safe_time = self.safe_time - dt;
        }
        self.handle_input(touches, mouse);
        let movement = self.left_joystick.get_input();
        let aim = self.right_joystick.get_input();
        self.player.update(movement, aim, dt);
        if self.shoot_cooldown > -1_000_000 {
            self.shoot_cooldown = self.shoot_cooldown - dt;
        }
        if self.right_joystick.active && self.shoot_cooldown <= 0 {
            self.shoot();
            self.shoot_cooldown = 150;
        }
        let mx: i64 = if movement.x >= 0 {
            movement.x
        } else {
            -movement.x
        };
        let my: i64 = if movement.y >= 0 {
            movement.y
        } else {
            -movement.y
        };
        if mx > 100 || my > 100 {
            self.trail.push(TrailSegment { pos: self.player.position, life: 1000, size: 30_000 });
        }
        step_trail(&mut self.trail, dt);
        let px: i64 = wrap_exec(self.player.position.x, self.width);
        let py: i64 = wrap_exec(self.player.position.y, self.height);
        self.player.position = Vec2 { x: px, y: py };
        proof {
            assert(prelude_rel(pre, *self, dt as int, touches@, *mouse)) by {
                reveal(prelude_rel);
            }
            assert(forall|i: int|
                0 <= i < self.bullets@.len() ==> bullet_pre(#[trigger] self.bullets@[i])) by {};
            assert(mid_wf(*self)) by {};
        }
    }

    /// The frame's second half: bullet flight, enemy spawn and pursuit,
    /// combat, the player collision, effects, ambience and the terminal
    /// check. Returns the frame's random draws for the specification.
    #[verifier::rlimit(100)]
    #[verifier::spinoff_prover]
    fn frame_combat(&mut self, dt: i64) -> (draws: Ghost<(int, int, int)>)
        requires
            mid_wf(*old(self)),
            0 <= dt <= 10_000,
        ensures
            final(self).wf(),
            combat_rel(*old(self), *final(self), dt as int, draws@.0, draws@.1, draws@.2),
    {
        let ghost pre = *old(self);
        step_bullets(&mut self.bullets, dt, self.width, self.height);
        let ghost mut side_g: int = 0;
        let ghost mut coord_g: int = 0;
        let ghost mut reroll_g: int = 1000;
        if self.safe_time <= 0 {
            self.enemy_spawn_timer = self.enemy_spawn_timer - dt;
            if self.enemy_spawn_timer <= 0 {
                self.spawn_enemy();
                proof {
                    let (s, c): (int, int) = choose|s: int, c: int|
                        0 <= s < 4 && 0 <= c && (s < 2 ==> c < pre.width) && (s >= 2 ==> c
                            < pre.height) && self.enemies@ == pre.enemies@.push(
                            spawned_enemy(s, c, pre.width as int, pre.height as int),
                        );
                    side_g = s;
                    coord_g = c;
                }
                let t = rand_in(1000, 2500);
                self.enemy_spawn_timer = t;
                proof {
                    reroll_g = t as int;
                }
            }
        }
        proof {
            assert(forall|i: int|
                0 <= i < self.enemies@.len() ==> enemy_wf(
                    #[trigger] self.enemies@[i],
                    self.width as int,
                    self.height as int,
                )) by {};
        }
        let ghost enemies1 = self.enemies@;
        step_enemies(&mut self.enemies, self.player.position, dt, self.width, self.height);
        proof {
            assert(self.enemies@ =~= steered_all(
                enemies1,
                self.player.position,
                dt as int,
                self.width as int,
                self.height as int,
            )) by {};
        }
        let ghost enemies2 = self.enemies@;
        let ghost bullets2 = self.bullets@;
        let ghost explosions0 = self.explosions@;
        resolve_shots(&mut self.enemies, &mut self.bullets, &mut self.explosions, &mut self.score);
        let ghost battle_enemies = self.enemies@;
        let ghost battle_explosions = self.explosions@;
        proof {
            let w = self.width as int;
            let h = self.height as int;
            assert forall|i: int| 0 <= i < self.enemies@.len() implies enemy_wf(
                #[trigger] self.enemies@[i],
                w,
                h,
            ) by {
                let m = choose|m: int|
                    0 <= m < enemies2.len() && self.enemies@[i].pos == (#[trigger] enemies2[m]).pos
                        && self.enemies@[i].size == enemies2[m].size && self.enemies@[i].velocity
                        == enemies2[m].velocity && self.enemies@[i].facing == enemies2[m].facing
                        && 0 < self.enemies@[i].health <= enemies2[m].health;
                assert(enemy_wf(enemies2[m], w, h));
            }
            assert forall|i: int| 0 <= i < self.explosions@.len() implies explosion_wf(
                #[trigger] self.explosions@[i],
            ) by {
                if i < explosions0.len() {
                    assert(self.explosions@[i] == explosions0[i]);
                } else {
                    let m = choose|m: int|
                        0 <= m < enemies2.len() && self.explosions@[i] == (Explosion {
                            pos: (#[trigger] enemies2[m]).pos,
                            life: 500,
                            size: (2 * enemies2[m].size) as i64,
                        });
                    assert(enemy_wf(enemies2[m], w, h));
                }
            }
        }
        if self.safe_time <= 0 {
            resolve_collision(
                &mut self.enemies,
                &mut self.explosions,
                &mut self.health,
                &mut self.safe_time,
                self.player.position,
            );
        }
        proof {
            crate::combat::lemma_first_hit(self.player.position, battle_enemies, 0);
            crate::combat::lemma_collision_outcome_wf(
                battle_enemies,
                self.enemies@,
                battle_explosions,
                self.explosions@,
                self.player.position,
                self.width as int,
                self.height as int,
            );
        }
        step_explosions(&mut self.explosions, dt);
        step_particles(&mut self.particles, dt, self.width, self.height, self.time);
        step_obstacles(&mut self.obstacles, dt);
        if self.health <= 0 {
            self.game_over = true;
        }
        proof {
            assert(self.particles@ =~= particles_all(
                pre.particles@,
                dt as int,
                pre.width as int,
                pre.height as int,
                pre.time as int,
            )) by {};
            assert(self.obstacles@ =~= obstacles_all(pre.obstacles@, dt as int)) by {};
            assert(combat_rel(pre, *self, dt as int, side_g, coord_g, reroll_g)) by {
                reveal(combat_rel);
            }
            assert(self.wf()) by {};
        }
        Ghost((side_g, coord_g, reroll_g))
    }

    /// One frame of the simulation, in the fixed phase order: timers,
    /// input, player physics, firing, trail, screen wrap, bullets, enemy
    /// spawn and pursuit, bullet combat, the player collision, effects,
    /// ambience, and the terminal check.
    #[verifier::rlimit(100)]
    #[verifier::spinoff_prover]
    pub fn update(&mut self, dt: i64, touches: &Vec<TouchEvent>, mouse: &MouseInput)
        requires
            old(self).wf(),
            0 <= dt <= 10_000,
            forall|i: int|
                0 <= i < touches@.len() ==> in_range((#[trigger] touches@[i]).pos, 10_000_000),
            in_range(mouse.pos, 10_000_000),
        ensures
            final(self).wf(),
            exists|side: int, coord: int, reroll: int|
                frame_rel(
                    *old(self),
                    *final(self),
                    dt as int,
                    touches@,
                    *mouse,
                    side,
                    coord,
                    reroll,
                ),
    {
        let ghost pre = *old(self);
        self.frame_prelude(dt, touches, mouse);
        let draws = self.frame_combat(dt);
        proof {
            assert(frame_rel(
                pre,
                *self,
                dt as int,
                touches@,
                *mouse,
                draws@.0,
                draws@.1,
                draws@.2,
            )) by {
                reveal(frame_rel);
                reveal(prelude_rel);
                reveal(combat_rel);
            }
        }
    }

}

} // verus!
