//! Entity pools and their per-frame phases: trail, bullets, explosions,
//! ambient particles, obstacles, enemy pursuit, and screen wrapping.

use vstd::prelude::*;

verus! {

use crate::fixed::iabs;
use crate::fixed::tdiv;
use crate::fixed::sqrt_ceil;
use crate::fixed::sine_spec;
use crate::fixed::sine;
use crate::fixed::lemma_tdiv_bounds;
use crate::fixed::mul_div;
use crate::fixed::isqrt_ceil;
use crate::joystick::Vec2;
use crate::joystick::in_range;
use crate::joystick::lemma_scaled_in_disc;

/// An ambient background particle.
#[derive(Clone, Copy, Debug, PartialEq, Eq, Structural)]
pub struct Particle {
    pub pos: Vec2,
    pub velocity: Vec2,
    pub size: i64,
    pub alpha: i64,
}

/// A fading segment of the player's thruster trail.
#[derive(Clone, Copy, Debug, PartialEq, Eq, Structural)]
pub struct TrailSegment {
    pub pos: Vec2,
    pub life: i64,
    pub size: i64,
}

/// A decorative glowing obstacle.
#[derive(Clone, Copy, Debug, PartialEq, Eq, Structural)]
pub struct Obstacle {
    pub pos: Vec2,
    pub size: i64,
    pub glow_phase: i64,
}

/// A projectile fired from the ship's nose.
#[derive(Clone, Copy, Debug, PartialEq, Eq, Structural)]
pub struct Bullet {
    pub pos: Vec2,
    pub velocity: Vec2,
    pub life: i64,
}

/// A pursuing enemy.
#[derive(Clone, Copy, Debug, PartialEq, Eq, Structural)]
pub struct Enemy {
    pub pos: Vec2,
    pub velocity: Vec2,
    /// Unit direction toward the player, at scale 1000.
    pub facing: Vec2,
    pub health: i32,
    pub size: i64,
}

/// A growing, fading blast left where an enemy died.
#[derive(Clone, Copy, Debug, PartialEq, Eq, Structural)]
pub struct Explosion {
    pub pos: Vec2,
    pub life: i64,
    pub size: i64,
}

/// Toroidal wrap of one coordinate: leaving one edge re-enters at the
/// opposite one.
pub open spec fn wrap_coord(x: int, limit: int) -> int {
    if x < 0 {
        limit
    } else if x > limit {
        0
    } else {
        x
    }
}

/// Wrap with the fifty-pixel margin enemies are allowed to roam in.
pub open spec fn wrap_margin(x: int, limit: int) -> int {
    if x < -50_000 {
        limit + 50_000
    } else if x > limit + 50_000 {
        -50_000
    } else {
        x
    }
}

pub fn wrap_exec(x: i64, limit: i64) -> (r: i64)
    requires
        0 <= limit <= 10_000_000,
        iabs(x as int) <= 3_000_000_000,
    ensures
        (r as int) == wrap_coord(x as int, limit as int),
        0 <= r <= limit,
{
    if x < 0 {
        limit
    } else if x > limit {
        0
    } else {
        x
    }
}

pub fn wrap_margin_exec(x: i64, limit: i64) -> (r: i64)
    requires
        0 <= limit <= 10_000_000,
        iabs(x as int) <= 3_000_000_000,
    ensures
        (r as int) == wrap_margin(x as int, limit as int),
        -50_000 <= r <= limit + 50_000,
{
    if x < -50_000 {
        limit + 50_000
    } else if x > limit + 50_000 {
        -50_000
    } else {
        x
    }
}

/// Wrapping twice is wrapping once: a coordinate already wrapped, even one
/// sitting exactly on an edge, is left where it is.
pub proof fn lemma_wrap_idempotent(x: int, limit: int)
    requires
        0 <= limit,
    ensures
        wrap_coord(wrap_coord(x, limit), limit) == wrap_coord(x, limit),
        wrap_margin(wrap_margin(x, limit), limit) == wrap_margin(x, limit),
{
}

// ---------------------------------------------------------------- trail

/// A live trail segment: its size shrinks in lockstep with its life.
pub open spec fn segment_wf(s: TrailSegment) -> bool {
    0 < s.life <= 1000 && s.size == 20 * s.life + 10_000 && in_range(s.pos, 3_000_000_000)
}

pub open spec fn aged_segment(s: TrailSegment, dt: int) -> TrailSegment {
    TrailSegment { pos: s.pos, life: (s.life - 2 * dt) as i64, size: (s.size - 40 * dt) as i64 }
}

/// Aging a trail: every segment fades and shrinks, and the spent ones
/// leave, keeping the others in order.
pub open spec fn aged_trail(s: Seq<TrailSegment>, dt: int) -> Seq<TrailSegment>
    decreases s.len(),
{
    if s.len() == 0 {
        Seq::empty()
    } else {
        let prev = aged_trail(s.drop_last(), dt);
        let a = aged_segment(s.last(), dt);
        if a.life > 0 {
            prev.push(a)
        } else {
            prev
        }
    }
}

/// The newest `cap` elements, in order.
pub open spec fn capped<A>(s: Seq<A>, cap: int) -> Seq<A> {
    if s.len() <= cap {
        s
    } else {
        s.skip(s.len() - cap)
    }
}

/// Ages the trail, drops spent segments, and keeps only the twenty newest.
pub fn step_trail(trail: &mut Vec<TrailSegment>, dt: i64)
    requires
        0 <= dt <= 10_000,
        forall|i: int| 0 <= i < old(trail)@.len() ==> segment_wf(#[trigger] old(trail)@[i]),
    ensures
        final(trail)@ == capped(aged_trail(old(trail)@, dt as int), 20),
        final(trail)@.len() <= 20,
        forall|i: int| 0 <= i < final(trail)@.len() ==> segment_wf(#[trigger] final(trail)@[i]),
{
    let ghost s = trail@;
    let mut out: Vec<TrailSegment> = Vec::new();
    let mut i: usize = 0;
    while i < trail.len()
        invariant
            trail@ == s,
            i <= s.len(),
            0 <= dt <= 10_000,
            forall|k: int| 0 <= k < s.len() ==> segment_wf(#[trigger] s[k]),
            out@ == aged_trail(s.take(i as int), dt as int),
            forall|k: int| 0 <= k < out@.len() ==> segment_wf(#[trigger] out@[k]),
        decreases s.len() - i,
    {
        let seg = trail[i];
        let aged = TrailSegment { pos: seg.pos, life: seg.life - 2 * dt, size: seg.size - 40 * dt };
        if aged.life > 0 {
            out.push(aged);
        }
        proof {
            assert(s.take(i as int + 1).drop_last() =~= s.take(i as int));
            assert(s.take(i as int + 1).last() == s[i as int]);
        }
        i = i + 1;
    }
    proof {
        assert(s.take(s.len() as int) =~= s);
    }
    if out.len() > 20 {
        let mut res: Vec<TrailSegment> = Vec::new();
        let start: usize = out.len() - 20;
        let mut j: usize = start;
        while j < out.len()
            invariant
                start <= j <= out@.len(),
                start == out@.len() - 20,
                res@ == out@.subrange(start as int, j as int),
                forall|k: int| 0 <= k < out@.len() ==> segment_wf(#[trigger] out@[k]),
                forall|k: int| 0 <= k < res@.len() ==> segment_wf(#[trigger] res@[k]),
            decreases out@.len() - j,
        {
            let v = out[j];
            res.push(v);
            proof {
                assert(out@.subrange(start as int, j as int + 1) =~= out@.subrange(
                    start as int,
                    j as int,
                ).push(out@[j as int]));
            }
            j = j + 1;
        }
        proof {
            assert(res@ =~= out@.skip(out@.len() - 20));
        }
        *trail = res;
    } else {
        *trail = out;
    }
}

/// Segments that all outlive the frame are only aged, none is dropped.
pub proof fn lemma_trail_all_survive(s: Seq<TrailSegment>, dt: int)
    requires
        0 <= dt,
        forall|i: int| 0 <= i < s.len() ==> (#[trigger] s[i]).life > 2 * dt,
    ensures
        aged_trail(s, dt).len() == s.len(),
        forall|i: int| 0 <= i < s.len() ==> aged_trail(s, dt)[i] == aged_segment(s[i], dt),
    decreases s.len(),
{
    if s.len() == 0 {
    } else {
        lemma_trail_all_survive(s.drop_last(), dt);
        assert(s.last() == s[s.len() - 1]);
        assert(s.last().life > 2 * dt);
        assert(aged_segment(s.last(), dt).life == s.last().life - 2 * dt);
        assert(aged_trail(s, dt) == aged_trail(s.drop_last(), dt).push(
            aged_segment(s.last(), dt),
        ));
    }
}

/// After more than twenty spawns whose segments all outlive the frame, the
/// pool holds exactly the twenty newest, in insertion order.
pub proof fn lemma_trail_keeps_newest(s: Seq<TrailSegment>, dt: int)
    requires
        0 <= dt,
        s.len() > 20,
        forall|i: int| 0 <= i < s.len() ==> (#[trigger] s[i]).life > 2 * dt,
    ensures
        capped(aged_trail(s, dt), 20).len() == 20,
        forall|i: int|
            0 <= i < 20 ==> capped(aged_trail(s, dt), 20)[i] == aged_segment(
                s[s.len() - 20 + i],
                dt,
            ),
{
    lemma_trail_all_survive(s, dt);
}

// -------------------------------------------------------------- bullets

pub open spec fn moved_bullet(b: Bullet, dt: int) -> Bullet {
    Bullet {
        pos: Vec2 {
            x: (b.pos.x + tdiv((b.velocity.x as int) * dt, 1000)) as i64,
            y: (b.pos.y + tdiv((b.velocity.y as int) * dt, 1000)) as i64,
        },
        velocity: b.velocity,
        life: (b.life - dt) as i64,
    }
}

/// A bullet stays only while its fuse burns and it is strictly on screen.
pub open spec fn bullet_kept(b: Bullet, w: int, h: int) -> bool {
    b.life > 0 && 0 < b.pos.x < w && 0 < b.pos.y < h
}

pub open spec fn stepped_bullets(s: Seq<Bullet>, dt: int, w: int, h: int) -> Seq<Bullet>
    decreases s.len(),
{
    if s.len() == 0 {
        Seq::empty()
    } else {
        let prev = stepped_bullets(s.drop_last(), dt, w, h);
        let m = moved_bullet(s.last(), dt);
        if bullet_kept(m, w, h) {
            prev.push(m)
        } else {
            prev
        }
    }
}

/// Loose per-bullet bounds that hold of anything the game ever pools,
/// including a bullet just fired from the nose.
pub open spec fn bullet_pre(b: Bullet) -> bool {
    in_range(b.pos, 3_000_000_000) && in_range(b.velocity, 1_000_000) && 0 <= b.life <= 2000
}

/// A pooled bullet after the frame: on screen with a burning fuse.
pub open spec fn bullet_wf(b: Bullet, w: int, h: int) -> bool {
    0 < b.pos.x < w && 0 < b.pos.y < h && 0 < b.life <= 2000 && in_range(b.velocity, 1_000_000)
}

/// Flies, burns and prunes the bullet pool.
pub fn step_bullets(bullets: &mut Vec<Bullet>, dt: i64, w: i64, h: i64)
    requires
        0 <= dt <= 10_000,
        1 <= w <= 10_000_000,
        1 <= h <= 10_000_000,
        forall|i: int| 0 <= i < old(bullets)@.len() ==> bullet_pre(#[trigger] old(bullets)@[i]),
    ensures
        final(bullets)@ == stepped_bullets(old(bullets)@, dt as int, w as int, h as int),
        forall|i: int|
            0 <= i < final(bullets)@.len() ==> bullet_wf(
                #[trigger] final(bullets)@[i],
                w as int,
                h as int,
            ),
{
    let ghost s = bullets@;
    let mut out: Vec<Bullet> = Vec::new();
    let mut i: usize = 0;
    while i < bullets.len()
        invariant
            bullets@ == s,
            i <= s.len(),
            0 <= dt <= 10_000,
            1 <= w <= 10_000_000,
            1 <= h <= 10_000_000,
            forall|k: int| 0 <= k < s.len() ==> bullet_pre(#[trigger] s[k]),
            out@ == stepped_bullets(s.take(i as int), dt as int, w as int, h as int),
            forall|k: int| 0 <= k < out@.len() ==> bullet_wf(#[trigger] out@[k], w as int, h as int),
        decreases s.len() - i,
    {
        let b = bullets[i];
        let sx: i64 = mul_div(b.velocity.x, dt, 1000);
        let sy: i64 = mul_div(b.velocity.y, dt, 1000);
        proof {
            assert(iabs((b.velocity.x as int) * (dt as int)) <= 10_000_000_000int)
                by (nonlinear_arith)
                requires
                    iabs(b.velocity.x as int) <= 1_000_000,
                    0 <= dt <= 10_000,
            ;
            assert(iabs((b.velocity.y as int) * (dt as int)) <= 10_000_000_000int)
                by (nonlinear_arith)
                requires
                    iabs(b.velocity.y as int) <= 1_000_000,
                    0 <= dt <= 10_000,
            ;
            lemma_tdiv_bounds((b.velocity.x as int) * (dt as int), 1000);
            lemma_tdiv_bounds((b.velocity.y as int) * (dt as int), 1000);
        }
        let m = Bullet {
            pos: Vec2 { x: b.pos.x + sx, y: b.pos.y + sy },
            velocity: b.velocity,
            life: b.life - dt,
        };
        if m.life > 0 && m.pos.x > 0 && m.pos.x < w && m.pos.y > 0 && m.pos.y < h {
            out.push(m);
        }
        proof {
            assert(s.take(i as int + 1).drop_last() =~= s.take(i as int));
            assert(s.take(i as int + 1).last() == s[i as int]);
        }
        i = i + 1;
    }
    proof {
        assert(s.take(s.len() as int) =~= s);
    }
    *bullets = out;
}

/// Stepping never revives or spawns: each surviving bullet is some old
/// bullet flown for `dt`, with that much less life.
pub proof fn lemma_bullets_only_age(s: Seq<Bullet>, dt: int, w: int, h: int)
    ensures
        forall|i: int|
            0 <= i < stepped_bullets(s, dt, w, h).len() ==> exists|j: int|
                0 <= j < s.len() && #[trigger] stepped_bullets(s, dt, w, h)[i] == moved_bullet(
                    s[j],
                    dt,
                ),
    decreases s.len(),
{
    if s.len() == 0 {
    } else {
        lemma_bullets_only_age(s.drop_last(), dt, w, h);
        let prev = stepped_bullets(s.drop_last(), dt, w, h);
        let full = stepped_bullets(s, dt, w, h);
        assert forall|i: int| 0 <= i < full.len() implies exists|j: int|
            0 <= j < s.len() && #[trigger] full[i] == moved_bullet(s[j], dt) by {
            if i < prev.len() {
                let j = choose|j: int|
                    0 <= j < s.drop_last().len() && prev[i] == moved_bullet(s.drop_last()[j], dt);
                assert(full[i] == moved_bullet(s[j], dt));
            } else {
                assert(full[i] == moved_bullet(s[s.len() - 1], dt));
            }
        }
    }
}

/// Bullets never outlive their fuse: if every bullet has at most `l` life
/// left, a frame of `dt` leaves only bullets with at most `l - dt`, and a
/// frame at least as long as the longest fuse empties the pool.
pub proof fn lemma_bullet_expiry(s: Seq<Bullet>, dt: int, w: int, h: int, l: int)
    requires
        0 <= dt <= 10_000,
        forall|i: int| 0 <= i < s.len() ==> 0 <= (#[trigger] s[i]).life <= 2000,
        forall|i: int| 0 <= i < s.len() ==> (#[trigger] s[i]).life <= l,
    ensures
        forall|i: int|
            0 <= i < stepped_bullets(s, dt, w, h).len() ==> (#[trigger] stepped_bullets(
                s,
                dt,
                w,
                h,
            )[i]).life <= l - dt,
        l <= dt ==> stepped_bullets(s, dt, w, h).len() == 0,
    decreases s.len(),
{
    if s.len() == 0 {
    } else {
        lemma_bullet_expiry(s.drop_last(), dt, w, h, l);
        let prev = stepped_bullets(s.drop_last(), dt, w, h);
        let full = stepped_bullets(s, dt, w, h);
        let m = moved_bullet(s.last(), dt);
        assert(m.life == s.last().life - dt);
        assert forall|i: int| 0 <= i < full.len() implies (#[trigger] full[i]).life <= l - dt by {
            if i < prev.len() {
                assert(full[i] == prev[i]);
            } else {
                assert(full[i] == m);
            }
        }
        if l <= dt {
            assert(!bullet_kept(m, w, h));
            assert(full == prev);
        }
    }
}

/// The bullet pools reached by repeated frames.
pub open spec fn bullets_after(s: Seq<Bullet>, dts: Seq<int>, w: int, h: int) -> Seq<Bullet>
    decreases dts.len(),
{
    if dts.len() == 0 {
        s
    } else {
        bullets_after(stepped_bullets(s, dts[0], w, h), dts.drop_first(), w, h)
    }
}

pub open spec fn sum_seq(dts: Seq<int>) -> int
    decreases dts.len(),
{
    if dts.len() == 0 {
        0
    } else {
        dts[0] + sum_seq(dts.drop_first())
    }
}

proof fn lemma_empty_stays_empty(dts: Seq<int>, w: int, h: int)
    ensures
        bullets_after(Seq::empty(), dts, w, h).len() == 0,
    decreases dts.len(),
{
    if dts.len() == 0 {
    } else {
        assert(stepped_bullets(Seq::empty(), dts[0], w, h) =~= Seq::<Bullet>::empty());
        lemma_empty_stays_empty(dts.drop_first(), w, h);
    }
}

/// A bullet pool whose fuses are all at most `l` is empty once frames
/// totalling at least `l` have passed: a bullet spawned with two seconds
/// of life is gone from the pool two seconds later.
pub proof fn lemma_bullet_lifetime(s: Seq<Bullet>, dts: Seq<int>, w: int, h: int, l: int)
    requires
        dts.len() >= 1,
        forall|i: int| 0 <= i < dts.len() ==> 0 <= #[trigger] dts[i] <= 10_000,
        forall|i: int| 0 <= i < s.len() ==> 0 <= (#[trigger] s[i]).life <= 2000,
        forall|i: int| 0 <= i < s.len() ==> (#[trigger] s[i]).life <= l,
        sum_seq(dts) >= l,
    ensures
        bullets_after(s, dts, w, h).len() == 0,
    decreases dts.len(),
{
    let s1 = stepped_bullets(s, dts[0], w, h);
    lemma_bullet_expiry(s, dts[0], w, h, l);
    let rest = dts.drop_first();
    if l - dts[0] <= 0 {
        assert(forall|i: int| 0 <= i < s1.len() ==> (#[trigger] s1[i]).life <= 0);
        if s1.len() > 0 {
            assert(s1[0].life <= l - dts[0]);
            lemma_stepped_bullets_alive(s, dts[0], w, h);
            assert(false);
        }
        assert(s1 =~= Seq::<Bullet>::empty());
        lemma_empty_stays_empty(rest, w, h);
    } else {
        if rest.len() == 0 {
            assert(sum_seq(rest) == 0);
            assert(sum_seq(dts) == dts[0] + sum_seq(rest));
            assert(false);
        } else {
            lemma_stepped_bullets_alive(s, dts[0], w, h);
            lemma_bullet_bounds(s, dts[0], w, h);
            assert(sum_seq(rest) == sum_seq(dts) - dts[0]);
            lemma_bullet_lifetime(s1, rest, w, h, l - dts[0]);
        }
    }
}

/// Stepped bullets keep their fuse within the pool's bounds.
pub proof fn lemma_bullet_bounds(s: Seq<Bullet>, dt: int, w: int, h: int)
    requires
        0 <= dt <= 10_000,
        forall|i: int| 0 <= i < s.len() ==> 0 <= (#[trigger] s[i]).life <= 2000,
    ensures
        forall|i: int|
            0 <= i < stepped_bullets(s, dt, w, h).len() ==> 0 <= (#[trigger] stepped_bullets(
                s,
                dt,
                w,
                h,
            )[i]).life <= 2000,
    decreases s.len(),
{
    if s.len() == 0 {
    } else {
        lemma_bullet_bounds(s.drop_last(), dt, w, h);
        let prev = stepped_bullets(s.drop_last(), dt, w, h);
        let full = stepped_bullets(s, dt, w, h);
        let m = moved_bullet(s.last(), dt);
        assert forall|i: int| 0 <= i < full.len() implies 0 <= (#[trigger] full[i]).life <= 2000 by {
            if i < prev.len() {
                assert(full[i] == prev[i]);
            } else {
                assert(full[i] == m);
                assert(bullet_kept(m, w, h));
            }
        }
    }
}

/// Every pooled bullet's fuse is still burning.
pub proof fn lemma_stepped_bullets_alive(s: Seq<Bullet>, dt: int, w: int, h: int)
    ensures
        forall|i: int|
            0 <= i < stepped_bullets(s, dt, w, h).len() ==> (#[trigger] stepped_bullets(
                s,
                dt,
                w,
                h,
            )[i]).life > 0,
    decreases s.len(),
{
    if s.len() == 0 {
    } else {
        lemma_stepped_bullets_alive(s.drop_last(), dt, w, h);
        let prev = stepped_bullets(s.drop_last(), dt, w, h);
        let full = stepped_bullets(s, dt, w, h);
        assert forall|i: int| 0 <= i < full.len() implies (#[trigger] full[i]).life > 0 by {
            if i < prev.len() {
                assert(full[i] == prev[i]);
            } else {
                assert(full[i] == moved_bullet(s.last(), dt));
                assert(bullet_kept(moved_bullet(s.last(), dt), w, h));
            }
        }
    }
}

// ----------------------------------------------------------- explosions

pub open spec fn aged_explosion(e: Explosion, dt: int) -> Explosion {
    Explosion { pos: e.pos, life: (e.life - 2 * dt) as i64, size: (e.size + 100 * dt) as i64 }
}

pub open spec fn stepped_explosions(s: Seq<Explosion>, dt: int) -> Seq<Explosion>
    decreases s.len(),
{
    if s.len() == 0 {
        Seq::empty()
    } else {
        let prev = stepped_explosions(s.drop_last(), dt);
        let a = aged_explosion(s.last(), dt);
        if a.life > 0 {
            prev.push(a)
        } else {
            prev
        }
    }
}

/// A live blast: it can only have grown as far as its spent life allows.
pub open spec fn explosion_wf(e: Explosion) -> bool {
    0 < e.life <= 500 && 0 <= e.size && e.size <= 50_000 + 50 * (500 - e.life) && in_range(
        e.pos,
        20_000_000,
    )
}

/// Fades and grows the blasts, removing the burnt-out ones.
pub fn step_explosions(explosions: &mut Vec<Explosion>, dt: i64)
    requires
        0 <= dt <= 10_000,
        forall|i: int| 0 <= i < old(explosions)@.len() ==> explosion_wf(#[trigger] old(explosions)@[i]),
    ensures
        final(explosions)@ == stepped_explosions(old(explosions)@, dt as int),
        forall|i: int|
            0 <= i < final(explosions)@.len() ==> explosion_wf(#[trigger] final(explosions)@[i]),
{
    let ghost s = explosions@;
    let mut out: Vec<Explosion> = Vec::new();
    let mut i: usize = 0;
    while i < explosions.len()
        invariant
            explosions@ == s,
            i <= s.len(),
            0 <= dt <= 10_000,
            forall|k: int| 0 <= k < s.len() ==> explosion_wf(#[trigger] s[k]),
            out@ == stepped_explosions(s.take(i as int), dt as int),
            forall|k: int| 0 <= k < out@.len() ==> explosion_wf(#[trigger] out@[k]),
        decreases s.len() - i,
    {
        let e = explosions[i];
        let a = Explosion { pos: e.pos, life: e.life - 2 * dt, size: e.size + 100 * dt };
        if a.life > 0 {
            out.push(a);
        }
        proof {
            assert(s.take(i as int + 1).drop_last() =~= s.take(i as int));
            assert(s.take(i as int + 1).last() == s[i as int]);
        }
        i = i + 1;
    }
    proof {
        assert(s.take(s.len() as int) =~= s);
    }
    *explosions = out;
}

// ------------------------------------------------------------ particles

pub open spec fn particle_wf(p: Particle, w: int, h: int) -> bool {
    0 <= p.pos.x <= w && 0 <= p.pos.y <= h && in_range(p.velocity, 15_000) && 0 <= p.size <= 3000
        && 0 <= p.alpha <= 1000
}

/// One frame of an ambient particle: drift, wrap, and a breathing alpha
/// phased by time and horizontal position.
pub open spec fn stepped_particle(p: Particle, dt: int, w: int, h: int, time: int) -> Particle {
    let nx = wrap_coord(p.pos.x + tdiv((p.velocity.x as int) * dt, 1000), w);
    let ny = wrap_coord(p.pos.y + tdiv((p.velocity.y as int) * dt, 1000), h);
    Particle {
        pos: Vec2 { x: nx as i64, y: ny as i64 },
        velocity: p.velocity,
        size: p.size,
        alpha: (200 + tdiv(sine_spec(2 * time + tdiv(nx, 100)), 10)) as i64,
    }
}

/// Drifts, wraps and pulses every ambient particle; none is ever removed.
pub fn step_particles(particles: &mut Vec<Particle>, dt: i64, w: i64, h: i64, time: i64)
    requires
        0 <= dt <= 10_000,
        1 <= w <= 10_000_000,
        1 <= h <= 10_000_000,
        0 <= time <= 2_000_000_000_000_000,
        forall|i: int|
            0 <= i < old(particles)@.len() ==> particle_wf(
                #[trigger] old(particles)@[i],
                w as int,
                h as int,
            ),
    ensures
        final(particles)@.len() == old(particles)@.len(),
        forall|i: int|
            0 <= i < final(particles)@.len() ==> final(particles)@[i] == stepped_particle(
                #[trigger] old(particles)@[i],
                dt as int,
                w as int,
                h as int,
                time as int,
            ),
        forall|i: int|
            0 <= i < final(particles)@.len() ==> particle_wf(
                #[trigger] final(particles)@[i],
                w as int,
                h as int,
            ),
{
    let ghost s = particles@;
    let mut i: usize = 0;
    while i < particles.len()
        invariant
            particles@.len() == s.len(),
            i <= s.len(),
            0 <= dt <= 10_000,
            1 <= w <= 10_000_000,
            1 <= h <= 10_000_000,
            0 <= time <= 2_000_000_000_000_000,
            forall|k: int| 0 <= k < s.len() ==> particle_wf(#[trigger] s[k], w as int, h as int),
            forall|k: int| i <= k < s.len() ==> particles@[k] == s[k],
            forall|k: int|
                0 <= k < i ==> particles@[k] == stepped_particle(
                    #[trigger] s[k],
                    dt as int,
                    w as int,
                    h as int,
                    time as int,
                ),
            forall|k: int|
                0 <= k < i ==> particle_wf(#[trigger] particles@[k], w as int, h as int),
        decreases s.len() - i,
    {
        let p = particles[i];
        proof {
            assert(particles@[i as int] == s[i as int]);
            assert(particle_wf(p, w as int, h as int));
        }
        let sx: i64 = mul_div(p.velocity.x, dt, 1000);
        let sy: i64 = mul_div(p.velocity.y, dt, 1000);
        proof {
            assert(iabs((p.velocity.x as int) * (dt as int)) <= 150_000_000int)
                by (nonlinear_arith)
                requires
                    iabs(p.velocity.x as int) <= 15_000,
                    0 <= dt <= 10_000,
            ;
            assert(iabs((p.velocity.y as int) * (dt as int)) <= 150_000_000int)
                by (nonlinear_arith)
                requires
                    iabs(p.velocity.y as int) <= 15_000,
                    0 <= dt <= 10_000,
            ;
            lemma_tdiv_bounds((p.velocity.x as int) * (dt as int), 1000);
            lemma_tdiv_bounds((p.velocity.y as int) * (dt as int), 1000);
        }
        let nx: i64 = wrap_exec(p.pos.x + sx, w);
        let ny: i64 = wrap_exec(p.pos.y + sy, h);
        let phase: i64 = 2 * time + nx / 100;
        let pulse: i64 = sine(phase);
        let q = Particle {
            pos: Vec2 { x: nx, y: ny },
            velocity: p.velocity,
            size: p.size,
            alpha: 200 + pulse / 10,
        };
        particles.set(i, q);
        i = i + 1;
    }
}

// ------------------------------------------------------------ obstacles

pub open spec fn obstacle_wf(o: Obstacle) -> bool {
    0 <= o.glow_phase <= 2_000_000_000_000_000 + 20_000 && o.size == 40_000 && in_range(
        o.pos,
        20_000_000,
    )
}

/// One frame of an obstacle: only its glow phase advances (it saturates
/// far beyond any plausible session length instead of overflowing).
pub open spec fn stepped_obstacle(o: Obstacle, dt: int) -> Obstacle {
    Obstacle {
        pos: o.pos,
        size: o.size,
        glow_phase: if o.glow_phase <= 2_000_000_000_000_000 {
            (o.glow_phase + 2 * dt) as i64
        } else {
            o.glow_phase
        },
    }
}

pub fn step_obstacles(obstacles: &mut Vec<Obstacle>, dt: i64)
    requires
        0 <= dt <= 10_000,
        forall|i: int| 0 <= i < old(obstacles)@.len() ==> obstacle_wf(#[trigger] old(obstacles)@[i]),
    ensures
        final(obstacles)@.len() == old(obstacles)@.len(),
        forall|i: int|
            0 <= i < final(obstacles)@.len() ==> final(obstacles)@[i] == stepped_obstacle(
                #[trigger] old(obstacles)@[i],
                dt as int,
            ),
        forall|i: int|
            0 <= i < final(obstacles)@.len() ==> obstacle_wf(#[trigger] final(obstacles)@[i]),
{
    let ghost s = obstacles@;
    let mut i: usize = 0;
    while i < obstacles.len()
        invariant
            obstacles@.len() == s.len(),
            i <= s.len(),
            0 <= dt <= 10_000,
            forall|k: int| 0 <= k < s.len() ==> obstacle_wf(#[trigger] s[k]),
            forall|k: int| i <= k < s.len() ==> obstacles@[k] == s[k],
            forall|k: int|
                0 <= k < i ==> obstacles@[k] == stepped_obstacle(#[trigger] s[k], dt as int),
            forall|k: int| 0 <= k < i ==> obstacle_wf(#[trigger] obstacles@[k]),
        decreases s.len() - i,
    {
        let o = obstacles[i];
        proof {
            assert(obstacles@[i as int] == s[i as int]);
            assert(obstacle_wf(o));
        }
        let phase: i64 = if o.glow_phase <= 2_000_000_000_000_000 {
            o.glow_phase + 2 * dt
        } else {
            o.glow_phase
        };
        obstacles.set(i, Obstacle { pos: o.pos, size: o.size, glow_phase: phase });
        i = i + 1;
    }
}

// -------------------------------------------------------------- enemies

/// An enemy roaming the screen plus its fifty-pixel margin, still alive.
pub open spec fn enemy_wf(e: Enemy, w: int, h: int) -> bool {
    -50_000 <= e.pos.x <= w + 50_000 && -50_000 <= e.pos.y <= h + 50_000 && 1 <= e.health <= 2
        && e.size == 25_000 && in_range(e.velocity, 150_000) && in_range(e.facing, 1000)
}

/// One frame of pursuit: aim straight at the player at fixed speed, face
/// that way, fly, and wrap inside the margin.
pub open spec fn steered_enemy(e: Enemy, target: Vec2, dt: int, w: int, h: int) -> Enemy {
    let dx = target.x - e.pos.x;
    let dy = target.y - e.pos.y;
    let n = dx * dx + dy * dy;
    let vel = if n > 0 {
        Vec2 {
            x: tdiv(dx * 150_000, sqrt_ceil(n)) as i64,
            y: tdiv(dy * 150_000, sqrt_ceil(n)) as i64,
        }
    } else {
        e.velocity
    };
    let face = if n > 0 {
        Vec2 { x: tdiv(dx * 1000, sqrt_ceil(n)) as i64, y: tdiv(dy * 1000, sqrt_ceil(n)) as i64 }
    } else {
        e.facing
    };
    Enemy {
        pos: Vec2 {
            x: wrap_margin(e.pos.x + tdiv((vel.x as int) * dt, 1000), w) as i64,
            y: wrap_margin(e.pos.y + tdiv((vel.y as int) * dt, 1000), h) as i64,
        },
        velocity: vel,
        facing: face,
        health: e.health,
        size: e.size,
    }
}

/// Every enemy re-aims at the player and flies one frame.
pub fn step_enemies(enemies: &mut Vec<Enemy>, target: Vec2, dt: i64, w: i64, h: i64)
    requires
        0 <= dt <= 10_000,
        1 <= w <= 10_000_000,
        1 <= h <= 10_000_000,
        0 <= target.x <= w,
        0 <= target.y <= h,
        forall|i: int|
            0 <= i < old(enemies)@.len() ==> enemy_wf(#[trigger] old(enemies)@[i], w as int, h as int),
    ensures
        final(enemies)@.len() == old(enemies)@.len(),
        forall|i: int|
            0 <= i < final(enemies)@.len() ==> final(enemies)@[i] == steered_enemy(
                #[trigger] old(enemies)@[i],
                target,
                dt as int,
                w as int,
                h as int,
            ),
        forall|i: int|
            0 <= i < final(enemies)@.len() ==> enemy_wf(
                #[trigger] final(enemies)@[i],
                w as int,
                h as int,
            ),
{
    let ghost s = enemies@;
    let mut i: usize = 0;
    while i < enemies.len()
        invariant
            enemies@.len() == s.len(),
            i <= s.len(),
            0 <= dt <= 10_000,
            1 <= w <= 10_000_000,
            1 <= h <= 10_000_000,
            0 <= target.x <= w,
            0 <= target.y <= h,
            forall|k: int| 0 <= k < s.len() ==> enemy_wf(#[trigger] s[k], w as int, h as int),
            forall|k: int| i <= k < s.len() ==> enemies@[k] == s[k],
            forall|k: int|
                0 <= k < i ==> enemies@[k] == steered_enemy(
                    #[trigger] s[k],
                    target,
                    dt as int,
                    w as int,
                    h as int,
                ),
            forall|k: int| 0 <= k < i ==> enemy_wf(#[trigger] enemies@[k], w as int, h as int),
        decreases s.len() - i,
    {
        let e = enemies[i];
        proof {
            assert(enemies@[i as int] == s[i as int]);
            assert(enemy_wf(e, w as int, h as int));
        }
        let dx: i64 = target.x - e.pos.x;
        let dy: i64 = target.y - e.pos.y;
        proof {
            assert(0 <= (dx as int) * (dx as int) <= 500_000_000_000_000int && 0 <= (dy as int) * (
            dy as int) <= 500_000_000_000_000int) by (nonlinear_arith)
                requires
                    iabs(dx as int) <= 21_000_000,
                    iabs(dy as int) <= 21_000_000,
            ;
        }
        let n: i64 = dx * dx + dy * dy;
        let mut vel: Vec2 = e.velocity;
        let mut face: Vec2 = e.facing;
        if n > 0 {
            let l: u64 = isqrt_ceil(n as u64);
            proof {
                assert(l >= 1) by (nonlinear_arith)
                    requires
                        (n as int) <= (l as int) * (l as int),
                        (n as int) > 0,
                        0 <= (l as int),
                ;
                assert((l as int) <= 40_000_000int) by (nonlinear_arith)
                    requires
                        ((l as int) - 1) * ((l as int) - 1) < (n as int),
                        (n as int) <= 1_000_000_000_000_000int,
                        0 <= (l as int),
                ;
            }
            let li: i64 = l as i64;
            let vx: i64 = mul_div(dx, 150_000, li);
            let vy: i64 = mul_div(dy, 150_000, li);
            let fx: i64 = mul_div(dx, 1000, li);
            let fy: i64 = mul_div(dy, 1000, li);
            proof {
                lemma_scaled_in_disc(
                    dx as int,
                    dy as int,
                    150_000,
                    li as int,
                    vx as int,
                    vy as int,
                );
                lemma_scaled_in_disc(dx as int, dy as int, 1000, li as int, fx as int, fy as int);
            }
            vel = Vec2 { x: vx, y: vy };
            face = Vec2 { x: fx, y: fy };
        }
        let sx: i64 = mul_div(vel.x, dt, 1000);
        let sy: i64 = mul_div(vel.y, dt, 1000);
        proof {
            assert(iabs((vel.x as int) * (dt as int)) <= 1_500_000_000int) by (nonlinear_arith)
                requires
                    iabs(vel.x as int) <= 150_000,
                    0 <= dt <= 10_000,
            ;
            assert(iabs((vel.y as int) * (dt as int)) <= 1_500_000_000int) by (nonlinear_arith)
                requires
                    iabs(vel.y as int) <= 150_000,
                    0 <= dt <= 10_000,
            ;
            lemma_tdiv_bounds((vel.x as int) * (dt as int), 1000);
            lemma_tdiv_bounds((vel.y as int) * (dt as int), 1000);
        }
        let px: i64 = wrap_margin_exec(e.pos.x + sx, w);
        let py: i64 = wrap_margin_exec(e.pos.y + sy, h);
        let ne = Enemy {
            pos: Vec2 { x: px, y: py },
            velocity: vel,
            facing: face,
            health: e.health,
            size: e.size,
        };
        enemies.set(i, ne);
        i = i + 1;
    }
}

} // verus!
