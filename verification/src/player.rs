//! Player kinematics: thrust, damping, integration and facing.

use vstd::prelude::*;

verus! {

use crate::fixed::iabs;
use crate::fixed::tdiv;
use crate::fixed::lemma_tdiv_bounds;
use crate::fixed::mul_div;
use crate::joystick::Vec2;
use crate::joystick::norm2;
use crate::joystick::in_range;
use crate::joystick::unit_x;
use crate::joystick::unit_y;

/// The largest speed a component can reach under full thrust: the fixed
/// point of one damped, fully thrusted frame, with margin.
pub const VEL_LIMIT: i64 = 200_000_000;

/// A velocity component after one frame of thrust from deflection `m`.
pub open spec fn thrusted(v: int, m: int, dt: int) -> int {
    v + tdiv(m * (400 * dt), 1000)
}

/// A velocity component after the per-frame damping.
pub open spec fn damped(v: int) -> int {
    tdiv(v * 980, 1000)
}

/// A velocity component after one whole frame: thrust, then damping.
pub open spec fn stepped_v(v: int, m: int, dt: int) -> int {
    damped(thrusted(v, m, dt))
}

/// The player ship.
#[derive(Clone, Copy, Debug)]
pub struct Player {
    pub position: Vec2,
    /// Velocity in milli-pixels per second.
    pub velocity: Vec2,
    /// Unit direction the nose points at, at scale 1000.
    pub facing: Vec2,
}

impl Player {
    pub fn new(start_pos: Vec2) -> (r: Player)
        ensures
            r.position == start_pos,
            r.velocity.x == 0 && r.velocity.y == 0,
            r.facing.x == 1000 && r.facing.y == 0,
            norm2(r.facing) == 1_000_000,
    {
        let p = Player {
            position: start_pos,
            velocity: Vec2 { x: 0, y: 0 },
            facing: Vec2 { x: 1000, y: 0 },
        };
        proof {
            assert(norm2(p.facing) == 1_000_000) by (nonlinear_arith)
                requires
                    p.facing.x == 1000 && p.facing.y == 0,
            ;
        }
        p
    }

    /// One frame of physics: thrust along the movement deflection, damping,
    /// integration, and a new facing when the aim stick is deflected.
    pub fn update(&mut self, movement: Vec2, aim: Vec2, dt: i64)
        requires
            in_range(old(self).position, 100_000_000),
            in_range(old(self).velocity, VEL_LIMIT as int),
            norm2(old(self).facing) <= 1_000_000,
            in_range(old(self).facing, 1000),
            in_range(movement, 1000),
            in_range(aim, 1000),
            0 <= dt <= 10_000,
        ensures
            (final(self).velocity.x as int) == stepped_v(old(self).velocity.x as int, movement.x as int, dt as int),
            (final(self).velocity.y as int) == stepped_v(old(self).velocity.y as int, movement.y as int, dt as int),
            in_range(final(self).velocity, VEL_LIMIT as int),
            (final(self).position.x as int) == old(self).position.x + tdiv(
                (final(self).velocity.x as int) * (dt as int),
                1000,
            ),
            (final(self).position.y as int) == old(self).position.y + tdiv(
                (final(self).velocity.y as int) * (dt as int),
                1000,
            ),
            in_range(final(self).position, 2_100_000_000),
            aim.x == 0 && aim.y == 0 ==> final(self).facing == old(self).facing,
            !(aim.x == 0 && aim.y == 0) ==> (final(self).facing.x as int) == unit_x(aim) && (
            final(self).facing.y as int) == unit_y(aim),
            norm2(final(self).facing) <= 1_000_000,
            in_range(final(self).facing, 1000),
    {
        let coeff: i64 = 400 * dt;
        let dvx: i64 = mul_div(movement.x, coeff, 1000);
        let dvy: i64 = mul_div(movement.y, coeff, 1000);
        proof {
            assert(iabs((movement.x as int) * (coeff as int)) <= 4_000_000_000int)
                by (nonlinear_arith)
                requires
                    iabs(movement.x as int) <= 1000,
                    iabs(coeff as int) <= 4_000_000,
            ;
            assert(iabs((movement.y as int) * (coeff as int)) <= 4_000_000_000int)
                by (nonlinear_arith)
                requires
                    iabs(movement.y as int) <= 1000,
                    iabs(coeff as int) <= 4_000_000,
            ;
        }
        let tx: i64 = self.velocity.x + dvx;
        let ty: i64 = self.velocity.y + dvy;
        let vx: i64 = mul_div(tx, 980, 1000);
        let vy: i64 = mul_div(ty, 980, 1000);
        proof {
            assert((tx as int) * 980 == 980 * (tx as int)) by (nonlinear_arith);
            assert((ty as int) * 980 == 980 * (ty as int)) by (nonlinear_arith);
            assert(iabs(980 * (tx as int)) == 980 * iabs(tx as int));
            assert(iabs(980 * (ty as int)) == 980 * iabs(ty as int));
        }
        self.velocity = Vec2 { x: vx, y: vy };
        let sx: i64 = mul_div(vx, dt, 1000);
        let sy: i64 = mul_div(vy, dt, 1000);
        proof {
            assert(iabs((vx as int) * (dt as int)) <= 2_000_000_000_000int) by (nonlinear_arith)
                requires
                    iabs(vx as int) <= 200_000_000,
                    0 <= dt <= 10_000,
            ;
            assert(iabs((vy as int) * (dt as int)) <= 2_000_000_000_000int) by (nonlinear_arith)
                requires
                    iabs(vy as int) <= 200_000_000,
                    0 <= dt <= 10_000,
            ;
            lemma_tdiv_bounds((vx as int) * (dt as int), 1000);
            lemma_tdiv_bounds((vy as int) * (dt as int), 1000);
        }
        self.position = Vec2 { x: self.position.x + sx, y: self.position.y + sy };
        if aim.x != 0 || aim.y != 0 {
            proof {
                assert(norm2(aim) > 0) by (nonlinear_arith)
                    requires
                        aim.x != 0 || aim.y != 0,
            ;
            }
            self.facing = aim.normalize();
        }
    }

    pub fn reset_velocity(&mut self)
        ensures
            final(self).velocity.x == 0 && final(self).velocity.y == 0,
            final(self).position == old(self).position,
            final(self).facing == old(self).facing,
    {
        self.velocity = Vec2 { x: 0, y: 0 };
    }
}

/// Damping never grows a velocity component and strictly shrinks a
/// nonzero one, so with the stick released the ship coasts toward rest.
pub proof fn lemma_damping_converges(v: int)
    ensures
        iabs(damped(v)) <= iabs(v),
        v != 0 ==> iabs(damped(v)) < iabs(v),
        damped(0) == 0,
{
    lemma_tdiv_bounds(v * 980, 1000);
    assert(v * 980 == 980 * v) by (nonlinear_arith);
    assert(iabs(980 * v) == 980 * iabs(v));
}

/// With the movement stick released a frame is pure damping, and a moving
/// ship's squared speed strictly decreases.
pub proof fn lemma_coasting_slows(vx: int, vy: int, dt: int)
    requires
        0 <= dt,
    ensures
        stepped_v(vx, 0, dt) == damped(vx),
        stepped_v(vy, 0, dt) == damped(vy),
        damped(vx) * damped(vx) + damped(vy) * damped(vy) <= vx * vx + vy * vy,
        vx != 0 || vy != 0 ==> damped(vx) * damped(vx) + damped(vy) * damped(vy) < vx * vx + vy
            * vy,
{
    assert(tdiv(0 * (400 * dt), 1000) == 0);
    lemma_damping_converges(vx);
    lemma_damping_converges(vy);
    assert(damped(vx) * damped(vx) <= vx * vx) by (nonlinear_arith)
        requires
            iabs(damped(vx)) <= iabs(vx),
            iabs(damped(vx)) == damped(vx) || iabs(damped(vx)) == -damped(vx),
            iabs(vx) == vx || iabs(vx) == -vx,
    ;
    assert(damped(vy) * damped(vy) <= vy * vy) by (nonlinear_arith)
        requires
            iabs(damped(vy)) <= iabs(vy),
            iabs(damped(vy)) == damped(vy) || iabs(damped(vy)) == -damped(vy),
            iabs(vy) == vy || iabs(vy) == -vy,
    ;
    if vx != 0 {
        assert(damped(vx) * damped(vx) < vx * vx) by (nonlinear_arith)
            requires
                iabs(damped(vx)) < iabs(vx),
                iabs(damped(vx)) == damped(vx) || iabs(damped(vx)) == -damped(vx),
                iabs(vx) == vx || iabs(vx) == -vx,
        ;
    } else if vy != 0 {
        assert(damped(vy) * damped(vy) < vy * vy) by (nonlinear_arith)
            requires
                iabs(damped(vy)) < iabs(vy),
                iabs(damped(vy)) == damped(vy) || iabs(damped(vy)) == -damped(vy),
                iabs(vy) == vy || iabs(vy) == -vy,
        ;
    }
}

} // verus!
