//! The planar vector type and the virtual joystick state machine.

use vstd::prelude::*;

verus! {

use crate::fixed::iabs;
use crate::fixed::tdiv;
use crate::fixed::sqrt_floor;
use crate::fixed::sqrt_ceil;
use crate::fixed::lemma_sqrt_floor;
use crate::fixed::lemma_sqrt_ceil;
use crate::fixed::lemma_tdiv_bounds;
use crate::fixed::lemma_sq_le;
use crate::fixed::lemma_component_below_sqrt;
use crate::fixed::mul_div;
use crate::fixed::isqrt;
use crate::fixed::isqrt_ceil;

/// A planar vector. One unit is a thousandth of a pixel (or, for joystick
/// input, a thousandth of a full deflection).
#[derive(Clone, Copy, Debug, PartialEq, Eq, Structural)]
pub struct Vec2 {
    pub x: i64,
    pub y: i64,
}

/// Squared Euclidean norm, exact.
pub open spec fn norm2(v: Vec2) -> int {
    (v.x as int) * (v.x as int) + (v.y as int) * (v.y as int)
}

/// Both components bounded by `b` in magnitude.
pub open spec fn in_range(v: Vec2, b: int) -> bool {
    iabs(v.x as int) <= b && iabs(v.y as int) <= b
}

/// Each component of the unit vector along `v`, at scale 1000.
pub open spec fn unit_x(v: Vec2) -> int {
    tdiv(1000 * (v.x as int), sqrt_ceil(norm2(v)))
}

pub open spec fn unit_y(v: Vec2) -> int {
    tdiv(1000 * (v.y as int), sqrt_ceil(norm2(v)))
}

/// Rescaling `(dx, dy)` by `k / l`, rounding toward zero, lands inside the
/// disc of radius `k` whenever `l` dominates the vector's norm.
pub proof fn lemma_scaled_in_disc(dx: int, dy: int, k: int, l: int, nx: int, ny: int)
    requires
        1 <= l,
        0 <= k,
        dx * dx + dy * dy <= l * l,
        l * iabs(nx) <= iabs(dx * k),
        l * iabs(ny) <= iabs(dy * k),
    ensures
        nx * nx + ny * ny <= k * k,
        iabs(nx) <= k,
        iabs(ny) <= k,
{
    let mx = iabs(nx);
    let my = iabs(ny);
    let px = iabs(dx * k);
    let py = iabs(dy * k);
    assert(mx * mx == nx * nx) by (nonlinear_arith)
        requires
            mx == nx || mx == -nx,
    ;
    assert(my * my == ny * ny) by (nonlinear_arith)
        requires
            my == ny || my == -ny,
    ;
    assert(px * px == (dx * dx) * (k * k)) by (nonlinear_arith)
        requires
            px == dx * k || px == -(dx * k),
    ;
    assert(py * py == (dy * dy) * (k * k)) by (nonlinear_arith)
        requires
            py == dy * k || py == -(dy * k),
    ;
    assert((l * mx) * (l * mx) <= px * px) by (nonlinear_arith)
        requires
            0 <= l,
            0 <= mx,
            l * mx <= px,
    ;
    assert((l * my) * (l * my) <= py * py) by (nonlinear_arith)
        requires
            0 <= l,
            0 <= my,
            l * my <= py,
    ;
    assert((l * mx) * (l * mx) == (l * l) * (mx * mx)) by (nonlinear_arith);
    assert((l * my) * (l * my) == (l * l) * (my * my)) by (nonlinear_arith);
    assert((dx * dx) * (k * k) + (dy * dy) * (k * k) <= (l * l) * (k * k)) by (nonlinear_arith)
        requires
            dx * dx + dy * dy <= l * l,
            0 <= k * k,
    ;
    assert((l * l) * (nx * nx) + (l * l) * (ny * ny) == (l * l) * (nx * nx + ny * ny))
        by (nonlinear_arith);
    assert(nx * nx + ny * ny <= k * k) by (nonlinear_arith)
        requires
            1 <= l,
            (l * l) * (nx * nx + ny * ny) <= (l * l) * (k * k),
    ;
    assert(nx * nx <= (nx * nx) + (ny * ny)) by (nonlinear_arith);
    assert(iabs(nx) * iabs(nx) == nx * nx) by (nonlinear_arith)
        requires
            iabs(nx) == nx || iabs(nx) == -nx,
    ;
    assert(iabs(ny) * iabs(ny) == ny * ny) by (nonlinear_arith)
        requires
            iabs(ny) == ny || iabs(ny) == -ny,
    ;
    lemma_sq_le(iabs(nx), k);
    lemma_sq_le(iabs(ny), k);
}

impl Vec2 {
    /// The zero vector.
    pub fn zero() -> (r: Vec2)
        ensures
            r.x == 0 && r.y == 0,
    {
        Vec2 { x: 0, y: 0 }
    }

    pub fn new(x: i64, y: i64) -> (r: Vec2)
        ensures
            r.x == x && r.y == y,
    {
        Vec2 { x, y }
    }

    /// Euclidean norm, rounded down.
    pub fn length(&self) -> (r: i64)
        requires
            in_range(*self, 1_000_000_000),
        ensures
            r == sqrt_floor(norm2(*self)),
            0 <= r <= 1_500_000_000,
            iabs(self.x as int) <= r,
            iabs(self.y as int) <= r,
    {
        proof {
            lemma_norm2_fits(*self);
        }
        let n: i64 = self.x * self.x + self.y * self.y;
        let r: u64 = isqrt(n as u64);
        proof {
            lemma_sqrt_floor(n as int);
            assert(r * r <= n);
            assert((r as int) < 1_500_000_000) by (nonlinear_arith)
                requires
                    (r as int) * (r as int) <= 2_000_000_000_000_000_000int,
                    0 <= (r as int),
            ;
            lemma_component_below_sqrt(n as int, self.x as int);
            lemma_component_below_sqrt(n as int, self.y as int);
        }
        r as i64
    }

    /// The unit vector along `self` at scale 1000, or zero for the zero
    /// vector.
    pub fn normalize(&self) -> (r: Vec2)
        requires
            in_range(*self, 1_000_000_000),
        ensures
            norm2(*self) == 0 ==> r.x == 0 && r.y == 0,
            norm2(*self) > 0 ==> (r.x as int) == unit_x(*self) && (r.y as int) == unit_y(*self),
            norm2(r) <= 1_000_000,
            in_range(r, 1000),
            self.x >= 0 ==> r.x >= 0,
            self.x <= 0 ==> r.x <= 0,
            self.y >= 0 ==> r.y >= 0,
            self.y <= 0 ==> r.y <= 0,
    {
        proof {
            lemma_norm2_fits(*self);
        }
        let n: i64 = self.x * self.x + self.y * self.y;
        if n == 0 {
            proof {
                assert((self.x as int) * (self.x as int) >= 0) by (nonlinear_arith);
                assert((self.y as int) * (self.y as int) >= 0) by (nonlinear_arith);
                assert((self.x as int) * (self.x as int) == 0 ==> self.x == 0) by (nonlinear_arith);
                assert((self.y as int) * (self.y as int) == 0 ==> self.y == 0) by (nonlinear_arith);
            }
            Vec2 { x: 0, y: 0 }
        } else {
            let l: u64 = isqrt_ceil(n as u64);
            proof {
                assert(l >= 1) by (nonlinear_arith)
                    requires
                        (n as int) <= (l as int) * (l as int),
                        (n as int) > 0,
                        0 <= (l as int),
                ;
                assert((l as int) < 1_500_000_000) by (nonlinear_arith)
                    requires
                        (n as int) <= (l as int) * (l as int),
                        ((l as int) - 1) * ((l as int) - 1) < (n as int),
                        0 < (n as int) <= 2_000_000_000_000_000_000int,
                        0 <= (l as int),
                ;
            }
            let li: i64 = l as i64;
            let nx: i64 = mul_div(self.x, 1000, li);
            let ny: i64 = mul_div(self.y, 1000, li);
            proof {
                lemma_scaled_in_disc(
                    self.x as int,
                    self.y as int,
                    1000,
                    li as int,
                    nx as int,
                    ny as int,
                );
                lemma_tdiv_bounds((self.x as int) * 1000, li as int);
                lemma_tdiv_bounds((self.y as int) * 1000, li as int);
            }
            Vec2 { x: nx, y: ny }
        }
    }

    /// Componentwise sum.
    pub fn add(self, other: Vec2) -> (r: Vec2)
        requires
            in_range(self, 2_000_000_000),
            in_range(other, 2_000_000_000),
        ensures
            (r.x as int) == self.x + other.x,
            (r.y as int) == self.y + other.y,
    {
        Vec2 { x: self.x + other.x, y: self.y + other.y }
    }

    /// Componentwise difference.
    pub fn sub(self, other: Vec2) -> (r: Vec2)
        requires
            in_range(self, 2_000_000_000),
            in_range(other, 2_000_000_000),
        ensures
            (r.x as int) == self.x - other.x,
            (r.y as int) == self.y - other.y,
    {
        Vec2 { x: self.x - other.x, y: self.y - other.y }
    }

    /// Scaling by a fixed-point factor `k` (1000 is the identity).
    pub fn mul(self, k: i64) -> (r: Vec2)
        requires
            in_range(self, 1_000_000_000),
            iabs(k as int) <= 2_000_000_000,
        ensures
            (r.x as int) == tdiv((self.x as int) * (k as int), 1000),
            (r.y as int) == tdiv((self.y as int) * (k as int), 1000),
    {
        Vec2 { x: mul_div(self.x, k, 1000), y: mul_div(self.y, k, 1000) }
    }

    /// Division by a positive fixed-point factor (1000 is the identity).
    pub fn div(self, k: i64) -> (r: Vec2)
        requires
            in_range(self, 1_000_000_000),
            1 <= k,
        ensures
            (r.x as int) == tdiv((self.x as int) * 1000, k as int),
            (r.y as int) == tdiv((self.y as int) * 1000, k as int),
    {
        Vec2 { x: mul_div(self.x, 1000, k), y: mul_div(self.y, 1000, k) }
    }

    /// Componentwise accumulation.
    pub fn add_assign(&mut self, other: Vec2)
        requires
            in_range(*old(self), 2_000_000_000),
            in_range(other, 2_000_000_000),
        ensures
            (final(self).x as int) == old(self).x + other.x,
            (final(self).y as int) == old(self).y + other.y,
    {
        self.x = self.x + other.x;
        self.y = self.y + other.y;
    }
}

/// The sum of the squares of two components bounded by a billion fits an
/// `i64`.
pub proof fn lemma_norm2_fits(v: Vec2)
    requires
        in_range(v, 1_000_000_000),
    ensures
        0 <= norm2(v) <= 2_000_000_000_000_000_000int,
        (v.x as int) * (v.x as int) <= 1_000_000_000_000_000_000int,
        (v.x as int) * (v.x as int) >= 0,
        (v.y as int) * (v.y as int) >= 0,
{
    assert(0 <= (v.x as int) * (v.x as int) <= 1_000_000_000_000_000_000int) by (nonlinear_arith)
        requires
            iabs(v.x as int) <= 1_000_000_000,
    ;
    assert(0 <= (v.y as int) * (v.y as int) <= 1_000_000_000_000_000_000int) by (nonlinear_arith)
        requires
            iabs(v.y as int) <= 1_000_000_000,
    ;
}

/// Offset of the knob from the stick's center.
pub open spec fn off_x(j: Joystick) -> int {
    j.current.x - j.center.x
}

pub open spec fn off_y(j: Joystick) -> int {
    j.current.y - j.center.y
}

/// The clamp applied by a drag: an offset inside the rim is kept, one
/// beyond it is rescaled onto the rim, rounding toward zero.
pub open spec fn clamp_x(dx: int, dy: int, r: int) -> int {
    if dx * dx + dy * dy <= r * r {
        dx
    } else {
        tdiv(dx * r, sqrt_ceil(dx * dx + dy * dy))
    }
}

pub open spec fn clamp_y(dx: int, dy: int, r: int) -> int {
    if dx * dx + dy * dy <= r * r {
        dy
    } else {
        tdiv(dy * r, sqrt_ceil(dx * dx + dy * dy))
    }
}

/// The press transition: the stick centers itself under the finger.
pub open spec fn start_spec(j: Joystick, pos: Vec2) -> Joystick {
    Joystick { center: pos, current: pos, active: true, radius: j.radius }
}

/// The drag transition: a no-op while idle, otherwise the offset from the
/// center is clamped onto the rim.
pub open spec fn move_spec(j: Joystick, pos: Vec2) -> Joystick {
    if !j.active {
        j
    } else {
        Joystick {
            center: j.center,
            current: Vec2 {
                x: (j.center.x + clamp_x(
                    pos.x - j.center.x,
                    pos.y - j.center.y,
                    j.radius as int,
                )) as i64,
                y: (j.center.y + clamp_y(
                    pos.x - j.center.x,
                    pos.y - j.center.y,
                    j.radius as int,
                )) as i64,
            },
            active: true,
            radius: j.radius,
        }
    }
}

/// The release transition: the stick goes idle at its center.
pub open spec fn end_spec(j: Joystick) -> Joystick {
    Joystick { center: j.center, current: j.center, active: false, radius: j.radius }
}

/// The reported deflection: zero while idle, else the offset rescaled so
/// the rim is one full unit.
pub open spec fn input_of(j: Joystick) -> Vec2 {
    if !j.active {
        Vec2 { x: 0, y: 0 }
    } else {
        Vec2 {
            x: tdiv(1000 * off_x(j), j.radius as int) as i64,
            y: tdiv(1000 * off_y(j), j.radius as int) as i64,
        }
    }
}

/// A virtual joystick fed by touch or mouse drags.
#[derive(Clone, Copy, Debug)]
pub struct Joystick {
    /// Where the press started: the stick's center.
    pub center: Vec2,
    /// Where the finger is now, clamped to the rim.
    pub current: Vec2,
    /// Whether a press is in progress.
    pub active: bool,
    /// Reach of the stick, in milli-pixels.
    pub radius: i64,
}

impl Joystick {
    /// The state invariant: the knob never leaves the rim, and an idle
    /// stick rests at its center.
    pub open spec fn wf(self) -> bool {
        &&& 1 <= self.radius <= 1_000_000
    &&& in_range(self.center, 10_000_000)
        &&& in_range(self.current, 11_000_000)
        &&& off_x(self) * off_x(self) + off_y(self) * off_y(self) <= self.radius * self.radius
        &&& (!self.active ==> self.current == self.center)
    }

    pub fn new(radius: i64) -> (r: Joystick)
        requires
            1 <= radius <= 1_000_000,
        ensures
            r.wf(),
            r.center.x == 0 && r.center.y == 0,
            r.current.x == 0 && r.current.y == 0,
            !r.active,
            r.radius == radius,
    {
        let j = Joystick { center: Vec2 { x: 0, y: 0 }, current: Vec2 { x: 0, y: 0 }, active: false, radius };
        proof {
            assert(off_x(j) * off_x(j) + off_y(j) * off_y(j) == 0) by (nonlinear_arith)
                requires
                    off_x(j) == 0 && off_y(j) == 0,
            ;
            assert(j.radius * j.radius >= 1) by (nonlinear_arith)
                requires
                    j.radius >= 1,
            ;
        }
        j
    }

    /// A press: the stick centers itself under the finger.
    pub fn on_touch_start(&mut self, pos: Vec2)
        requires
            old(self).wf(),
            in_range(pos, 10_000_000),
        ensures
            final(self).wf(),
            *final(self) == start_spec(*old(self), pos),
            final(self).center == pos,
            final(self).current == pos,
            final(self).active,
            final(self).radius == old(self).radius,
    {
        self.center = pos;
        self.current = pos;
        self.active = true;
        proof {
            assert(off_x(*self) * off_x(*self) + off_y(*self) * off_y(*self) == 0)
                by (nonlinear_arith)
                requires
                    off_x(*self) == 0 && off_y(*self) == 0,
            ;
            assert(self.radius * self.radius >= 1) by (nonlinear_arith)
                requires
                    self.radius >= 1,
            ;
        }
    }

    /// A drag: ignored while idle; otherwise the offset from the center is
    /// clamped onto the rim, keeping its direction.
    pub fn on_touch_move(&mut self, pos: Vec2)
        requires
            old(self).wf(),
            in_range(pos, 10_000_000),
        ensures
            final(self).wf(),
            *final(self) == move_spec(*old(self), pos),
            !old(self).active ==> *final(self) == *old(self),
            old(self).active ==> {
                &&& final(self).center == old(self).center
                &&& final(self).active
                &&& final(self).radius == old(self).radius
                &&& off_x(*final(self)) == clamp_x(
                    pos.x - old(self).center.x,
                    pos.y - old(self).center.y,
                    old(self).radius as int,
                )
                &&& off_y(*final(self)) == clamp_y(
                    pos.x - old(self).center.x,
                    pos.y - old(self).center.y,
                    old(self).radius as int,
                )
            },
    {
        if !self.active {
            return ;
        }
        let dx: i64 = pos.x - self.center.x;
        let dy: i64 = pos.y - self.center.y;
        proof {
            assert(0 <= dx * dx <= 400_000_000_000_000int && 0 <= dy * dy
                <= 400_000_000_000_000int) by (nonlinear_arith)
                requires
                    iabs(dx as int) <= 20_000_000,
                    iabs(dy as int) <= 20_000_000,
            ;
            assert(self.radius * self.radius <= 1_000_000_000_000int && 1 <= self.radius
                * self.radius) by (nonlinear_arith)
                requires
                    1 <= self.radius <= 1_000_000,
            ;
        }
        let n: i64 = dx * dx + dy * dy;
        let rr: i64 = self.radius * self.radius;
        if n > rr {
            let l: u64 = isqrt_ceil(n as u64);
            proof {
                assert(l >= 1) by (nonlinear_arith)
                    requires
                        (n as int) <= (l as int) * (l as int),
                        (n as int) > 0,
                        0 <= (l as int),
                ;
                assert((l as int) <= 30_000_000int) by (nonlinear_arith)
                    requires
                        ((l as int) - 1) * ((l as int) - 1) < (n as int),
                        (n as int) <= 800_000_000_000_000int,
                        0 <= (l as int),
                ;
            }
            let li: i64 = l as i64;
            let cx: i64 = mul_div(dx, self.radius, li);
            let cy: i64 = mul_div(dy, self.radius, li);
            proof {
                lemma_scaled_in_disc(
                    dx as int,
                    dy as int,
                    self.radius as int,
                    li as int,
                    cx as int,
                    cy as int,
                );
            }
            self.current = Vec2 { x: self.center.x + cx, y: self.center.y + cy };
        } else {
            self.current = pos;
        }
    }

    /// A release: the stick goes idle and the knob snaps back to center.
    pub fn on_touch_end(&mut self)
        requires
            old(self).wf(),
        ensures
            final(self).wf(),
            *final(self) == end_spec(*old(self)),
            !final(self).active,
            final(self).current == old(self).center,
            final(self).center == old(self).center,
            final(self).radius == old(self).radius,
    {
        self.active = false;
        self.current = self.center;
        proof {
            assert(off_x(*self) * off_x(*self) + off_y(*self) * off_y(*self) == 0)
                by (nonlinear_arith)
                requires
                    off_x(*self) == 0 && off_y(*self) == 0,
            ;
            assert(self.radius * self.radius >= 1) by (nonlinear_arith)
                requires
                    self.radius >= 1,
            ;
        }
    }

    /// The reported deflection: zero while idle, otherwise the offset
    /// rescaled so that the rim is one full unit. Its magnitude never
    /// exceeds one full unit.
    pub fn get_input(&self) -> (r: Vec2)
        requires
            self.wf(),
        ensures
            r == input_of(*self),
            !self.active ==> r.x == 0 && r.y == 0,
            self.active ==> (r.x as int) == tdiv(1000 * off_x(*self), self.radius as int)
                && (r.y as int) == tdiv(1000 * off_y(*self), self.radius as int),
            norm2(r) <= 1_000_000,
            in_range(r, 1000),
    {
        if !self.active {
            proof {
                let z = Vec2 { x: 0 as i64, y: 0 as i64 };
                assert(norm2(z) == 0) by (nonlinear_arith)
                    requires
                        z.x == 0 && z.y == 0,
                ;
            }
            return Vec2 { x: 0, y: 0 };
        }
        let ox: i64 = self.current.x - self.center.x;
        let oy: i64 = self.current.y - self.center.y;
        let ix: i64 = mul_div(ox, 1000, self.radius);
        let iy: i64 = mul_div(oy, 1000, self.radius);
        proof {
            lemma_scaled_in_disc(
                ox as int,
                oy as int,
                1000,
                self.radius as int,
                ix as int,
                iy as int,
            );
        }
        Vec2 { x: ix, y: iy }
    }
}

/// A drag past the rim clamps the knob onto the rim without flipping any
/// component of its direction, and the clamped offset never exceeds the
/// radius.
pub proof fn lemma_clamp_within_rim(dx: int, dy: int, r: int)
    requires
        1 <= r <= 1_000_000,
        iabs(dx) <= 20_000_000,
        iabs(dy) <= 20_000_000,
    ensures
        clamp_x(dx, dy, r) * clamp_x(dx, dy, r) + clamp_y(dx, dy, r) * clamp_y(dx, dy, r) <= r
            * r,
        dx >= 0 ==> clamp_x(dx, dy, r) >= 0,
        dx <= 0 ==> clamp_x(dx, dy, r) <= 0,
        dy >= 0 ==> clamp_y(dx, dy, r) >= 0,
        dy <= 0 ==> clamp_y(dx, dy, r) <= 0,
{
    let n = dx * dx + dy * dy;
    assert(0 <= dx * dx + dy * dy) by (nonlinear_arith);
    if n <= r * r {
    } else {
        lemma_sqrt_ceil(n);
        let l = sqrt_ceil(n);
        assert(l >= 1) by (nonlinear_arith)
            requires
                n <= l * l,
                n > 0,
                0 <= l,
        ;
        let cx = tdiv(dx * r, l);
        let cy = tdiv(dy * r, l);
        lemma_tdiv_bounds(dx * r, l);
        lemma_tdiv_bounds(dy * r, l);
        assert(dx >= 0 ==> dx * r >= 0) by (nonlinear_arith)
            requires
                r >= 1,
        ;
        assert(dx <= 0 ==> dx * r <= 0) by (nonlinear_arith)
            requires
                r >= 1,
        ;
        assert(dy >= 0 ==> dy * r >= 0) by (nonlinear_arith)
            requires
                r >= 1,
        ;
        assert(dy <= 0 ==> dy * r <= 0) by (nonlinear_arith)
            requires
                r >= 1,
        ;
        lemma_scaled_in_disc(dx, dy, r, l, cx, cy);
    }
}


/// The clamp keeps the drag's direction: the cross product of the
/// clamped offset with the drag itself is only a rounding sliver,
/// smaller than the drag's taxicab length.
pub proof fn lemma_clamp_keeps_direction(dx: int, dy: int, r: int)
    requires
        1 <= r <= 1_000_000,
        iabs(dx) <= 20_000_000,
        iabs(dy) <= 20_000_000,
        dx * dx + dy * dy > r * r,
    ensures
        iabs(clamp_x(dx, dy, r) * dy - clamp_y(dx, dy, r) * dx) < iabs(dx) + iabs(dy) + 1,
{
    let n = dx * dx + dy * dy;
    assert(n > 0) by (nonlinear_arith)
        requires
            n == dx * dx + dy * dy,
            n > r * r,
            r >= 1,
    ;
    lemma_sqrt_ceil(n);
    let l = sqrt_ceil(n);
    assert(l >= 1) by (nonlinear_arith)
        requires
            n <= l * l,
            n > 0,
            0 <= l,
    ;
    let cx = tdiv(dx * r, l);
    let cy = tdiv(dy * r, l);
    lemma_tdiv_bounds(dx * r, l);
    lemma_tdiv_bounds(dy * r, l);
    let rx = dx * r - l * cx;
    let ry = dy * r - l * cy;
    assert(iabs(rx) <= l - 1) by (nonlinear_arith)
        requires
            l >= 1,
            l * iabs(cx) <= iabs(dx * r),
            iabs(dx * r) < l * (iabs(cx) + 1),
            dx * r >= 0 ==> cx >= 0,
            dx * r <= 0 ==> cx <= 0,
            rx == dx * r - l * cx,
            iabs(dx * r) == dx * r || iabs(dx * r) == -(dx * r),
            iabs(cx) == cx || iabs(cx) == -cx,
            iabs(rx) == rx || iabs(rx) == -rx,
    ;
    assert(iabs(ry) <= l - 1) by (nonlinear_arith)
        requires
            l >= 1,
            l * iabs(cy) <= iabs(dy * r),
            iabs(dy * r) < l * (iabs(cy) + 1),
            dy * r >= 0 ==> cy >= 0,
            dy * r <= 0 ==> cy <= 0,
            ry == dy * r - l * cy,
            iabs(dy * r) == dy * r || iabs(dy * r) == -(dy * r),
            iabs(cy) == cy || iabs(cy) == -cy,
            iabs(ry) == ry || iabs(ry) == -ry,
    ;
    let cross = cx * dy - cy * dx;
    assert(l * cross == ry * dx - rx * dy) by (nonlinear_arith)
        requires
            rx == dx * r - l * cx,
            ry == dy * r - l * cy,
            cross == cx * dy - cy * dx,
    ;
    assert(iabs(ry * dx - rx * dy) <= (l - 1) * (iabs(dx) + iabs(dy))) by (nonlinear_arith)
        requires
            iabs(rx) <= l - 1,
            iabs(ry) <= l - 1,
            0 <= iabs(rx),
            0 <= iabs(ry),
            0 <= iabs(dx),
            0 <= iabs(dy),
            iabs(rx) == rx || iabs(rx) == -rx,
            iabs(ry) == ry || iabs(ry) == -ry,
            iabs(dx) == dx || iabs(dx) == -dx,
            iabs(dy) == dy || iabs(dy) == -dy,
            iabs(ry * dx - rx * dy) == ry * dx - rx * dy || iabs(ry * dx - rx * dy) == -(ry * dx
                - rx * dy),
    ;
    assert(iabs(cross) < iabs(dx) + iabs(dy) + 1) by (nonlinear_arith)
        requires
            l >= 1,
            l * cross == ry * dx - rx * dy,
            iabs(ry * dx - rx * dy) <= (l - 1) * (iabs(dx) + iabs(dy)),
            0 <= iabs(dx),
            0 <= iabs(dy),
            iabs(cross) == cross || iabs(cross) == -cross,
            iabs(ry * dx - rx * dy) == l * cross || iabs(ry * dx - rx * dy) == -(l * cross),
    ;
    assert(clamp_x(dx, dy, r) == cx);
    assert(clamp_y(dx, dy, r) == cy);
}


} // verus!
