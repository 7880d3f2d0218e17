//! Screen points, fixed-point world points, rotations about a center and
//! the perspective projection.
use vstd::prelude::*;

use crate::fixed::{abs, floor_div, lemma_mul_abs_le, lemma_round_div_bound, lemma_round_div_close, lemma_round_div_exact, round_away, round_away_exec, round_div, round_div_exec};
use crate::projection::Camera;
use crate::{HEIGHT, WIDTH};

verus! {

/// Coordinate steps in one world unit.
pub const UNIT: i64 = 1024;

/// Fixed-point 1.0 of a cosine or sine.
pub const TRIG_ONE: i64 = 65536;

/// Points whose camera-relative depth is at most this many world units are
/// not projected.
pub const NEAR_PLANE: i64 = 110;

/// Focal constant of the projection, in world units; it is also the offset
/// subtracted from the depth in the divisor.
pub const FOCAL: i64 = 100;

/// Largest coordinate magnitude that a rotation accepts.
pub const ROTATE_LIMIT: i64 = 0x10_0000_0000_0000;

/// Largest coordinate magnitude of a scene point or camera position that
/// the projection pipeline accepts (room for three rotations).
pub const SCENE_LIMIT: i64 = 0x100_0000_0000;

/// A screen cell position.
#[derive(Clone, Copy, Debug, PartialEq, Eq, Structural)]
pub struct Point2d {
    pub x: i32,
    pub y: i32,
}

/// A screen cell position with a depth in world units.
#[derive(Clone, Copy, Debug, PartialEq, Eq, Structural)]
pub struct Point2dZ {
    pub x: i32,
    pub y: i32,
    pub z: i32,
}

/// A world point; each coordinate counts `UNIT` steps per world unit.
#[derive(Clone, Copy, Debug, PartialEq, Eq, Structural)]
pub struct Point3d {
    pub x: i64,
    pub y: i64,
    pub z: i64,
}

/// A rotation angle, given by its cosine and sine scaled by `TRIG_ONE`.
#[derive(Clone, Copy, Debug, PartialEq, Eq, Structural)]
pub struct Angle {
    pub cos: i64,
    pub sin: i64,
}

/// Whether a cell position lies on the grid.
pub open spec fn on_screen(x: int, y: int) -> bool {
    0 <= x < WIDTH && 0 <= y < HEIGHT
}

/// The value `v` saturated to the range of `i32`.
pub open spec fn clamp_i32(v: int) -> int {
    if v < i32::MIN {
        i32::MIN as int
    } else if v > i32::MAX {
        i32::MAX as int
    } else {
        v
    }
}

impl Point2d {
    /// Whether the position lies on the grid.
    pub fn is_in_screen(&self) -> (r: bool)
        ensures
            r == on_screen(self.x as int, self.y as int),
    {
        self.x >= 0 && self.x < WIDTH as i32 && self.y >= 0 && self.y < HEIGHT as i32
    }
}

impl Point2dZ {
    /// The position without its depth.
    pub open spec fn flat(self) -> Point2d {
        Point2d { x: self.x, y: self.y }
    }

    /// The position without its depth.
    pub fn drop_z(&self) -> (r: Point2d)
        ensures
            r == self.flat(),
    {
        Point2d { x: self.x, y: self.y }
    }
}

impl Angle {
    /// Cosine and sine within [-1, 1].
    pub open spec fn wf(self) -> bool {
        -TRIG_ONE <= self.cos <= TRIG_ONE && -TRIG_ONE <= self.sin <= TRIG_ONE
    }

    /// cos² + sin² is 1 up to the rounding of each to a fixed-point step.
    pub open spec fn is_normalized(self) -> bool {
        self.wf() && abs(self.cos * self.cos + self.sin * self.sin - TRIG_ONE * TRIG_ONE) <= 2 * TRIG_ONE
    }

    /// The angle of 0 radians.
    pub fn zero() -> (r: Angle)
        ensures
            r == (Angle { cos: TRIG_ONE, sin: 0 }),
            r.is_normalized(),
    {
        Angle { cos: TRIG_ONE, sin: 0 }
    }

    /// The opposite angle: same cosine, negated sine.
    pub open spec fn opposite(self) -> Angle {
        Angle { cos: self.cos, sin: (-self.sin) as i64 }
    }

    /// The opposite angle.
    pub fn negate(&self) -> (r: Angle)
        requires
            self.wf(),
        ensures
            r == self.opposite(),
            r.wf(),
            self.is_normalized() ==> r.is_normalized(),
    {
        assert((-self.sin) * (-self.sin) == self.sin * self.sin) by (nonlinear_arith);
        Angle { cos: self.cos, sin: -self.sin }
    }
}

/// First coordinate of the pair `(a, b)` turned by `r`: `a cos - b sin`.
pub open spec fn turn_a(a: int, b: int, r: Angle) -> int {
    round_div(r.cos * a - r.sin * b, TRIG_ONE as int)
}

/// Second coordinate of the pair `(a, b)` turned by `r`: `a sin + b cos`.
pub open spec fn turn_b(a: int, b: int, r: Angle) -> int {
    round_div(r.sin * a + r.cos * b, TRIG_ONE as int)
}

impl Point3d {
    /// Each coordinate has magnitude at most `b`.
    pub open spec fn within(self, b: int) -> bool {
        abs(self.x as int) <= b && abs(self.y as int) <= b && abs(self.z as int) <= b
    }

    /// The point turned about the x axis through `c`: y and z change.
    pub open spec fn turned_x(self, c: Point3d, r: Angle) -> Point3d {
        Point3d {
            x: self.x,
            y: (c.y + turn_a(self.y - c.y, self.z - c.z, r)) as i64,
            z: (c.z + turn_b(self.y - c.y, self.z - c.z, r)) as i64,
        }
    }

    /// The point turned about the y axis through `c`: z and x change.
    pub open spec fn turned_y(self, c: Point3d, r: Angle) -> Point3d {
        Point3d {
            x: (c.x + turn_b(self.z - c.z, self.x - c.x, r)) as i64,
            y: self.y,
            z: (c.z + turn_a(self.z - c.z, self.x - c.x, r)) as i64,
        }
    }

    /// The point turned about the z axis through `c`: y and x change.
    pub open spec fn turned_z(self, c: Point3d, r: Angle) -> Point3d {
        Point3d {
            x: (c.x + turn_b(self.y - c.y, self.x - c.x, r)) as i64,
            y: (c.y + turn_a(self.y - c.y, self.x - c.x, r)) as i64,
            z: self.z,
        }
    }

    /// Where the point lands on the screen for a camera at `pos`, if it is
    /// beyond the near plane.
    pub open spec fn projected(self, pos: Point3d) -> Option<Point2dZ> {
        let rx = self.x - pos.x;
        let ry = self.y - pos.y;
        let rz = self.z - pos.z;
        if rz <= NEAR_PLANE * UNIT {
            None
        } else {
            Some(
                Point2dZ {
                    x: clamp_i32(round_away(FOCAL * rx, rz - FOCAL * UNIT) + WIDTH as int / 2) as i32,
                    y: clamp_i32(round_away(FOCAL * ry, rz - FOCAL * UNIT) + HEIGHT as int / 2) as i32,
                    z: clamp_i32(rz / UNIT as int) as i32,
                },
            )
        }
    }

    /// Projects the point, as seen from `camera.pos`, onto the screen; a
    /// point at depth `NEAR_PLANE` or nearer gives nothing.
    pub fn project(&self, camera: &Camera) -> (r: Option<Point2dZ>)
        requires
            self.within(ROTATE_LIMIT as int),
            camera.pos.within(ROTATE_LIMIT as int),
        ensures
            r == self.projected(camera.pos),
            r.is_none() <==> self.z - camera.pos.z <= NEAR_PLANE * UNIT,
    {
        let rx: i64 = self.x - camera.pos.x;
        let ry: i64 = self.y - camera.pos.y;
        let rz: i64 = self.z - camera.pos.z;
        if rz <= NEAR_PLANE * UNIT {
            return None;
        }
        let den: i128 = (rz - FOCAL * UNIT) as i128;
        let sx: i128 = round_away_exec(FOCAL as i128 * rx as i128, den) + (WIDTH / 2) as i128;
        let sy: i128 = round_away_exec(FOCAL as i128 * ry as i128, den) + (HEIGHT / 2) as i128;
        let sz: i128 = floor_div(rz as i128, UNIT as i128);
        Some(Point2dZ { x: saturate_i32(sx), y: saturate_i32(sy), z: saturate_i32(sz) })
    }

    /// The point turned about the x axis through `center`.
    pub fn rotate_x(&self, center: &Point3d, rad: &Angle) -> (r: Point3d)
        requires
            self.within(ROTATE_LIMIT as int),
            center.within(ROTATE_LIMIT as int),
            rad.wf(),
        ensures
            r == self.turned_x(*center, *rad),
            abs(r.y - center.y) <= abs(self.y - center.y) + abs(self.z - center.z) + 1,
            abs(r.z - center.z) <= abs(self.y - center.y) + abs(self.z - center.z) + 1,
    {
        let (a, b) = turn(self.y - center.y, self.z - center.z, rad);
        Point3d { x: self.x, y: center.y + a, z: center.z + b }
    }

    /// The point turned about the y axis through `center`.
    pub fn rotate_y(&self, center: &Point3d, rad: &Angle) -> (r: Point3d)
        requires
            self.within(ROTATE_LIMIT as int),
            center.within(ROTATE_LIMIT as int),
            rad.wf(),
        ensures
            r == self.turned_y(*center, *rad),
            abs(r.x - center.x) <= abs(self.z - center.z) + abs(self.x - center.x) + 1,
            abs(r.z - center.z) <= abs(self.z - center.z) + abs(self.x - center.x) + 1,
    {
        let (a, b) = turn(self.z - center.z, self.x - center.x, rad);
        Point3d { x: center.x + b, y: self.y, z: center.z + a }
    }

    /// The point turned about the z axis through `center`.
    pub fn rotate_z(&self, center: &Point3d, rad: &Angle) -> (r: Point3d)
        requires
            self.within(ROTATE_LIMIT as int),
            center.within(ROTATE_LIMIT as int),
            rad.wf(),
        ensures
            r == self.turned_z(*center, *rad),
            abs(r.x - center.x) <= abs(self.y - center.y) + abs(self.x - center.x) + 1,
            abs(r.y - center.y) <= abs(self.y - center.y) + abs(self.x - center.x) + 1,
    {
        let (a, b) = turn(self.y - center.y, self.x - center.x, rad);
        Point3d { x: center.x + b, y: center.y + a, z: self.z }
    }

    /// Turns the point in place about the y axis through `center`.
    pub fn rotate_y_mut(&mut self, center: &Point3d, rad: &Angle)
        requires
            old(self).within(ROTATE_LIMIT as int),
            center.within(ROTATE_LIMIT as int),
            rad.wf(),
        ensures
            *final(self) == old(self).turned_y(*center, *rad),
    {
        *self = self.rotate_y(center, rad);
    }

    /// Turns the point in place about the x axis through `center`.
    pub fn rotate_x_mut(&mut self, center: &Point3d, rad: &Angle)
        requires
            old(self).within(ROTATE_LIMIT as int),
            center.within(ROTATE_LIMIT as int),
            rad.wf(),
        ensures
            *final(self) == old(self).turned_x(*center, *rad),
    {
        *self = self.rotate_x(center, rad);
    }

    /// Turns the point in place about the z axis through `center`.
    pub fn rotate_z_mut(&mut self, center: &Point3d, rad: &Angle)
        requires
            old(self).within(ROTATE_LIMIT as int),
            center.within(ROTATE_LIMIT as int),
            rad.wf(),
        ensures
            *final(self) == old(self).turned_z(*center, *rad),
    {
        *self = self.rotate_z(center, rad);
    }
}

/// `v` saturated to the range of `i32`.
fn saturate_i32(v: i128) -> (r: i32)
    ensures
        r == clamp_i32(v as int),
{
    if v < i32::MIN as i128 {
        i32::MIN
    } else if v > i32::MAX as i128 {
        i32::MAX
    } else {
        v as i32
    }
}

/// Bound on a turned coordinate, from bounds on cosine and sine.
proof fn lemma_turn_bound(a: int, b: int, r: Angle)
    requires
        r.wf(),
    ensures
        abs(turn_a(a, b, r)) <= abs(a) + abs(b) + 1,
        abs(turn_b(a, b, r)) <= abs(a) + abs(b) + 1,
{
    let one = TRIG_ONE as int;
    lemma_mul_abs_le(r.cos as int, one, a, abs(a));
    lemma_mul_abs_le(r.sin as int, one, b, abs(b));
    lemma_mul_abs_le(r.sin as int, one, a, abs(a));
    lemma_mul_abs_le(r.cos as int, one, b, abs(b));
    let (xa, xb) = (abs(a), abs(b));
    let bound = xa + xb;
    assert(one * xa + one * xb == bound * one) by (nonlinear_arith)
        requires bound == xa + xb;
    lemma_round_div_bound(r.cos * a - r.sin * b, one, bound);
    lemma_round_div_bound(r.sin * a + r.cos * b, one, bound);
}

/// The pair `(a, b)` turned by `rad`.
fn turn(a: i64, b: i64, rad: &Angle) -> (r: (i64, i64))
    requires
        abs(a as int) <= 2 * ROTATE_LIMIT,
        abs(b as int) <= 2 * ROTATE_LIMIT,
        rad.wf(),
    ensures
        r.0 == turn_a(a as int, b as int, *rad),
        r.1 == turn_b(a as int, b as int, *rad),
        abs(r.0 as int) <= abs(a as int) + abs(b as int) + 1,
        abs(r.1 as int) <= abs(a as int) + abs(b as int) + 1,
{
    proof {
        lemma_turn_bound(a as int, b as int, *rad);
        lemma_mul_abs_le(rad.cos as int, TRIG_ONE as int, a as int, 2 * ROTATE_LIMIT);
        lemma_mul_abs_le(rad.sin as int, TRIG_ONE as int, b as int, 2 * ROTATE_LIMIT);
        lemma_mul_abs_le(rad.sin as int, TRIG_ONE as int, a as int, 2 * ROTATE_LIMIT);
        lemma_mul_abs_le(rad.cos as int, TRIG_ONE as int, b as int, 2 * ROTATE_LIMIT);
    }
    let (c, s, a, b) = (rad.cos as i128, rad.sin as i128, a as i128, b as i128);
    let ra: i128 = round_div_exec(c * a - s * b, TRIG_ONE as i128);
    let rb: i128 = round_div_exec(s * a + c * b, TRIG_ONE as i128);
    (ra as i64, rb as i64)
}

/// Turning by the zero angle changes nothing.
proof fn lemma_turn_zero(a: int, b: int)
    ensures
        turn_a(a, b, Angle { cos: TRIG_ONE, sin: 0 }) == a,
        turn_b(a, b, Angle { cos: TRIG_ONE, sin: 0 }) == b,
{
    let one = TRIG_ONE as int;
    assert(one * a - 0 * b == a * one) by (nonlinear_arith);
    assert(0 * a + one * b == b * one) by (nonlinear_arith);
    lemma_round_div_exact(a, one);
    lemma_round_div_exact(b, one);
}

/// A rotation by 0 radians, about any axis and any center, returns the point
/// unchanged.
pub proof fn lemma_rotate_zero_identity(p: Point3d, c: Point3d)
    ensures
        p.turned_x(c, Angle { cos: TRIG_ONE, sin: 0 }) == p,
        p.turned_y(c, Angle { cos: TRIG_ONE, sin: 0 }) == p,
        p.turned_z(c, Angle { cos: TRIG_ONE, sin: 0 }) == p,
{
    lemma_turn_zero(p.y - c.y, p.z - c.z);
    lemma_turn_zero(p.z - c.z, p.x - c.x);
    lemma_turn_zero(p.y - c.y, p.x - c.x);
}

/// Rounding error of a fixed-point quotient by `TRIG_ONE`.
proof fn lemma_turn_error(n: int)
    ensures
        -TRIG_ONE < 2 * (TRIG_ONE * round_div(n, TRIG_ONE as int) - n) <= TRIG_ONE,
{
    lemma_round_div_close(n, TRIG_ONE as int);
}

/// Expansion of a turn and its inverse around the rounding errors.
proof fn lemma_back_identity(one: int, c: int, s: int, a: int, b: int, a1: int, b1: int, a2: int, e1: int, e2: int, e3: int)
    requires
        one * a1 == c * a - s * b + e1,
        one * b1 == s * a + c * b + e2,
        one * a2 == c * a1 + s * b1 + e3,
    ensures
        one * one * (a2 - a) == (c * c + s * s - one * one) * a + c * e1 + s * e2 + one * e3,
{
    assert(one * (one * a2) == c * (one * a1) + s * (one * b1) + one * e3) by (nonlinear_arith)
        requires one * a2 == c * a1 + s * b1 + e3;
    assert(c * (c * a - s * b + e1) == c * c * a - c * s * b + c * e1) by (nonlinear_arith);
    assert(s * (s * a + c * b + e2) == s * s * a + s * c * b + s * e2) by (nonlinear_arith);
    assert(one * one * (a2 - a) == one * (one * a2) - one * one * a) by (nonlinear_arith);
    assert((c * c + s * s - one * one) * a == c * c * a + s * s * a - one * one * a) by (nonlinear_arith);
    assert(c * s * b == s * c * b) by (nonlinear_arith);
}

/// `q` is within the rotation round-trip tolerance of `v`, whose offset
/// from the rotation center is `off`.
pub open spec fn near(q: int, v: int, off: int) -> bool {
    TRIG_ONE * abs(q - v) <= 2 * abs(off) + 2 * TRIG_ONE
}

/// Turning `(a, b)` by `r` and back by the opposite angle returns `(a, b)`
/// up to rounding.
proof fn lemma_turn_back(a: int, b: int, r: Angle)
    requires
        r.is_normalized(),
    ensures
        near(turn_a(turn_a(a, b, r), turn_b(a, b, r), r.opposite()), a, a),
        near(turn_b(turn_a(a, b, r), turn_b(a, b, r), r.opposite()), b, b),
{
    let inv = r.opposite();
    let one = TRIG_ONE as int;
    let (c, s) = (r.cos as int, r.sin as int);
    let a1 = turn_a(a, b, r);
    let b1 = turn_b(a, b, r);
    let a2 = turn_a(a1, b1, inv);
    let b2 = turn_b(a1, b1, inv);
    let e1 = one * a1 - (c * a - s * b);
    let e2 = one * b1 - (s * a + c * b);
    assert(c * a1 - (-s) * b1 == c * a1 + s * b1) by (nonlinear_arith);
    let e3 = one * a2 - (c * a1 + s * b1);
    let e4 = one * b2 - ((-s) * a1 + c * b1);
    lemma_turn_error(c * a - s * b);
    lemma_turn_error(s * a + c * b);
    lemma_turn_error(c * a1 + s * b1);
    lemma_turn_error((-s) * a1 + c * b1);
    let k = c * c + s * s - one * one;
    lemma_back_identity(one, c, s, a, b, a1, b1, a2, e1, e2, e3);
    assert((-s) * a == -(s * a) && (-s) * b == -(s * b) && (-s) * e1 == -(s * e1)) by (nonlinear_arith);
    lemma_back_identity(one, c, -s, b, a, b1, a1, b2, e2, e1, e4);
    assert(k * a == (c * c + s * s - one * one) * a);
    assert(k * b == (c * c + (-s) * (-s) - one * one) * b) by (nonlinear_arith)
        requires k == c * c + s * s - one * one;
    lemma_mul_abs_le(k, 2 * one, a, abs(a));
    lemma_mul_abs_le(k, 2 * one, b, abs(b));
    lemma_mul_abs_le(c, one, 2 * e1, one);
    lemma_mul_abs_le(s, one, 2 * e2, one);
    lemma_mul_abs_le(s, one, 2 * e1, one);
    lemma_mul_abs_le(c, one, 2 * e2, one);
    lemma_mul_abs_le(one, one, 2 * e3, one);
    lemma_mul_abs_le(one, one, 2 * e4, one);
    assert(one * abs(a2 - a) <= 2 * abs(a) + 2 * one) by (nonlinear_arith)
        requires
            one == 65536,
            one * one * (a2 - a) == k * a + c * e1 + s * e2 + one * e3,
            abs(k * a) <= 2 * one * abs(a),
            abs(c * (2 * e1)) <= one * one,
            abs(s * (2 * e2)) <= one * one,
            abs(one * (2 * e3)) <= one * one;
    assert(one * abs(b2 - b) <= 2 * abs(b) + 2 * one) by (nonlinear_arith)
        requires
            one == 65536,
            one * one * (b2 - b) == k * b - s * e1 + c * e2 + one * e4,
            abs(k * b) <= 2 * one * abs(b),
            abs(s * (2 * e1)) <= one * one,
            abs(c * (2 * e2)) <= one * one,
            abs(one * (2 * e4)) <= one * one;
}

/// The round trip of a turn about the x axis.
proof fn lemma_rotate_x_back(p: Point3d, c: Point3d, r: Angle)
    requires
        p.within(ROTATE_LIMIT as int),
        c.within(ROTATE_LIMIT as int),
        r.is_normalized(),
    ensures
        ({
            let q = p.turned_x(c, r).turned_x(c, r.opposite());
            q.x == p.x && near(q.y as int, p.y as int, p.y - c.y) && near(q.z as int, p.z as int, p.z - c.z)
        }),
{
    let (a, b) = (p.y - c.y, p.z - c.z);
    lemma_turn_bound(a, b, r);
    lemma_turn_back(a, b, r);
    let m = p.turned_x(c, r);
    assert(m.y - c.y == turn_a(a, b, r) && m.z - c.z == turn_b(a, b, r));
    lemma_turn_bound(m.y - c.y, m.z - c.z, r.opposite());
}

/// The round trip of a turn about the y axis.
proof fn lemma_rotate_y_back(p: Point3d, c: Point3d, r: Angle)
    requires
        p.within(ROTATE_LIMIT as int),
        c.within(ROTATE_LIMIT as int),
        r.is_normalized(),
    ensures
        ({
            let q = p.turned_y(c, r).turned_y(c, r.opposite());
            q.y == p.y && near(q.x as int, p.x as int, p.x - c.x) && near(q.z as int, p.z as int, p.z - c.z)
        }),
{
    let (a, b) = (p.z - c.z, p.x - c.x);
    lemma_turn_bound(a, b, r);
    lemma_turn_back(a, b, r);
    let m = p.turned_y(c, r);
    assert(m.z - c.z == turn_a(a, b, r) && m.x - c.x == turn_b(a, b, r));
    lemma_turn_bound(m.z - c.z, m.x - c.x, r.opposite());
}

/// The round trip of a turn about the z axis.
proof fn lemma_rotate_z_back(p: Point3d, c: Point3d, r: Angle)
    requires
        p.within(ROTATE_LIMIT as int),
        c.within(ROTATE_LIMIT as int),
        r.is_normalized(),
    ensures
        ({
            let q = p.turned_z(c, r).turned_z(c, r.opposite());
            q.z == p.z && near(q.x as int, p.x as int, p.x - c.x) && near(q.y as int, p.y as int, p.y - c.y)
        }),
{
    let (a, b) = (p.y - c.y, p.x - c.x);
    lemma_turn_bound(a, b, r);
    lemma_turn_back(a, b, r);
    let m = p.turned_z(c, r);
    assert(m.y - c.y == turn_a(a, b, r) && m.x - c.x == turn_b(a, b, r));
    lemma_turn_bound(m.y - c.y, m.x - c.x, r.opposite());
}

/// Rotating a point by an angle about a center, then by the opposite angle
/// about the same center, returns the point up to rounding: each coordinate
/// is off by at most `2 + 2 * |offset from the center| / TRIG_ONE`. The angle
/// must be normalized (its cosine and sine those of some angle, rounded):
/// a well-formed `Angle` far from the unit circle scales as it turns.
pub proof fn lemma_rotate_inverse(p: Point3d, c: Point3d, r: Angle)
    requires
        p.within(ROTATE_LIMIT as int),
        c.within(ROTATE_LIMIT as int),
        r.is_normalized(),
    ensures
        ({
            let q = p.turned_x(c, r).turned_x(c, r.opposite());
            q.x == p.x && near(q.y as int, p.y as int, p.y - c.y) && near(q.z as int, p.z as int, p.z - c.z)
        }),
        ({
            let q = p.turned_y(c, r).turned_y(c, r.opposite());
            q.y == p.y && near(q.x as int, p.x as int, p.x - c.x) && near(q.z as int, p.z as int, p.z - c.z)
        }),
        ({
            let q = p.turned_z(c, r).turned_z(c, r.opposite());
            q.z == p.z && near(q.x as int, p.x as int, p.x - c.x) && near(q.y as int, p.y as int, p.y - c.y)
        }),
{
    lemma_rotate_x_back(p, c, r);
    lemma_rotate_y_back(p, c, r);
    lemma_rotate_z_back(p, c, r);
}

} // verus!
