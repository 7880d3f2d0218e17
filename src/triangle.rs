//! Triangles in world and screen space: the exact integer inside test, the
//! depth-gated fill, and borders drawn as lines.
use vstd::prelude::*;

use crate::display::{cell_index, fill_write, frame_wf, Frame, Screen, Shape2d, DEPTH_BIAS, DEPTH_ONE};
use crate::fixed::{abs, floor_div, lemma_floor_div_bound, lemma_mul_abs_le};
use crate::line::{off_screen, Line2dZ};
use crate::point::{Angle, Point2d, Point2dZ, Point3d, ROTATE_LIMIT, SCENE_LIMIT};
use crate::projection::Camera;
use crate::{HEIGHT, WIDTH};

verus! {

/// A world-space triangle, filled with `fill` and outlined with `border` if
/// that is given.
#[derive(Clone, Copy, Debug)]
pub struct Triangle3d {
    pub points: [Point3d; 3],
    pub fill: u8,
    pub border: Option<u8>,
}

/// A screen-space triangle whose corners carry depths.
#[derive(Clone, Copy, Debug)]
pub struct Triangle2d {
    pub points: [Point2dZ; 3],
    pub fill: u8,
    pub border: Option<u8>,
}

/// Twice the area of the triangle `p1 p2 p3` (shoelace formula, magnitude).
pub open spec fn shoelace(p1: Point2d, p2: Point2d, p3: Point2d) -> int {
    abs(p1.x * (p2.y - p3.y) + p2.x * (p3.y - p1.y) + p3.x * (p1.y - p2.y))
}

/// Largest value of `shoelace` on `i32` corners.
pub open spec fn shoelace_max() -> int {
    3 * 0x8000_0000_0000_0000int
}

/// Twice the area of the triangle `p1 p2 p3`, as a non-negative number.
pub fn area_from_points(p1: &Point2d, p2: &Point2d, p3: &Point2d) -> (r: i128)
    ensures
        r == shoelace(*p1, *p2, *p3),
        0 <= r <= shoelace_max(),
{
    proof {
        lemma_mul_abs_le(p1.x as int, 0x8000_0000, p2.y - p3.y, 0x1_0000_0000);
        lemma_mul_abs_le(p2.x as int, 0x8000_0000, p3.y - p1.y, 0x1_0000_0000);
        lemma_mul_abs_le(p3.x as int, 0x8000_0000, p1.y - p2.y, 0x1_0000_0000);
    }
    let a: i128 = p1.x as i128 * (p2.y as i128 - p3.y as i128) + p2.x as i128 * (p3.y as i128 - p1.y as i128)
        + p3.x as i128 * (p1.y as i128 - p2.y as i128);
    if a < 0 {
        -a
    } else {
        a
    }
}

/// Whether a cell holding depth `old` takes a fill at depth `z`.
pub open spec fn fill_takes(old: Option<i64>, z: int) -> bool {
    match old {
        None => true,
        Some(pz) => z < pz,
    }
}

/// The column of cell index `i`.
pub open spec fn cell_x(i: int) -> int {
    i % (WIDTH as int)
}

/// The row of cell index `i`.
pub open spec fn cell_y(i: int) -> int {
    i / (WIDTH as int)
}

proof fn lemma_cell_coords(x: int, y: int)
    requires
        0 <= x < WIDTH,
        0 <= y,
    ensures
        cell_x(cell_index(x, y)) == x,
        cell_y(cell_index(x, y)) == y,
{
    vstd::arithmetic::div_mod::lemma_fundamental_div_mod_converse(cell_index(x, y), WIDTH as int, y, x);
}

proof fn lemma_index_coords(i: int)
    requires
        0 <= i,
    ensures
        i == cell_index(cell_x(i), cell_y(i)),
        0 <= cell_x(i) < WIDTH,
        0 <= cell_y(i),
{
    vstd::arithmetic::div_mod::lemma_fundamental_div_mod(i, WIDTH as int);
}

/// `p`'s x and y times `m` stay within `i32`.
pub open spec fn fits_scaled(p: Point2dZ, m: int) -> bool {
    i32::MIN <= p.x * m <= i32::MAX && i32::MIN <= p.y * m <= i32::MAX
}

/// `p` with x and y multiplied by `m`.
pub open spec fn scaled(p: Point2dZ, m: int) -> Point2dZ {
    Point2dZ { x: (p.x * m) as i32, y: (p.y * m) as i32, z: p.z }
}

fn scale_point(p: Point2dZ, m: usize) -> (r: Point2dZ)
    requires
        fits_scaled(p, m as int),
    ensures
        r == scaled(p, m as int),
{
    proof {
        lemma_mul_abs_le(p.x as int, 0x8000_0000, m as int, m as int);
        lemma_mul_abs_le(p.y as int, 0x8000_0000, m as int, m as int);
        assert(0x8000_0000 * (m as int) <= 0x8000_0000 * 0x1_0000_0000_0000_0000) by (nonlinear_arith)
            requires 0 <= m <= 0x1_0000_0000_0000_0000int;
    }
    Point2dZ { x: (p.x as i128 * m as i128) as i32, y: (p.y as i128 * m as i128) as i32, z: p.z }
}

/// Smallest of three.
pub open spec fn min3(a: int, b: int, c: int) -> int {
    if a <= b && a <= c {
        a
    } else if b <= c {
        b
    } else {
        c
    }
}

/// Largest of three.
pub open spec fn max3(a: int, b: int, c: int) -> int {
    if a >= b && a >= c {
        a
    } else if b >= c {
        b
    } else {
        c
    }
}

impl Triangle2d {
    /// Corner `i` without its depth.
    pub open spec fn corner(self, i: int) -> Point2d {
        self.points[i].flat()
    }

    /// Twice the triangle's area.
    pub open spec fn double_area(self) -> int {
        shoelace(self.corner(0), self.corner(1), self.corner(2))
    }

    /// Twice the areas of the triangles that `p` makes with the edges
    /// opposite corners 0, 1 and 2.
    pub open spec fn sub_area(self, p: Point2d, i: int) -> int {
        if i == 0 {
            shoelace(p, self.corner(1), self.corner(2))
        } else if i == 1 {
            shoelace(p, self.corner(0), self.corner(2))
        } else {
            shoelace(p, self.corner(0), self.corner(1))
        }
    }

    /// `p` lies inside or on the edge: the three sub-areas sum to the area.
    pub open spec fn contains(self, p: Point2d) -> bool {
        self.sub_area(p, 0) + self.sub_area(p, 1) + self.sub_area(p, 2) == self.double_area()
    }

    /// Depth of the fill at `p`, in `DEPTH_ONE` steps: the corner depths
    /// blended by the sub-areas, plus `DEPTH_BIAS`.
    pub open spec fn fill_depth(self, p: Point2d) -> int {
        (DEPTH_ONE * (self.sub_area(p, 0) * self.points[0].z + self.sub_area(p, 1) * self.points[1].z
            + self.sub_area(p, 2) * self.points[2].z)) / self.double_area() + DEPTH_BIAS
    }

    /// The bounding box of the corners, clamped to the screen.
    pub open spec fn in_box(self, x: int, y: int) -> bool {
        &&& 0 <= x && min3(self.points[0].x as int, self.points[1].x as int, self.points[2].x as int) <= x
        &&& x <= WIDTH - 1 && x <= max3(self.points[0].x as int, self.points[1].x as int, self.points[2].x as int)
        &&& 0 <= y && min3(self.points[0].y as int, self.points[1].y as int, self.points[2].y as int) <= y
        &&& y <= HEIGHT - 1 && y <= max3(self.points[0].y as int, self.points[1].y as int, self.points[2].y as int)
    }

    /// Whether the fill writes the cell at `(x, y)` when the stored depth
    /// there is `old`.
    pub open spec fn fills(self, x: int, y: int, old: Option<i64>) -> bool {
        &&& self.double_area() > 0
        &&& self.in_box(x, y)
        &&& self.contains(Point2d { x: x as i32, y: y as i32 })
        &&& fill_takes(old, self.fill_depth(Point2d { x: x as i32, y: y as i32 }))
    }

    /// The frame after filling the cells `done` selects, from `f`.
    pub open spec fn fill_some(self, f: Frame, done: spec_fn(int, int) -> bool) -> Frame {
        (
            Seq::new(
                f.0.len(),
                |i: int|
                    if done(cell_x(i), cell_y(i)) && self.fills(cell_x(i), cell_y(i), f.1[i]) {
                        self.fill
                    } else {
                        f.0[i]
                    },
            ),
            Seq::new(
                f.1.len(),
                |i: int|
                    if done(cell_x(i), cell_y(i)) && self.fills(cell_x(i), cell_y(i), f.1[i]) {
                        Some(self.fill_depth(Point2d { x: cell_x(i) as i32, y: cell_y(i) as i32 }) as i64)
                    } else {
                        f.1[i]
                    },
            ),
        )
    }

    /// The box columns before `cx`, and column `cx` above row `cy`.
    pub open spec fn before(cx: int, cy: int) -> spec_fn(int, int) -> bool {
        |x: int, y: int| x < cx || (x == cx && y < cy)
    }

    /// Twice the triangle's area, as a non-negative number.
    pub fn area(&self) -> (r: i128)
        ensures
            r == self.double_area(),
            0 <= r <= shoelace_max(),
    {
        area_from_points(&self.points[0].drop_z(), &self.points[1].drop_z(), &self.points[2].drop_z())
    }

    /// Whether `p` lies inside the triangle or on its edge.
    pub fn is_inside(&self, p: &Point2d) -> (r: bool)
        ensures
            r == self.contains(*p),
    {
        let (c0, c1, c2) = (self.points[0].drop_z(), self.points[1].drop_z(), self.points[2].drop_z());
        area_from_points(p, &c1, &c2) + area_from_points(p, &c0, &c2) + area_from_points(p, &c0, &c1)
            == self.area()
    }

    /// Multiplies every corner's x and y by `magnitude`.
    pub fn scale(&mut self, magnitude: usize)
        requires
            fits_scaled(old(self).points[0], magnitude as int),
            fits_scaled(old(self).points[1], magnitude as int),
            fits_scaled(old(self).points[2], magnitude as int),
        ensures
            final(self).fill == old(self).fill,
            final(self).border == old(self).border,
            final(self).points[0] == scaled(old(self).points[0], magnitude as int),
            final(self).points[1] == scaled(old(self).points[1], magnitude as int),
            final(self).points[2] == scaled(old(self).points[2], magnitude as int),
    {
        self.points[0] = scale_point(self.points[0], magnitude);
        self.points[1] = scale_point(self.points[1], magnitude);
        self.points[2] = scale_point(self.points[2], magnitude);
    }

    /// The frame after outlining the triangle with its border character, if
    /// it has one.
    pub open spec fn bordered(self, f: Frame) -> Frame {
        match self.border {
            None => f,
            Some(b) => Line2dZ { p1: self.points[1], p2: self.points[2], character: b }.drawn(
                Line2dZ { p1: self.points[0], p2: self.points[2], character: b }.drawn(
                    Line2dZ { p1: self.points[0], p2: self.points[1], character: b }.drawn(f),
                ),
            ),
        }
    }

    /// Draws the three edges with the border character, if there is one,
    /// under the line rule.
    pub fn add_border_to_grid(&self, screen: &mut Screen)
        requires
            old(screen).wf(),
        ensures
            final(screen).wf(),
            final(screen)@ == self.bordered(old(screen)@),
    {
        if let Some(b) = self.border {
            Line2dZ { p1: self.points[0], p2: self.points[1], character: b }.add_to_grid(screen);
            Line2dZ { p1: self.points[0], p2: self.points[2], character: b }.add_to_grid(screen);
            Line2dZ { p1: self.points[1], p2: self.points[2], character: b }.add_to_grid(screen);
        }
    }
}

/// Filling the cell at `(x, y)` moves it into the filled part.
proof fn lemma_fill_step(t: Triangle2d, start: Frame, x: int, y: int)
    requires
        frame_wf(start),
        t.in_box(x, y),
    ensures
        ({
            let f = t.fill_some(start, Triangle2d::before(x, y));
            let p = Point2d { x: x as i32, y: y as i32 };
            let g = if t.double_area() > 0 && t.contains(p) {
                fill_write(f, x, y, t.fill_depth(p), t.fill)
            } else {
                f
            };
            g == t.fill_some(start, Triangle2d::before(x, y + 1))
        }),
{
    let f = t.fill_some(start, Triangle2d::before(x, y));
    let p = Point2d { x: x as i32, y: y as i32 };
    let g = if t.double_area() > 0 && t.contains(p) {
        fill_write(f, x, y, t.fill_depth(p), t.fill)
    } else {
        f
    };
    let h = t.fill_some(start, Triangle2d::before(x, y + 1));
    let idx = cell_index(x, y);
    lemma_cell_coords(x, y);
    assert(0 <= idx < WIDTH * HEIGHT) by (nonlinear_arith)
        requires idx == y * WIDTH + x, 0 <= x < WIDTH, 0 <= y < HEIGHT;
    assert forall|i: int| 0 <= i < WIDTH * HEIGHT && i != idx implies
        (Triangle2d::before(x, y))(cell_x(i), cell_y(i)) == (Triangle2d::before(x, y + 1))(cell_x(i), cell_y(i)) by {
        lemma_index_coords(i);
    }
    assert(g.0 =~= h.0);
    assert(g.1 =~= h.1);
}

/// The fill's depth at a cell from its sub-areas, in `DEPTH_ONE` steps.
fn blend_depth(t: &Triangle2d, s0: i128, s1: i128, s2: i128, area: i128) -> (z: i64)
    requires
        0 <= s0 <= shoelace_max(),
        0 <= s1 <= shoelace_max(),
        0 <= s2 <= shoelace_max(),
        s0 + s1 + s2 == area,
        area > 0,
    ensures
        z == (DEPTH_ONE * (s0 * t.points[0].z + s1 * t.points[1].z + s2 * t.points[2].z)) / (area as int) + DEPTH_BIAS,
{
    let (z0, z1, z2) = (t.points[0].z as i128, t.points[1].z as i128, t.points[2].z as i128);
    let ghost zmax = 0x8000_0000int;
    proof {
        lemma_mul_abs_le(s0 as int, shoelace_max(), z0 as int, zmax);
        lemma_mul_abs_le(s1 as int, shoelace_max(), z1 as int, zmax);
        lemma_mul_abs_le(s2 as int, shoelace_max(), z2 as int, zmax);
        lemma_mul_abs_le(s0 as int, s0 as int, z0 as int, zmax);
        lemma_mul_abs_le(s1 as int, s1 as int, z1 as int, zmax);
        lemma_mul_abs_le(s2 as int, s2 as int, z2 as int, zmax);
        assert(s0 * zmax + s1 * zmax + s2 * zmax == area * zmax) by (nonlinear_arith)
            requires s0 + s1 + s2 == area;
    }
    let num: i128 = s0 * z0 + s1 * z1 + s2 * z2;
    proof {
        let n = num as int;
        assert(-(area * zmax) <= n <= area * zmax);
        assert(-((area * zmax) * 1024) <= n * 1024 <= (area * zmax) * 1024) by (nonlinear_arith)
            requires -(area * zmax) <= n <= area * zmax;
        assert((area * zmax) * 1024 == (zmax * 1024) * area) by (nonlinear_arith);
        lemma_floor_div_bound(n * 1024, area as int, zmax * 1024);
    }
    let q: i128 = floor_div(DEPTH_ONE as i128 * num, area);
    (q + DEPTH_BIAS as i128) as i64
}

impl Shape2d for Triangle2d {
    open spec fn drawn(&self, f: Frame) -> Frame {
        self.fill_some(f, |x: int, y: int| true)
    }

    /// For every cell of the clamped bounding box that the inside test
    /// accepts, writes the fill under the fill rule, the depth blended from
    /// the corners by the sub-areas; a triangle of zero area writes nothing.
    fn add_to_grid(&self, screen: &mut Screen) {
        let (ax, bx, cx) = (self.points[0].x as i64, self.points[1].x as i64, self.points[2].x as i64);
        let (ay, by, cy) = (self.points[0].y as i64, self.points[1].y as i64, self.points[2].y as i64);
        let lo_x = if ax <= bx && ax <= cx { ax } else if bx <= cx { bx } else { cx };
        let hi_x = if ax >= bx && ax >= cx { ax } else if bx >= cx { bx } else { cx };
        let lo_y = if ay <= by && ay <= cy { ay } else if by <= cy { by } else { cy };
        let hi_y = if ay >= by && ay >= cy { ay } else if by >= cy { by } else { cy };
        let x_min: i64 = if lo_x < 0 { 0 } else { lo_x };
        let x_max: i64 = if hi_x > WIDTH as i64 - 1 { WIDTH as i64 - 1 } else { hi_x };
        let y_min: i64 = if lo_y < 0 { 0 } else { lo_y };
        let y_max: i64 = if hi_y > HEIGHT as i64 - 1 { HEIGHT as i64 - 1 } else { hi_y };
        let area = self.area();
        let (c0, c1, c2) = (self.points[0].drop_z(), self.points[1].drop_z(), self.points[2].drop_z());
        let ghost start = screen@;
        let mut x = x_min;
        while x <= x_max
            invariant
                screen.wf(),
                frame_wf(start),
                x_min <= x,
                x <= x_max + 1 || x == x_min,
                forall|u: int, v: int| self.in_box(u, v) <==> (x_min <= u <= x_max && y_min <= v <= y_max),
                area == self.double_area(),
                c0 == self.corner(0) && c1 == self.corner(1) && c2 == self.corner(2),
                x_max < WIDTH,
                y_max < HEIGHT,
                0 <= x_min,
                0 <= y_min,
                screen@ == self.fill_some(start, Triangle2d::before(x as int, y_min as int)),
            decreases x_max + 1 - x,
        {
            let mut y = y_min;
            while y <= y_max
                invariant
                    screen.wf(),
                    frame_wf(start),
                    x_min <= x <= x_max,
                    y_min <= y,
                    y <= y_max + 1 || y == y_min,
                    forall|u: int, v: int| self.in_box(u, v) <==> (x_min <= u <= x_max && y_min <= v <= y_max),
                    area == self.double_area(),
                    c0 == self.corner(0) && c1 == self.corner(1) && c2 == self.corner(2),
                    x_max < WIDTH,
                    y_max < HEIGHT,
                    0 <= x_min,
                    0 <= y_min,
                    screen@ == self.fill_some(start, Triangle2d::before(x as int, y as int)),
                decreases y_max + 1 - y,
            {
                proof {
                    lemma_fill_step(*self, start, x as int, y as int);
                }
                if area > 0 {
                    let p = Point2d { x: x as i32, y: y as i32 };
                    let s0 = area_from_points(&p, &c1, &c2);
                    let s1 = area_from_points(&p, &c0, &c2);
                    let s2 = area_from_points(&p, &c0, &c1);
                    if s0 + s1 + s2 == area {
                        let z = blend_depth(self, s0, s1, s2, area);
                        screen.write_fill_pixel(x, y, z, self.fill);
                    }
                }
                y += 1;
            }
            proof {
                assert(self.fill_some(start, Triangle2d::before(x as int, y as int)).0 =~= self.fill_some(
                    start,
                    Triangle2d::before(x + 1, y_min as int),
                ).0);
                assert(self.fill_some(start, Triangle2d::before(x as int, y as int)).1 =~= self.fill_some(
                    start,
                    Triangle2d::before(x + 1, y_min as int),
                ).1);
            }
            x += 1;
        }
        proof {
            assert(screen@.0 =~= self.drawn(start).0);
            assert(screen@.1 =~= self.drawn(start).1);
        }
    }
}

/// Where `p` lands on the screen of a camera turned by yaw (`rot.x`, about
/// the y axis), pitch (`rot.y`, about the x axis) then roll (`rot.z`, about
/// the z axis), if it projects.
pub open spec fn triangle_view(p: Point3d, cam: Camera) -> Option<Point2dZ> {
    p.turned_y(cam.pos, cam.rot.x).turned_x(cam.pos, cam.rot.y).turned_z(cam.pos, cam.rot.z).projected(cam.pos)
}

/// `p` turned by the camera's yaw, pitch and roll, and projected.
#[verifier::rlimit(40)]
fn view_corner(p: &Point3d, camera: &Camera) -> (r: Option<Point2dZ>)
    requires
        p.within(SCENE_LIMIT as int),
        camera.pos.within(SCENE_LIMIT as int),
        camera.rot.wf(),
    ensures
        r == triangle_view(*p, *camera),
{
    let a = p.rotate_y(&camera.pos, &camera.rot.x);
    assert(a.within(6 * SCENE_LIMIT));
    let b = a.rotate_x(&camera.pos, &camera.rot.y);
    assert(b.within(10 * SCENE_LIMIT));
    let c = b.rotate_z(&camera.pos, &camera.rot.z);
    assert(c.within(20 * SCENE_LIMIT));
    assert(c == p.turned_y(camera.pos, camera.rot.x).turned_x(camera.pos, camera.rot.y).turned_z(camera.pos, camera.rot.z));
    c.project(camera)
}

/// Every corner is within `b`.
pub open spec fn all_within(points: [Point3d; 3], b: int) -> bool {
    points[0].within(b) && points[1].within(b) && points[2].within(b)
}

impl Triangle3d {
    /// The triangle on screen, every corner at `off_screen()` unless all
    /// three project.
    pub open spec fn projected(self, cam: Camera) -> Triangle2d {
        match (triangle_view(self.points[0], cam), triangle_view(self.points[1], cam), triangle_view(self.points[2], cam)) {
            (Some(a), Some(b), Some(c)) => Triangle2d { points: [a, b, c], fill: self.fill, border: self.border },
            _ => Triangle2d { points: [off_screen(), off_screen(), off_screen()], fill: self.fill, border: self.border },
        }
    }

    /// Projects the corners through the camera's yaw, pitch and roll; if any
    /// fails to project, every corner is placed off screen.
    pub fn project(&self, camera: &Camera) -> (r: Triangle2d)
        requires
            all_within(self.points, SCENE_LIMIT as int),
            camera.pos.within(SCENE_LIMIT as int),
            camera.rot.wf(),
        ensures
            r == self.projected(*camera),
    {
        let p1 = view_corner(&self.points[0], camera);
        let p2 = view_corner(&self.points[1], camera);
        let p3 = view_corner(&self.points[2], camera);
        let off = Point2dZ { x: -1, y: -1, z: 0 };
        let points = match (p1, p2, p3) {
            (Some(a), Some(b), Some(c)) => [a, b, c],
            _ => [off, off, off],
        };
        Triangle2d { points, fill: self.fill, border: self.border }
    }

    /// The triangle turned about the y axis through `center`.
    pub fn rotate_y(&self, center: &Point3d, rads: &Angle) -> (r: Triangle3d)
        requires
            all_within(self.points, ROTATE_LIMIT as int),
            center.within(ROTATE_LIMIT as int),
            rads.wf(),
        ensures
            r.points[0] == self.points[0].turned_y(*center, *rads),
            r.points[1] == self.points[1].turned_y(*center, *rads),
            r.points[2] == self.points[2].turned_y(*center, *rads),
            r.fill == self.fill,
            r.border == self.border,
    {
        Triangle3d {
            points: [
                self.points[0].rotate_y(center, rads),
                self.points[1].rotate_y(center, rads),
                self.points[2].rotate_y(center, rads),
            ],
            fill: self.fill,
            border: self.border,
        }
    }

    /// The triangle turned about the x axis through `center`.
    pub fn rotate_x(&self, center: &Point3d, rads: &Angle) -> (r: Triangle3d)
        requires
            all_within(self.points, ROTATE_LIMIT as int),
            center.within(ROTATE_LIMIT as int),
            rads.wf(),
        ensures
            r.points[0] == self.points[0].turned_x(*center, *rads),
            r.points[1] == self.points[1].turned_x(*center, *rads),
            r.points[2] == self.points[2].turned_x(*center, *rads),
            r.fill == self.fill,
            r.border == self.border,
    {
        Triangle3d {
            points: [
                self.points[0].rotate_x(center, rads),
                self.points[1].rotate_x(center, rads),
                self.points[2].rotate_x(center, rads),
            ],
            fill: self.fill,
            border: self.border,
        }
    }

    /// The triangle turned about the z axis through `center`.
    pub fn rotate_z(&self, center: &Point3d, rads: &Angle) -> (r: Triangle3d)
        requires
            all_within(self.points, ROTATE_LIMIT as int),
            center.within(ROTATE_LIMIT as int),
            rads.wf(),
        ensures
            r.points[0] == self.points[0].turned_z(*center, *rads),
            r.points[1] == self.points[1].turned_z(*center, *rads),
            r.points[2] == self.points[2].turned_z(*center, *rads),
            r.fill == self.fill,
            r.border == self.border,
    {
        Triangle3d {
            points: [
                self.points[0].rotate_z(center, rads),
                self.points[1].rotate_z(center, rads),
                self.points[2].rotate_z(center, rads),
            ],
            fill: self.fill,
            border: self.border,
        }
    }

    /// Turns the triangle in place about the y axis through `center`.
    pub fn rotate_y_mut(&mut self, center: &Point3d, rads: &Angle)
        requires
            all_within(old(self).points, ROTATE_LIMIT as int),
            center.within(ROTATE_LIMIT as int),
            rads.wf(),
        ensures
            final(self).points[0] == old(self).points[0].turned_y(*center, *rads),
            final(self).points[1] == old(self).points[1].turned_y(*center, *rads),
            final(self).points[2] == old(self).points[2].turned_y(*center, *rads),
            final(self).fill == old(self).fill,
            final(self).border == old(self).border,
    {
        *self = self.rotate_y(center, rads);
    }

    /// Turns the triangle in place about the x axis through `center`.
    pub fn rotate_x_mut(&mut self, center: &Point3d, rads: &Angle)
        requires
            all_within(old(self).points, ROTATE_LIMIT as int),
            center.within(ROTATE_LIMIT as int),
            rads.wf(),
        ensures
            final(self).points[0] == old(self).points[0].turned_x(*center, *rads),
            final(self).points[1] == old(self).points[1].turned_x(*center, *rads),
            final(self).points[2] == old(self).points[2].turned_x(*center, *rads),
            final(self).fill == old(self).fill,
            final(self).border == old(self).border,
    {
        *self = self.rotate_x(center, rads);
    }

    /// Turns the triangle in place about the z axis through `center`.
    pub fn rotate_z_mut(&mut self, center: &Point3d, rads: &Angle)
        requires
            all_within(old(self).points, ROTATE_LIMIT as int),
            center.within(ROTATE_LIMIT as int),
            rads.wf(),
        ensures
            final(self).points[0] == old(self).points[0].turned_z(*center, *rads),
            final(self).points[1] == old(self).points[1].turned_z(*center, *rads),
            final(self).points[2] == old(self).points[2].turned_z(*center, *rads),
            final(self).fill == old(self).fill,
            final(self).border == old(self).border,
    {
        *self = self.rotate_z(center, rads);
    }

    /// The centroid, each coordinate rounded down.
    pub fn center(&self) -> (r: Point3d)
        ensures
            r.x == (self.points[0].x + self.points[1].x + self.points[2].x) / 3,
            r.y == (self.points[0].y + self.points[1].y + self.points[2].y) / 3,
            r.z == (self.points[0].z + self.points[1].z + self.points[2].z) / 3,
    {
        let p = self.points;
        let x: i128 = floor_div(p[0].x as i128 + p[1].x as i128 + p[2].x as i128, 3);
        let y: i128 = floor_div(p[0].y as i128 + p[1].y as i128 + p[2].y as i128, 3);
        let z: i128 = floor_div(p[0].z as i128 + p[1].z as i128 + p[2].z as i128, 3);
        Point3d { x: x as i64, y: y as i64, z: z as i64 }
    }
}

} // verus!
