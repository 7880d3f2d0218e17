//! Line segments in world and screen space, and the digital walk that
//! rasterizes them.
use vstd::prelude::*;

use crate::display::{cell_index, line_write, Frame, Screen, Shape2d, DEPTH_ONE};
use crate::fixed::{abs, floor_div, lemma_floor_div_bound, lemma_mul_abs_le};
use crate::point::{clamp_i32, on_screen, Angle, Point2d, Point2dZ, Point3d, ROTATE_LIMIT, SCENE_LIMIT, UNIT};
use crate::projection::Camera;
use crate::{HEIGHT, WIDTH};

verus! {

/// A world-space segment drawn with `character`.
#[derive(Clone, Copy, Debug, PartialEq, Eq, Structural)]
pub struct Line3d {
    pub p1: Point3d,
    pub p2: Point3d,
    pub character: u8,
}

/// A screen-space segment whose ends carry depths.
#[derive(Clone, Copy, Debug, PartialEq, Eq, Structural)]
pub struct Line2dZ {
    pub p1: Point2dZ,
    pub p2: Point2dZ,
    pub character: u8,
}

/// A screen-space segment without depth.
#[derive(Clone, Copy, Debug, PartialEq, Eq, Structural)]
pub struct Line2d {
    pub p1: Point2d,
    pub p2: Point2d,
    pub character: u8,
}

/// State of the walk: the number of x steps and of y steps taken.
pub type WalkState = (int, int);

/// The coordinate `i` unit steps from `a` toward `b`.
pub open spec fn advance(a: int, b: int, i: int) -> int {
    if b >= a {
        a + i
    } else {
        a - i
    }
}

/// Whether, on the walk from `(x1, y1)` to `(x2, y2)`, x step `a` (counted
/// from 0) comes before y step `b`: the middle of x step `a` lies at
/// `(2a + 1) / (2|dx|)` of the way and that of y step `b` at
/// `(2b + 1) / (2|dy|)`, so x step `a` comes first when
/// `(2a + 1) |dy| < (2b + 1) |dx|`. On a tie the step that leads to the
/// smaller x comes first, which keeps the path the same in both directions.
pub open spec fn x_first(x1: int, y1: int, x2: int, y2: int, a: int, b: int) -> bool {
    let adx = abs(x2 - x1);
    let ady = abs(y2 - y1);
    (2 * a + 1) * ady < (2 * b + 1) * adx || ((2 * a + 1) * ady == (2 * b + 1) * adx && x2 < x1)
}

/// One step of the walk from `(x1, y1)` to `(x2, y2)`: an x step while x
/// steps remain and either no y step remains or the next x step comes first;
/// a y step otherwise.
pub open spec fn walk_step(x1: int, y1: int, x2: int, y2: int, s: WalkState) -> WalkState {
    if s.0 < abs(x2 - x1) && (s.1 == abs(y2 - y1) || x_first(x1, y1, x2, y2, s.0, s.1)) {
        (s.0 + 1, s.1)
    } else {
        (s.0, s.1 + 1)
    }
}

/// The cell of walk state `s`.
pub open spec fn walk_cell(x1: int, y1: int, x2: int, y2: int, s: WalkState) -> (int, int) {
    (advance(x1, x2, s.0), advance(y1, y2, s.1))
}

/// Whether the walk from state `s` has reached `(x2, y2)`.
pub open spec fn walk_done(x1: int, y1: int, x2: int, y2: int, s: WalkState) -> bool {
    s.0 == abs(x2 - x1) && s.1 == abs(y2 - y1)
}

/// The cells the walk visits from state `s` to its end cell, both included,
/// at most `fuel` of them.
pub open spec fn walk_from(x1: int, y1: int, x2: int, y2: int, s: WalkState, fuel: nat) -> Seq<(int, int)>
    decreases fuel,
{
    if fuel == 0 {
        Seq::empty()
    } else if walk_done(x1, y1, x2, y2, s) {
        seq![walk_cell(x1, y1, x2, y2, s)]
    } else {
        seq![walk_cell(x1, y1, x2, y2, s)] + walk_from(x1, y1, x2, y2, walk_step(x1, y1, x2, y2, s), (fuel - 1) as nat)
    }
}

/// Number of cells of a walk: one per unit step, plus the start cell.
pub open spec fn walk_bound(x1: int, y1: int, x2: int, y2: int) -> int {
    abs(x2 - x1) + abs(y2 - y1) + 1
}

/// The cells of the walk from `(x1, y1)` to `(x2, y2)`, both ends included,
/// in order: each cell is one unit step in x or in y from the one before.
pub open spec fn line_cells(x1: int, y1: int, x2: int, y2: int) -> Seq<(int, int)> {
    walk_from(x1, y1, x2, y2, (0, 0), walk_bound(x1, y1, x2, y2) as nat)
}

/// A walk state within the walk's step counts.
pub open spec fn walk_ok(x1: int, y1: int, x2: int, y2: int, s: WalkState) -> bool {
    0 <= s.0 <= abs(x2 - x1) && 0 <= s.1 <= abs(y2 - y1)
}

/// Characters after drawing `cells[..n]` with `c`, without depth.
pub open spec fn plot_flat(g: Seq<u8>, cells: Seq<(int, int)>, c: u8, n: int) -> Seq<u8>
    decreases n,
{
    if n <= 0 {
        g
    } else {
        let g1 = plot_flat(g, cells, c, n - 1);
        if on_screen(cells[n - 1].0, cells[n - 1].1) {
            g1.update(cell_index(cells[n - 1].0, cells[n - 1].1), c)
        } else {
            g1
        }
    }
}

/// Depth, in `DEPTH_ONE` steps, after `k` of `steps` unit steps from depth
/// `z1` to depth `z2`.
pub open spec fn line_depth(z1: int, z2: int, k: int, steps: int) -> int {
    if steps <= 0 {
        DEPTH_ONE * z1
    } else {
        DEPTH_ONE * z1 + (DEPTH_ONE * k * (z2 - z1)) / steps
    }
}

/// The frame after drawing `cells[..n]` with `c` under the line rule, the
/// depth running from `z1` at the first cell to `z2` at the last.
pub open spec fn plot_line(f: Frame, cells: Seq<(int, int)>, z1: int, z2: int, c: u8, n: int) -> Frame
    decreases n,
{
    if n <= 0 {
        f
    } else {
        line_write(
            plot_line(f, cells, z1, z2, c, n - 1),
            cells[n - 1].0,
            cells[n - 1].1,
            line_depth(z1, z2, n - 1, cells.len() - 1),
            c,
        )
    }
}

/// A walk state for a screen segment, as machine integers: the position and
/// the steps taken in x and in y.
struct Walker {
    x: i64,
    y: i64,
    count_x: i64,
    count_y: i64,
}

impl Walker {
    spec fn state(&self) -> WalkState {
        (self.count_x as int, self.count_y as int)
    }

    /// The walk state is in range and the position is its cell.
    spec fn on(&self, x1: int, y1: int, x2: int, y2: int) -> bool {
        &&& walk_ok(x1, y1, x2, y2, self.state())
        &&& (self.x as int, self.y as int) == walk_cell(x1, y1, x2, y2, self.state())
    }
}

/// `|b - a|` for `i32` values.
fn distance_i32(a: i32, b: i32) -> (r: i64)
    ensures
        r == abs(b - a),
{
    let d = b as i64 - a as i64;
    if d < 0 {
        -d
    } else {
        d
    }
}

/// Takes one step of the walk from `(x1, y1)` to `(x2, y2)`.
fn walk_next(x1: i32, y1: i32, x2: i32, y2: i32, w: Walker) -> (r: Walker)
    requires
        w.on(x1 as int, y1 as int, x2 as int, y2 as int),
        !walk_done(x1 as int, y1 as int, x2 as int, y2 as int, w.state()),
    ensures
        r.state() == walk_step(x1 as int, y1 as int, x2 as int, y2 as int, w.state()),
        r.on(x1 as int, y1 as int, x2 as int, y2 as int),
{
    let adx = distance_i32(x1, x2);
    let ady = distance_i32(y1, y2);
    proof {
        lemma_mul_abs_le(2 * w.count_x + 1, 0x2_0000_0001, ady as int, 0x1_0000_0000);
        lemma_mul_abs_le(2 * w.count_y + 1, 0x2_0000_0001, adx as int, 0x1_0000_0000);
    }
    let a: i128 = (2 * w.count_x as i128 + 1) * ady as i128;
    let b: i128 = (2 * w.count_y as i128 + 1) * adx as i128;
    let x_next = w.count_x < adx && (w.count_y == ady || a < b || (a == b && x2 < x1));
    if x_next {
        Walker { x: w.x + if x2 >= x1 { 1 } else { -1 }, y: w.y, count_x: w.count_x + 1, count_y: w.count_y }
    } else {
        Walker { x: w.x, y: w.y + if y2 >= y1 { 1 } else { -1 }, count_x: w.count_x, count_y: w.count_y + 1 }
    }
}

/// The walk's cells from a state: its own cell, then the rest.
proof fn lemma_walk_unfold(x1: int, y1: int, x2: int, y2: int, s: WalkState, fuel: nat)
    requires
        fuel > 0,
    ensures
        walk_from(x1, y1, x2, y2, s, fuel) == seq![walk_cell(x1, y1, x2, y2, s)] + (if walk_done(x1, y1, x2, y2, s) {
            Seq::empty()
        } else {
            walk_from(x1, y1, x2, y2, walk_step(x1, y1, x2, y2, s), (fuel - 1) as nat)
        }),
{
    if walk_done(x1, y1, x2, y2, s) {
        assert(seq![walk_cell(x1, y1, x2, y2, s)] + Seq::<(int, int)>::empty() =~= seq![walk_cell(x1, y1, x2, y2, s)]);
    }
}

/// A walk from a state in range takes one cell per remaining unit step,
/// plus its end cell.
proof fn lemma_walk_len(x1: int, y1: int, x2: int, y2: int, s: WalkState, fuel: nat)
    requires
        walk_ok(x1, y1, x2, y2, s),
        fuel >= walk_bound(x1, y1, x2, y2) - s.0 - s.1,
    ensures
        walk_from(x1, y1, x2, y2, s, fuel).len() == walk_bound(x1, y1, x2, y2) - s.0 - s.1,
    decreases fuel,
{
    if !walk_done(x1, y1, x2, y2, s) {
        lemma_walk_len(x1, y1, x2, y2, walk_step(x1, y1, x2, y2, s), (fuel - 1) as nat);
    }
}

/// Moving one visited cell from the rest of the walk onto the prefix.
proof fn lemma_prefix_step(cells: Seq<(int, int)>, n: int, rest0: Seq<(int, int)>, c: (int, int), rest1: Seq<(int, int)>)
    requires
        0 <= n <= cells.len(),
        cells.subrange(0, n) + rest0 == cells,
        rest0 == seq![c] + rest1,
    ensures
        n < cells.len(),
        cells[n] == c,
        cells.subrange(0, n + 1) + rest1 == cells,
{
    assert(cells.len() == n + rest0.len());
    assert(cells[n] == (cells.subrange(0, n) + rest0)[n]);
    assert(cells.subrange(0, n + 1) + rest1 =~= cells);
}

/// Depth after `k` of `n` unit steps from `z1` to `z2`, in `DEPTH_ONE` steps.
fn step_depth(z1: i32, z2: i32, k: i64, n: i64) -> (d: i64)
    requires
        0 <= k <= n,
    ensures
        d == line_depth(z1 as int, z2 as int, k as int, n as int),
{
    if n == 0 {
        return DEPTH_ONE * z1 as i64;
    }
    let m: i128 = DEPTH_ONE as i128 * (z2 as i128 - z1 as i128);
    proof {
        let mm = m as int;
        lemma_mul_abs_le(mm, abs(mm), k as int, n as int);
        assert(abs(mm) <= 1024 * 0x1_0000_0000);
        assert(abs(mm) * n <= 1024 * 0x1_0000_0000 * 0x7fff_ffff_ffff_ffff) by (nonlinear_arith)
            requires abs(mm) <= 1024 * 0x1_0000_0000, 0 < n <= 0x7fff_ffff_ffff_ffff;
        assert(-(abs(mm) * n) <= mm * k <= abs(mm) * n);
        lemma_floor_div_bound(mm * k, n as int, abs(mm));
        assert(DEPTH_ONE * k * (z2 - z1) == mm * k) by (nonlinear_arith)
            requires mm == DEPTH_ONE * (z2 - z1);
    }
    let q: i128 = floor_div(m * k as i128, n as i128);
    assert(-0x400_0000_0000 <= q <= 0x400_0000_0000);
    (DEPTH_ONE as i128 * z1 as i128 + q) as i64
}

impl Shape2d for Line2d {
    open spec fn drawn(&self, f: Frame) -> Frame {
        let cells = line_cells(self.p1.x as int, self.p1.y as int, self.p2.x as int, self.p2.y as int);
        (plot_flat(f.0, cells, self.character, cells.len() as int), f.1)
    }

    /// Writes the character on every cell of the walk, both ends included,
    /// that lies on the grid, whatever is there; depths are left alone.
    fn add_to_grid(&self, screen: &mut Screen) {
        let (x1, y1, x2, y2) = (self.p1.x, self.p1.y, self.p2.x, self.p2.y);
        let ghost a1 = x1 as int;
        let ghost b1 = y1 as int;
        let ghost a2 = x2 as int;
        let ghost b2 = y2 as int;
        let ghost total = walk_bound(a1, b1, a2, b2);
        let ghost cells = line_cells(a1, b1, a2, b2);
        let ghost start = screen@;
        let adx = distance_i32(x1, x2);
        let ady = distance_i32(y1, y2);
        let mut w = Walker { x: x1 as i64, y: y1 as i64, count_x: 0, count_y: 0 };
        let mut n: i64 = 0;
        loop
            invariant_except_break
                w.on(a1, b1, a2, b2),
                n == w.count_x + w.count_y,
                n <= cells.len(),
                cells.subrange(0, n as int) + walk_from(a1, b1, a2, b2, w.state(), (total - n) as nat) == cells,
                screen.wf(),
                screen@.1 == start.1,
                screen@.0 == plot_flat(start.0, cells, self.character, n as int),
            invariant
                a1 == x1 && b1 == y1 && a2 == x2 && b2 == y2,
                adx == abs(a2 - a1) && ady == abs(b2 - b1),
                total == walk_bound(a1, b1, a2, b2),
                cells == line_cells(a1, b1, a2, b2),
            ensures
                screen.wf(),
                screen@.1 == start.1,
                screen@.0 == plot_flat(start.0, cells, self.character, cells.len() as int),
            decreases total - n,
        {
            let (cx, cy) = (w.x, w.y);
            let done = w.count_x == adx && w.count_y == ady;
            let ghost s0 = w.state();
            proof {
                lemma_walk_unfold(a1, b1, a2, b2, s0, (total - n) as nat);
                let rest1 = if done {
                    Seq::empty()
                } else {
                    walk_from(a1, b1, a2, b2, walk_step(a1, b1, a2, b2, s0), (total - n - 1) as nat)
                };
                lemma_prefix_step(cells, n as int, walk_from(a1, b1, a2, b2, s0, (total - n) as nat), (cx as int, cy as int), rest1);
                if done {
                    assert(cells.subrange(0, n + 1) =~= cells);
                }
            }
            if 0 <= cx && cx < WIDTH as i64 && 0 <= cy && cy < HEIGHT as i64 {
                screen.put_char(cx as usize, cy as usize, self.character);
            }
            if done {
                break;
            }
            w = walk_next(x1, y1, x2, y2, w);
            n = n + 1;
        }
    }
}

impl Shape2d for Line2dZ {
    open spec fn drawn(&self, f: Frame) -> Frame {
        let cells = line_cells(self.p1.x as int, self.p1.y as int, self.p2.x as int, self.p2.y as int);
        plot_line(f, cells, self.p1.z as int, self.p2.z as int, self.character, cells.len() as int)
    }

    /// Walks from one end to the other, both included, writing each cell on
    /// the grid under the line rule, the depth interpolated linearly over the
    /// `|dx| + |dy|` steps.
    fn add_to_grid(&self, screen: &mut Screen) {
        let (x1, y1, x2, y2) = (self.p1.x, self.p1.y, self.p2.x, self.p2.y);
        let ghost a1 = x1 as int;
        let ghost b1 = y1 as int;
        let ghost a2 = x2 as int;
        let ghost b2 = y2 as int;
        let ghost total = walk_bound(a1, b1, a2, b2);
        let ghost cells = line_cells(a1, b1, a2, b2);
        let ghost start = screen@;
        let adx = distance_i32(x1, x2);
        let ady = distance_i32(y1, y2);
        let steps = adx + ady;
        proof {
            lemma_walk_len(a1, b1, a2, b2, (0, 0), total as nat);
        }
        let mut w = Walker { x: x1 as i64, y: y1 as i64, count_x: 0, count_y: 0 };
        let mut n: i64 = 0;
        loop
            invariant_except_break
                w.on(a1, b1, a2, b2),
                n == w.count_x + w.count_y,
                n <= cells.len(),
                cells.subrange(0, n as int) + walk_from(a1, b1, a2, b2, w.state(), (total - n) as nat) == cells,
                screen.wf(),
                screen@ == plot_line(start, cells, self.p1.z as int, self.p2.z as int, self.character, n as int),
            invariant
                a1 == x1 && b1 == y1 && a2 == x2 && b2 == y2,
                adx == abs(a2 - a1) && ady == abs(b2 - b1),
                steps == adx + ady,
                total == walk_bound(a1, b1, a2, b2),
                cells == line_cells(a1, b1, a2, b2),
                cells.len() == steps + 1,
            ensures
                screen.wf(),
                screen@ == plot_line(start, cells, self.p1.z as int, self.p2.z as int, self.character, cells.len() as int),
            decreases total - n,
        {
            let (cx, cy) = (w.x, w.y);
            let done = w.count_x == adx && w.count_y == ady;
            let ghost s0 = w.state();
            proof {
                lemma_walk_unfold(a1, b1, a2, b2, s0, (total - n) as nat);
                let rest1 = if done {
                    Seq::empty()
                } else {
                    walk_from(a1, b1, a2, b2, walk_step(a1, b1, a2, b2, s0), (total - n - 1) as nat)
                };
                lemma_prefix_step(cells, n as int, walk_from(a1, b1, a2, b2, s0, (total - n) as nat), (cx as int, cy as int), rest1);
                if done {
                    assert(cells.subrange(0, n + 1) =~= cells);
                }
            }
            let z = step_depth(self.p1.z, self.p2.z, n, steps);
            screen.write_line_pixel(cx, cy, z, self.character);
            if done {
                break;
            }
            w = walk_next(x1, y1, x2, y2, w);
            n = n + 1;
        }
    }
}

/// Whether `a`, `b`, `c` turn counter-clockwise.
pub open spec fn ccw(a: Point2d, b: Point2d, c: Point2d) -> bool {
    (c.y - a.y) * (b.x - a.x) > (b.y - a.y) * (c.x - a.x)
}

/// Whether segment `ab` properly crosses segment `cd`.
pub open spec fn crosses(a: Point2d, b: Point2d, c: Point2d, d: Point2d) -> bool {
    ccw(a, c, d) != ccw(b, c, d) && ccw(a, b, c) != ccw(a, b, d)
}

/// A product of two differences of `i32` values, exactly.
fn diff_product(a: i32, b: i32, c: i32, d: i32) -> (r: i128)
    ensures
        r == (a - b) * (c - d),
{
    proof {
        lemma_mul_abs_le(a - b, 0x1_0000_0000, c - d, 0x1_0000_0000);
    }
    (a as i128 - b as i128) * (c as i128 - d as i128)
}

fn is_ccw(a: &Point2d, b: &Point2d, c: &Point2d) -> (r: bool)
    ensures
        r == ccw(*a, *b, *c),
{
    diff_product(c.y, a.y, b.x, a.x) > diff_product(b.y, a.y, c.x, a.x)
}

fn lines_intersect(a: &Point2d, b: &Point2d, c: &Point2d, d: &Point2d) -> (r: bool)
    ensures
        r == crosses(*a, *b, *c, *d),
{
    is_ccw(a, c, d) != is_ccw(b, c, d) && is_ccw(a, b, c) != is_ccw(a, b, d)
}

/// Corner of the screen at column `x`, row `y`.
pub open spec fn corner(x: int, y: int) -> Point2d {
    Point2d { x: x as i32, y: y as i32 }
}

impl Line2d {
    /// Whether the segment crosses one of the four edges of the screen.
    pub open spec fn crosses_screen_edge(self) -> bool {
        crosses(self.p1, self.p2, corner(0, 0), corner(0, HEIGHT as int))
            || crosses(self.p1, self.p2, corner(0, 0), corner(WIDTH as int, 0))
            || crosses(self.p1, self.p2, corner(0, HEIGHT as int), corner(WIDTH as int, HEIGHT as int))
            || crosses(self.p1, self.p2, corner(WIDTH as int, 0), corner(WIDTH as int, HEIGHT as int))
    }

    /// Whether the segment crosses one of the four edges of the screen.
    pub fn is_in_screen(&self) -> (r: bool)
        ensures
            r == self.crosses_screen_edge(),
    {
        let c1 = Point2d { x: 0, y: 0 };
        let c2 = Point2d { x: 0, y: HEIGHT as i32 };
        let c3 = Point2d { x: WIDTH as i32, y: 0 };
        let c4 = Point2d { x: WIDTH as i32, y: HEIGHT as i32 };
        lines_intersect(&self.p1, &self.p2, &c1, &c2) || lines_intersect(&self.p1, &self.p2, &c1, &c3)
            || lines_intersect(&self.p1, &self.p2, &c2, &c4) || lines_intersect(&self.p1, &self.p2, &c3, &c4)
    }
}

/// Where `p` lands on the screen of a camera turned by yaw (`rot.x`, about
/// the y axis) then pitch (`rot.y`, about the x axis), if it projects.
pub open spec fn line_view(p: Point3d, cam: Camera) -> Option<Point2dZ> {
    p.turned_y(cam.pos, cam.rot.x).turned_x(cam.pos, cam.rot.y).projected(cam.pos)
}

/// Screen position given to every point of a shape that does not project.
pub open spec fn off_screen() -> Point2dZ {
    Point2dZ { x: -1i32, y: -1i32, z: 0i32 }
}

/// `v` divided by `d`, rounded down, saturated to `i32`.
fn scaled_down(v: i64, d: i64) -> (r: i32)
    requires
        d > 0,
    ensures
        r == clamp_i32(v as int / d as int),
{
    let q: i128 = floor_div(v as i128, d as i128);
    if q < i32::MIN as i128 {
        i32::MIN
    } else if q > i32::MAX as i128 {
        i32::MAX
    } else {
        q as i32
    }
}

/// `p` turned by the camera's yaw then pitch, and projected.
#[verifier::rlimit(40)]
fn view_point(p: &Point3d, camera: &Camera) -> (r: Option<Point2dZ>)
    requires
        p.within(SCENE_LIMIT as int),
        camera.pos.within(SCENE_LIMIT as int),
        camera.rot.wf(),
    ensures
        r == line_view(*p, *camera),
{
    let a = p.rotate_y(&camera.pos, &camera.rot.x);
    assert(a.within(6 * SCENE_LIMIT));
    let b = a.rotate_x(&camera.pos, &camera.rot.y);
    assert(b.within(10 * SCENE_LIMIT));
    assert(b == p.turned_y(camera.pos, camera.rot.x).turned_x(camera.pos, camera.rot.y));
    b.project(camera)
}

impl Line3d {
    /// Both ends within the scene limit.
    pub open spec fn in_scene(self) -> bool {
        self.p1.within(SCENE_LIMIT as int) && self.p2.within(SCENE_LIMIT as int)
    }

    /// The segment on screen, both ends at `off_screen()` unless both project.
    pub open spec fn projected(self, cam: Camera) -> Line2dZ {
        match (line_view(self.p1, cam), line_view(self.p2, cam)) {
            (Some(a), Some(b)) => Line2dZ { p1: a, p2: b, character: self.character },
            _ => Line2dZ { p1: off_screen(), p2: off_screen(), character: self.character },
        }
    }

    /// Projects both ends through the camera's yaw and pitch; if either
    /// fails to project, both ends are placed off screen.
    pub fn project(&self, camera: &Camera) -> (r: Line2dZ)
        requires
            self.in_scene(),
            camera.pos.within(SCENE_LIMIT as int),
            camera.rot.wf(),
        ensures
            r == self.projected(*camera),
    {
        let p1 = view_point(&self.p1, camera);
        let p2 = view_point(&self.p2, camera);
        let (a, b) = match (p1, p2) {
            (Some(a), Some(b)) => (a, b),
            _ => (Point2dZ { x: -1, y: -1, z: 0 }, Point2dZ { x: -1, y: -1, z: 0 }),
        };
        Line2dZ { p1: a, p2: b, character: self.character }
    }

    /// The midpoint, each coordinate rounded down.
    pub fn center(&self) -> (r: Point3d)
        ensures
            r.x == (self.p1.x + self.p2.x) / 2,
            r.y == (self.p1.y + self.p2.y) / 2,
            r.z == (self.p1.z + self.p2.z) / 2,
    {
        let x: i128 = floor_div(self.p1.x as i128 + self.p2.x as i128, 2);
        let y: i128 = floor_div(self.p1.y as i128 + self.p2.y as i128, 2);
        let z: i128 = floor_div(self.p1.z as i128 + self.p2.z as i128, 2);
        Point3d { x: x as i64, y: y as i64, z: z as i64 }
    }

    /// Turns both ends in place about the y axis through `center`.
    pub fn rotate_y_mut(&mut self, center: &Point3d, rad: &Angle)
        requires
            old(self).p1.within(ROTATE_LIMIT as int),
            old(self).p2.within(ROTATE_LIMIT as int),
            center.within(ROTATE_LIMIT as int),
            rad.wf(),
        ensures
            final(self).p1 == old(self).p1.turned_y(*center, *rad),
            final(self).p2 == old(self).p2.turned_y(*center, *rad),
            final(self).character == old(self).character,
    {
        self.p1.rotate_y_mut(center, rad);
        self.p2.rotate_y_mut(center, rad);
    }

    /// Turns both ends in place about the x axis through `center`.
    pub fn rotate_x_mut(&mut self, center: &Point3d, rad: &Angle)
        requires
            old(self).p1.within(ROTATE_LIMIT as int),
            old(self).p2.within(ROTATE_LIMIT as int),
            center.within(ROTATE_LIMIT as int),
            rad.wf(),
        ensures
            final(self).p1 == old(self).p1.turned_x(*center, *rad),
            final(self).p2 == old(self).p2.turned_x(*center, *rad),
            final(self).character == old(self).character,
    {
        self.p1.rotate_x_mut(center, rad);
        self.p2.rotate_x_mut(center, rad);
    }

    /// Turns both ends in place about the z axis through `center`.
    pub fn rotate_z_mut(&mut self, center: &Point3d, rad: &Angle)
        requires
            old(self).p1.within(ROTATE_LIMIT as int),
            old(self).p2.within(ROTATE_LIMIT as int),
            center.within(ROTATE_LIMIT as int),
            rad.wf(),
        ensures
            final(self).p1 == old(self).p1.turned_z(*center, *rad),
            final(self).p2 == old(self).p2.turned_z(*center, *rad),
            final(self).character == old(self).character,
    {
        self.p1.rotate_z_mut(center, rad);
        self.p2.rotate_z_mut(center, rad);
    }

    /// The segment read as a flat screen segment: x and y in whole world
    /// units, depth dropped.
    pub open spec fn flat(self) -> Line2d {
        Line2d {
            p1: Point2d { x: clamp_i32(self.p1.x as int / (UNIT as int)) as i32, y: clamp_i32(self.p1.y as int / (UNIT as int)) as i32 },
            p2: Point2d { x: clamp_i32(self.p2.x as int / (UNIT as int)) as i32, y: clamp_i32(self.p2.y as int / (UNIT as int)) as i32 },
            character: self.character,
        }
    }

    /// Draws the segment's x and y, in world units, straight onto the grid
    /// without depth.
    pub fn add_to_grid(&self, screen: &mut Screen)
        requires
            old(screen).wf(),
        ensures
            final(screen).wf(),
            final(screen)@ == self.flat().drawn(old(screen)@),
    {
        let l = Line2d {
            p1: Point2d { x: scaled_down(self.p1.x, UNIT), y: scaled_down(self.p1.y, UNIT) },
            p2: Point2d { x: scaled_down(self.p2.x, UNIT), y: scaled_down(self.p2.y, UNIT) },
            character: self.character,
        };
        l.add_to_grid(screen);
    }
}

/// Whether the walk from `(x1, y1)` to `(x2, y2)` passes the state with `i`
/// x steps and `j` y steps taken: every earlier x step comes before y step
/// `j`, and every earlier y step comes before x step `i`.
pub open spec fn on_path(x1: int, y1: int, x2: int, y2: int, i: int, j: int) -> bool {
    &&& 0 <= i <= abs(x2 - x1)
    &&& 0 <= j <= abs(y2 - y1)
    &&& (i == 0 || j == abs(y2 - y1) || x_first(x1, y1, x2, y2, i - 1, j))
    &&& (j == 0 || i == abs(x2 - x1) || !x_first(x1, y1, x2, y2, i, j - 1))
}

/// Whether cell `c` lies on the walk from `(x1, y1)` to `(x2, y2)`.
pub open spec fn on_line(x1: int, y1: int, x2: int, y2: int, c: (int, int)) -> bool {
    let s = (abs(c.0 - x1), abs(c.1 - y1));
    on_path(x1, y1, x2, y2, s.0, s.1) && walk_cell(x1, y1, x2, y2, s) == c
}

/// An x step that comes before a y step also comes before every later y
/// step, and every earlier x step comes before it too.
proof fn lemma_x_first_mono(x1: int, y1: int, x2: int, y2: int, a: int, b: int, a2: int, b2: int)
    requires
        x_first(x1, y1, x2, y2, a, b),
        0 <= a2 <= a,
        b <= b2,
        0 <= b,
    ensures
        x_first(x1, y1, x2, y2, a2, b2),
{
    let adx = abs(x2 - x1);
    let ady = abs(y2 - y1);
    assert((2 * a2 + 1) * ady <= (2 * a + 1) * ady) by (nonlinear_arith)
        requires 0 <= a2 <= a, ady >= 0;
    assert((2 * b + 1) * adx <= (2 * b2 + 1) * adx) by (nonlinear_arith)
        requires b <= b2, adx >= 0;
}

/// Seen from the other end, x step `a` and y step `b` swap order.
proof fn lemma_x_first_flip(x1: int, y1: int, x2: int, y2: int, a: int, b: int)
    requires
        0 <= a < abs(x2 - x1),
    ensures
        x_first(x2, y2, x1, y1, abs(x2 - x1) - 1 - a, abs(y2 - y1) - 1 - b) <==> !x_first(x1, y1, x2, y2, a, b),
{
    let adx = abs(x2 - x1);
    let ady = abs(y2 - y1);
    assert(abs(x1 - x2) == adx && abs(y1 - y2) == ady);
    assert((2 * (adx - 1 - a) + 1) * ady == 2 * adx * ady - (2 * a + 1) * ady) by (nonlinear_arith);
    assert((2 * (ady - 1 - b) + 1) * adx == 2 * adx * ady - (2 * b + 1) * adx) by (nonlinear_arith);
}

/// A state on the path seen from one end is on the path seen from the
/// other, with the step counts taken from that end.
proof fn lemma_on_path_reverse(x1: int, y1: int, x2: int, y2: int, i: int, j: int)
    requires
        on_path(x1, y1, x2, y2, i, j),
    ensures
        on_path(x2, y2, x1, y1, abs(x2 - x1) - i, abs(y2 - y1) - j),
{
    let adx = abs(x2 - x1);
    let ady = abs(y2 - y1);
    assert(abs(x1 - x2) == adx && abs(y1 - y2) == ady);
    if i < adx && j > 0 {
        lemma_x_first_flip(x1, y1, x2, y2, i, j - 1);
        assert(adx - 1 - i == adx - i - 1 && ady - 1 - (j - 1) == ady - j);
    }
    if i > 0 && j < ady {
        lemma_x_first_flip(x1, y1, x2, y2, i - 1, j);
        assert(adx - 1 - (i - 1) == adx - i && ady - 1 - j == ady - j - 1);
    }
}

/// A cell on the walk from one end is on the walk from the other.
proof fn lemma_on_line_reverse(x1: int, y1: int, x2: int, y2: int, c: (int, int))
    requires
        on_line(x1, y1, x2, y2, c),
    ensures
        on_line(x2, y2, x1, y1, c),
{
    let i = abs(c.0 - x1);
    let j = abs(c.1 - y1);
    lemma_on_path_reverse(x1, y1, x2, y2, i, j);
    assert(abs(c.0 - x2) == abs(x2 - x1) - i);
    assert(abs(c.1 - y2) == abs(y2 - y1) - j);
}

/// One step from a state on the path lands on the path.
proof fn lemma_step_on_path(x1: int, y1: int, x2: int, y2: int, s: WalkState)
    requires
        on_path(x1, y1, x2, y2, s.0, s.1),
        !walk_done(x1, y1, x2, y2, s),
    ensures
        on_path(x1, y1, x2, y2, walk_step(x1, y1, x2, y2, s).0, walk_step(x1, y1, x2, y2, s).1),
{
    let ady = abs(y2 - y1);
    let t = walk_step(x1, y1, x2, y2, s);
    if t.0 == s.0 + 1 {
        if s.1 > 0 && x_first(x1, y1, x2, y2, s.0 + 1, s.1 - 1) {
            lemma_x_first_mono(x1, y1, x2, y2, s.0 + 1, s.1 - 1, s.0, s.1 - 1);
        }
    } else {
        if s.0 > 0 && s.1 + 1 < ady {
            lemma_x_first_mono(x1, y1, x2, y2, s.0 - 1, s.1, s.0 - 1, s.1 + 1);
        }
    }
}

/// A state on the path ahead of `s` is also ahead of the step from `s`: a
/// step skips no state on the path.
proof fn lemma_step_skips_none(x1: int, y1: int, x2: int, y2: int, s: WalkState, i: int, j: int)
    requires
        on_path(x1, y1, x2, y2, s.0, s.1),
        !walk_done(x1, y1, x2, y2, s),
        on_path(x1, y1, x2, y2, i, j),
        i >= s.0,
        j >= s.1,
        !(i == s.0 && j == s.1),
    ensures
        i >= walk_step(x1, y1, x2, y2, s).0,
        j >= walk_step(x1, y1, x2, y2, s).1,
{
    let adx = abs(x2 - x1);
    let ady = abs(y2 - y1);
    let t = walk_step(x1, y1, x2, y2, s);
    if t.0 == s.0 + 1 {
        if i == s.0 && s.1 < ady {
            lemma_x_first_mono(x1, y1, x2, y2, s.0, s.1, s.0, j - 1);
        }
    } else {
        if j == s.1 && s.0 < adx {
            lemma_x_first_mono(x1, y1, x2, y2, i - 1, s.1, s.0, s.1);
        }
    }
}

/// The cells the walk visits from a state on its path are the cells on the
/// line that are at least as many steps from the start.
#[verifier::rlimit(60)]
proof fn lemma_walk_path(x1: int, y1: int, x2: int, y2: int, s: WalkState, fuel: nat)
    requires
        on_path(x1, y1, x2, y2, s.0, s.1),
        fuel >= walk_bound(x1, y1, x2, y2) - s.0 - s.1,
    ensures
        forall|c: (int, int)|
            walk_from(x1, y1, x2, y2, s, fuel).contains(c) <==> (on_line(x1, y1, x2, y2, c) && abs(c.0 - x1) >= s.0
                && abs(c.1 - y1) >= s.1),
    decreases fuel,
{
    let w = walk_from(x1, y1, x2, y2, s, fuel);
    let here = walk_cell(x1, y1, x2, y2, s);
    assert(abs(here.0 - x1) == s.0 && abs(here.1 - y1) == s.1);
    assert(on_line(x1, y1, x2, y2, here));
    if walk_done(x1, y1, x2, y2, s) {
        assert(w == seq![here]);
        assert forall|c: (int, int)| w.contains(c) <==> (on_line(x1, y1, x2, y2, c) && abs(c.0 - x1) >= s.0 && abs(
            c.1 - y1,
        ) >= s.1) by {
            if w.contains(c) {
                assert(w[0] == c);
            }
            if on_line(x1, y1, x2, y2, c) && abs(c.0 - x1) >= s.0 && abs(c.1 - y1) >= s.1 {
                assert(c == here);
                assert(w[0] == c);
            }
        }
    } else {
        let t = walk_step(x1, y1, x2, y2, s);
        lemma_step_on_path(x1, y1, x2, y2, s);
        lemma_walk_path(x1, y1, x2, y2, t, (fuel - 1) as nat);
        let rest = walk_from(x1, y1, x2, y2, t, (fuel - 1) as nat);
        assert(w == seq![here] + rest);
        assert(t.0 >= s.0 && t.1 >= s.1);
        assert forall|c: (int, int)| w.contains(c) implies (on_line(x1, y1, x2, y2, c) && abs(c.0 - x1) >= s.0 && abs(
            c.1 - y1,
        ) >= s.1) by {
            let k = choose|k: int| 0 <= k < w.len() && w[k] == c;
            if k > 0 {
                assert(rest[k - 1] == c);
                assert(rest.contains(c));
            } else {
                assert(w[0] == here);
            }
        }
        assert forall|c: (int, int)| (on_line(x1, y1, x2, y2, c) && abs(c.0 - x1) >= s.0 && abs(c.1 - y1) >= s.1) implies w.contains(c) by {
            let ci = abs(c.0 - x1);
            let cj = abs(c.1 - y1);
            {
                if ci == s.0 && cj == s.1 {
                    assert(c == here);
                    assert(w[0] == c);
                } else {
                    lemma_step_skips_none(x1, y1, x2, y2, s, ci, cj);
                    assert(rest.contains(c));
                    let k = choose|k: int| 0 <= k < rest.len() && rest[k] == c;
                    assert(w[k + 1] == c);
                }
            }
        }
    }
}

/// The cells of a walk are exactly the cells on its line.
proof fn lemma_line_cells(x1: int, y1: int, x2: int, y2: int)
    ensures
        forall|c: (int, int)| line_cells(x1, y1, x2, y2).contains(c) <==> on_line(x1, y1, x2, y2, c),
{
    lemma_walk_path(x1, y1, x2, y2, (0, 0), walk_bound(x1, y1, x2, y2) as nat);
}

/// Whether `b` is one unit step from `a` toward `(x2, y2)` from `(x1, y1)`,
/// in x or in y.
pub open spec fn unit_step(x1: int, y1: int, x2: int, y2: int, a: (int, int), b: (int, int)) -> bool {
    (b.0 == advance(a.0, x2 - x1 + a.0, 1) && b.1 == a.1 && a.0 != x2) || (b.0 == a.0 && b.1 == advance(
        a.1,
        y2 - y1 + a.1,
        1,
    ) && a.1 != y2)
}

proof fn lemma_walk_shape(x1: int, y1: int, x2: int, y2: int, s: WalkState, fuel: nat)
    requires
        walk_ok(x1, y1, x2, y2, s),
        fuel >= walk_bound(x1, y1, x2, y2) - s.0 - s.1,
    ensures
        ({
            let w = walk_from(x1, y1, x2, y2, s, fuel);
            &&& w.len() == walk_bound(x1, y1, x2, y2) - s.0 - s.1
            &&& w[0] == walk_cell(x1, y1, x2, y2, s)
            &&& w.last() == (x2, y2)
            &&& forall|k: int| 0 <= k < w.len() - 1 ==> unit_step(x1, y1, x2, y2, #[trigger] w[k], w[k + 1])
        }),
    decreases fuel,
{
    let w = walk_from(x1, y1, x2, y2, s, fuel);
    if !walk_done(x1, y1, x2, y2, s) {
        let t = walk_step(x1, y1, x2, y2, s);
        lemma_walk_shape(x1, y1, x2, y2, t, (fuel - 1) as nat);
        let rest = walk_from(x1, y1, x2, y2, t, (fuel - 1) as nat);
        assert(w == seq![walk_cell(x1, y1, x2, y2, s)] + rest);
        assert forall|k: int| 0 <= k < w.len() - 1 implies unit_step(x1, y1, x2, y2, #[trigger] w[k], w[k + 1]) by {
            if k > 0 {
                assert(w[k] == rest[k - 1] && w[k + 1] == rest[k]);
            } else {
                assert(w[1] == rest[0]);
            }
        }
    }
}

/// The cells of a walk run from `(x1, y1)` to `(x2, y2)`, one for each of
/// the `|dx| + |dy|` unit steps plus the start, each step moving one cell
/// toward `(x2, y2)` in x or in y: no cell is skipped.
pub proof fn lemma_line_cells_shape(x1: int, y1: int, x2: int, y2: int)
    ensures
        ({
            let w = line_cells(x1, y1, x2, y2);
            &&& w.len() == abs(x2 - x1) + abs(y2 - y1) + 1
            &&& w[0] == (x1, y1)
            &&& w.last() == (x2, y2)
            &&& forall|k: int| 0 <= k < w.len() - 1 ==> unit_step(x1, y1, x2, y2, #[trigger] w[k], w[k + 1])
        }),
{
    lemma_walk_shape(x1, y1, x2, y2, (0, 0), walk_bound(x1, y1, x2, y2) as nat);
}

/// Drawing a segment from either end covers the same cells.
pub proof fn lemma_walk_reversible(x1: int, y1: int, x2: int, y2: int)
    ensures
        line_cells(x1, y1, x2, y2).to_set() == line_cells(x2, y2, x1, y1).to_set(),
{
    lemma_line_cells(x1, y1, x2, y2);
    lemma_line_cells(x2, y2, x1, y1);
    let (fwd, back) = (line_cells(x1, y1, x2, y2), line_cells(x2, y2, x1, y1));
    assert forall|c: (int, int)| fwd.to_set().contains(c) <==> back.to_set().contains(c) by {
        assert(fwd.to_set().contains(c) == fwd.contains(c));
        assert(back.to_set().contains(c) == back.contains(c));
        if fwd.contains(c) {
            assert(on_line(x1, y1, x2, y2, c));
            lemma_on_line_reverse(x1, y1, x2, y2, c);
            assert(back.contains(c));
        }
        if back.contains(c) {
            assert(on_line(x2, y2, x1, y1, c));
            lemma_on_line_reverse(x2, y2, x1, y1, c);
            assert(fwd.contains(c));
        }
    }
    assert(fwd.to_set() =~= back.to_set());
}
} // verus!
