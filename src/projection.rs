//! The camera, the scene's shapes, and far-to-near ordering.
use vstd::prelude::*;

use crate::display::{empty_frame, Frame, Screen, Shape2d};
use crate::fixed::lemma_mul_abs_le;
use crate::line::Line3d;
use crate::point::{Angle, Point3d, ROTATE_LIMIT, SCENE_LIMIT, TRIG_ONE};
use crate::triangle::Triangle3d;

verus! {

/// Per-axis rotation angles of the camera.
#[derive(Clone, Copy, Debug, PartialEq, Eq, Structural)]
pub struct Orientation {
    pub x: Angle,
    pub y: Angle,
    pub z: Angle,
}

impl Orientation {
    /// All three angles are valid.
    pub open spec fn wf(self) -> bool {
        self.x.wf() && self.y.wf() && self.z.wf()
    }
}

/// A camera: its world position and its rotation.
#[derive(Clone, Copy, Debug, PartialEq, Eq, Structural)]
pub struct Camera {
    pub pos: Point3d,
    pub rot: Orientation,
}

/// A scene primitive.
#[derive(Clone, Copy, Debug)]
pub enum Shape3d {
    Triangle(Triangle3d),
    Line(Line3d),
}

/// Largest coordinate magnitude that translation and ordering accept.
pub open spec fn shape_limit() -> int {
    ROTATE_LIMIT as int
}

/// `p` moved by `(x, y, z)`.
pub open spec fn moved(p: Point3d, x: int, y: int, z: int) -> Point3d {
    Point3d { x: (p.x + x) as i64, y: (p.y + y) as i64, z: (p.z + z) as i64 }
}

/// Squared distance between two points.
pub open spec fn dist2(p: Point3d, q: Point3d) -> int {
    (p.x - q.x) * (p.x - q.x) + (p.y - q.y) * (p.y - q.y) + (p.z - q.z) * (p.z - q.z)
}

/// Squared distance between two points.
pub fn distance_squared(p1: &Point3d, p2: &Point3d) -> (r: i128)
    requires
        p1.within(ROTATE_LIMIT as int),
        p2.within(ROTATE_LIMIT as int),
    ensures
        r == dist2(*p1, *p2),
{
    let dx: i128 = p1.x as i128 - p2.x as i128;
    let dy: i128 = p1.y as i128 - p2.y as i128;
    let dz: i128 = p1.z as i128 - p2.z as i128;
    proof {
        let b = 2 * ROTATE_LIMIT as int;
        lemma_mul_abs_le(dx as int, b, dx as int, b);
        lemma_mul_abs_le(dy as int, b, dy as int, b);
        lemma_mul_abs_le(dz as int, b, dz as int, b);
    }
    dx * dx + dy * dy + dz * dz
}

impl Shape3d {
    /// Every point of the shape is within `b`.
    pub open spec fn within(self, b: int) -> bool {
        match self {
            Shape3d::Triangle(t) => t.points[0].within(b) && t.points[1].within(b) && t.points[2].within(b),
            Shape3d::Line(l) => l.p1.within(b) && l.p2.within(b),
        }
    }

    /// The mean of the shape's points, each coordinate rounded down.
    pub open spec fn centroid(self) -> Point3d {
        match self {
            Shape3d::Triangle(t) => Point3d {
                x: ((t.points[0].x + t.points[1].x + t.points[2].x) / 3) as i64,
                y: ((t.points[0].y + t.points[1].y + t.points[2].y) / 3) as i64,
                z: ((t.points[0].z + t.points[1].z + t.points[2].z) / 3) as i64,
            },
            Shape3d::Line(l) => Point3d {
                x: ((l.p1.x + l.p2.x) / 2) as i64,
                y: ((l.p1.y + l.p2.y) / 2) as i64,
                z: ((l.p1.z + l.p2.z) / 2) as i64,
            },
        }
    }

    /// Squared distance from `p` to the shape's centroid.
    pub open spec fn distance_key(self, p: Point3d) -> int {
        dist2(self.centroid(), p)
    }

    /// The shape moved by `(x, y, z)`.
    pub open spec fn translated(self, x: int, y: int, z: int) -> Shape3d {
        match self {
            Shape3d::Triangle(t) => Shape3d::Triangle(
                Triangle3d {
                    points: [moved(t.points[0], x, y, z), moved(t.points[1], x, y, z), moved(t.points[2], x, y, z)],
                    fill: t.fill,
                    border: t.border,
                },
            ),
            Shape3d::Line(l) => Shape3d::Line(
                Line3d { p1: moved(l.p1, x, y, z), p2: moved(l.p2, x, y, z), character: l.character },
            ),
        }
    }

    /// Moves every point of the shape by `(x, y, z)`.
    pub fn translate(&mut self, x: i64, y: i64, z: i64)
        requires
            old(self).within(shape_limit()),
            -shape_limit() <= x <= shape_limit(),
            -shape_limit() <= y <= shape_limit(),
            -shape_limit() <= z <= shape_limit(),
        ensures
            *final(self) == old(self).translated(x as int, y as int, z as int),
    {
        match self {
            Shape3d::Triangle(t) => {
                let p = t.points;
                t.points = [
                    Point3d { x: p[0].x + x, y: p[0].y + y, z: p[0].z + z },
                    Point3d { x: p[1].x + x, y: p[1].y + y, z: p[1].z + z },
                    Point3d { x: p[2].x + x, y: p[2].y + y, z: p[2].z + z },
                ];
            },
            Shape3d::Line(l) => {
                l.p1 = Point3d { x: l.p1.x + x, y: l.p1.y + y, z: l.p1.z + z };
                l.p2 = Point3d { x: l.p2.x + x, y: l.p2.y + y, z: l.p2.z + z };
            },
        }
    }
}

/// Squared distance from `p` to the centroid of `s`.
fn shape_distance(s: &Shape3d, p: &Point3d) -> (r: i128)
    requires
        s.within(shape_limit()),
        p.within(shape_limit()),
    ensures
        r == s.distance_key(*p),
{
    match s {
        Shape3d::Triangle(t) => distance_squared(&t.center(), p),
        Shape3d::Line(l) => distance_squared(&l.center(), p),
    }
}

/// Every shape of `s` is within `shape_limit()`.
pub open spec fn all_within(s: Seq<Shape3d>) -> bool {
    forall|k: int| 0 <= k < s.len() ==> (#[trigger] s[k]).within(shape_limit())
}

/// The shapes of `s` are ordered farthest from `pos` first.
pub open spec fn farthest_first(s: Seq<Shape3d>, pos: Point3d) -> bool {
    forall|a: int, b: int| 0 <= a < b < s.len() ==> (#[trigger] s[a]).distance_key(pos) >= (#[trigger] s[b]).distance_key(pos)
}

/// `new` holds the shapes of `old` reordered: `new[k] == old[perm[k]]`,
/// and shapes at equal distance from `pos` keep their relative order.
pub open spec fn stable_reorder(new: Seq<Shape3d>, old: Seq<Shape3d>, perm: Seq<int>, pos: Point3d) -> bool {
    &&& new.len() == old.len()
    &&& perm.len() == old.len()
    &&& forall|k: int| 0 <= k < new.len() ==> 0 <= #[trigger] perm[k] < new.len() && new[k] == old[perm[k]]
    &&& forall|a: int, b: int| 0 <= a < b < new.len() ==> #[trigger] perm[a] != #[trigger] perm[b]
    &&& forall|a: int, b: int|
        0 <= a < b < new.len() && (#[trigger] new[a]).distance_key(pos) == (#[trigger] new[b]).distance_key(pos)
            ==> perm[a] < perm[b]
}

/// Orders the shapes by distance from the camera to their centroids,
/// farthest first, by a stable insertion sort: shapes at equal distance keep
/// their relative order.
pub fn sort_by_farthest(vector: &mut Vec<Shape3d>, camera: &Camera)
    requires
        all_within(old(vector)@),
        camera.pos.within(shape_limit()),
    ensures
        farthest_first(final(vector)@, camera.pos),
        exists|perm: Seq<int>| stable_reorder(final(vector)@, old(vector)@, perm, camera.pos),
{
    let n = vector.len();
    let ghost orig = vector@;
    let ghost pos = camera.pos;
    let ghost mut perm: Seq<int> = Seq::new(n as nat, |k: int| k);
    if n <= 1 {
        assert(stable_reorder(vector@, orig, perm, pos));
        return;
    }
    let mut i: usize = 1;
    while i < n
        invariant
            1 <= i <= n,
            n == orig.len(),
            pos == camera.pos,
            camera.pos.within(shape_limit()),
            vector@.len() == n,
            all_within(vector@),
            stable_reorder(vector@, orig, perm, pos),
            forall|k: int| i <= k < n ==> #[trigger] perm[k] == k,
            forall|k: int| 0 <= k < i ==> #[trigger] perm[k] < i,
            forall|a: int, b: int|
                0 <= a < b < i ==> (#[trigger] vector@[a]).distance_key(pos) >= (#[trigger] vector@[b]).distance_key(pos),
        decreases n - i,
    {
        let mut p: usize = i;
        let d = shape_distance(&vector[i], &camera.pos);
        while p != 0 && d > shape_distance(&vector[p - 1], &camera.pos)
            invariant
                0 <= p <= i < n,
                n == orig.len(),
                pos == camera.pos,
                camera.pos.within(shape_limit()),
                vector@.len() == n,
                all_within(vector@),
                stable_reorder(vector@, orig, perm, pos),
                forall|k: int| i < k < n ==> #[trigger] perm[k] == k,
                forall|k: int| 0 <= k <= i ==> #[trigger] perm[k] <= i,
                perm[p as int] == i,
                vector@[p as int].distance_key(pos) == d,
                forall|a: int, b: int|
                    0 <= a < b <= i && a != p && b != p ==> (#[trigger] vector@[a]).distance_key(pos) >= (
                    #[trigger] vector@[b]).distance_key(pos),
                forall|b: int| p < b <= i ==> (#[trigger] vector@[b]).distance_key(pos) < d,
            decreases p,
        {
            let moving = vector[p];
            let other = vector[p - 1];
            let ghost (old_v, old_perm) = (vector@, perm);
            vector.set(p, other);
            vector.set(p - 1, moving);
            proof {
                perm = old_perm.update(p as int, old_perm[p - 1]).update(p - 1, old_perm[p as int]);
                assert(vector@ == old_v.update(p as int, old_v[p - 1]).update(p - 1, old_v[p as int]));
                assert forall|a: int, b: int|
                    0 <= a < b < n && (#[trigger] vector@[a]).distance_key(pos) == (#[trigger] vector@[b]).distance_key(pos)
                        implies perm[a] < perm[b] by {
                    if a == p - 1 && b == p {
                    } else if a == p - 1 {
                        assert(perm[a] == i);
                    } else if b == p - 1 {
                        assert(perm[b] == i);
                        assert(old_perm[a] <= i);
                    } else if a == p {
                        assert(old_v[b].distance_key(pos) == old_v[p - 1].distance_key(pos));
                    } else if b == p {
                        assert(old_v[a].distance_key(pos) == old_v[p - 1].distance_key(pos));
                    } else {
                        assert(old_v[a] == vector@[a] && old_v[b] == vector@[b]);
                    }
                }
            }
            p -= 1;
        }
        i += 1;
    }
}

/// Largest coordinate magnitude of a shape or camera position that a frame
/// accepts (room for turning the world and then projecting it).
pub const FRAME_LIMIT: i64 = 0x10_0000_0000;

/// The camera a frame projects through: the camera's position and pitch
/// (`rot.x`), no yaw, no roll.
pub open spec fn frame_camera(cam: Camera) -> Camera {
    Camera {
        pos: cam.pos,
        rot: Orientation { x: Angle { cos: TRIG_ONE, sin: 0 }, y: cam.rot.x, z: Angle { cos: TRIG_ONE, sin: 0 } },
    }
}

/// `p` turned about the camera by its per-frame yaw (`rot.y`) then roll
/// (`rot.z`).
pub open spec fn world_turned(p: Point3d, cam: Camera) -> Point3d {
    p.turned_y(cam.pos, cam.rot.y).turned_z(cam.pos, cam.rot.z)
}

/// Every point of `s` turned by `world_turned`.
pub open spec fn shape_turned(s: Shape3d, cam: Camera) -> Shape3d {
    match s {
        Shape3d::Triangle(t) => Shape3d::Triangle(
            Triangle3d {
                points: [world_turned(t.points[0], cam), world_turned(t.points[1], cam), world_turned(t.points[2], cam)],
                fill: t.fill,
                border: t.border,
            },
        ),
        Shape3d::Line(l) => Shape3d::Line(
            Line3d { p1: world_turned(l.p1, cam), p2: world_turned(l.p2, cam), character: l.character },
        ),
    }
}

/// The frame after drawing `s` through `frame_camera(cam)`: a triangle's
/// fill, then its border; a line.
pub open spec fn shape_drawn(f: Frame, s: Shape3d, cam: Camera) -> Frame {
    match s {
        Shape3d::Triangle(t) => {
            let t2 = t.projected(frame_camera(cam));
            t2.bordered(t2.drawn(f))
        },
        Shape3d::Line(l) => l.projected(frame_camera(cam)).drawn(f),
    }
}

/// The frame after drawing `shapes[..n]` in order.
pub open spec fn shapes_drawn(f: Frame, shapes: Seq<Shape3d>, cam: Camera, n: int) -> Frame
    decreases n,
{
    if n <= 0 {
        f
    } else {
        shape_drawn(shapes_drawn(f, shapes, cam, n - 1), shapes[n - 1], cam)
    }
}

proof fn lemma_shapes_drawn_prefix(f: Frame, a: Seq<Shape3d>, b: Seq<Shape3d>, cam: Camera, n: int)
    requires
        n <= a.len(),
        n <= b.len(),
        forall|j: int| 0 <= j < n ==> a[j] == b[j],
    ensures
        shapes_drawn(f, a, cam, n) == shapes_drawn(f, b, cam, n),
    decreases n,
{
    if n > 0 {
        lemma_shapes_drawn_prefix(f, a, b, cam, n - 1);
    }
}

/// Turns a shape about the camera by its per-frame yaw then roll.
fn turn_shape(s: &mut Shape3d, camera: &Camera)
    requires
        old(s).within(FRAME_LIMIT as int),
        camera.pos.within(FRAME_LIMIT as int),
        camera.rot.wf(),
    ensures
        *final(s) == shape_turned(*old(s), *camera),
        final(s).within(SCENE_LIMIT as int),
{
    match s {
        Shape3d::Triangle(t) => {
            let p0 = world_turn(&t.points[0], camera);
            let p1 = world_turn(&t.points[1], camera);
            let p2 = world_turn(&t.points[2], camera);
            *t = Triangle3d { points: [p0, p1, p2], fill: t.fill, border: t.border };
        },
        Shape3d::Line(l) => {
            let p1 = world_turn(&l.p1, camera);
            let p2 = world_turn(&l.p2, camera);
            *l = Line3d { p1, p2, character: l.character };
        },
    }
}

/// `p` turned about the camera by its per-frame yaw then roll.
#[verifier::rlimit(40)]
fn world_turn(p: &Point3d, camera: &Camera) -> (r: Point3d)
    requires
        p.within(FRAME_LIMIT as int),
        camera.pos.within(FRAME_LIMIT as int),
        camera.rot.wf(),
    ensures
        r == world_turned(*p, *camera),
        r.within(SCENE_LIMIT as int),
{
    let a = p.rotate_y(&camera.pos, &camera.rot.y);
    assert(a.within(6 * FRAME_LIMIT));
    let b = a.rotate_z(&camera.pos, &camera.rot.z);
    assert(b.within(20 * FRAME_LIMIT));
    assert(b == p.turned_y(camera.pos, camera.rot.y).turned_z(camera.pos, camera.rot.z));
    b
}

/// Renders one frame: turns every shape in place about the camera by the
/// camera's per-frame yaw (`rot.y`) then roll (`rot.z`), and draws it, in
/// list order, onto a fresh screen through the camera's position and pitch
/// (`rot.x`); triangles get their fill, then their border.
pub fn render_shapes(shapes: &mut Vec<Shape3d>, camera: &Camera) -> (screen: Screen)
    requires
        forall|k: int| 0 <= k < old(shapes)@.len() ==> (#[trigger] old(shapes)@[k]).within(FRAME_LIMIT as int),
        camera.pos.within(FRAME_LIMIT as int),
        camera.rot.wf(),
    ensures
        final(shapes)@.len() == old(shapes)@.len(),
        forall|k: int| 0 <= k < final(shapes)@.len() ==> #[trigger] final(shapes)@[k] == shape_turned(old(shapes)@[k], *camera),
        screen.wf(),
        screen@ == shapes_drawn(empty_frame(), final(shapes)@, *camera, final(shapes)@.len() as int),
{
    let mut screen = Screen::new();
    let frame_cam = Camera {
        pos: camera.pos,
        rot: Orientation { x: Angle::zero(), y: camera.rot.x, z: Angle::zero() },
    };
    let ghost start = shapes@;
    let mut k: usize = 0;
    while k < shapes.len()
        invariant
            k <= shapes@.len(),
            shapes@.len() == start.len(),
            start == old(shapes)@,
            frame_cam == frame_camera(*camera),
            camera.pos.within(FRAME_LIMIT as int),
            camera.rot.wf(),
            forall|j: int| 0 <= j < start.len() ==> (#[trigger] start[j]).within(FRAME_LIMIT as int),
            forall|j: int| k <= j < shapes@.len() ==> #[trigger] shapes@[j] == start[j],
            forall|j: int| 0 <= j < k ==> #[trigger] shapes@[j] == shape_turned(start[j], *camera),
            screen.wf(),
            screen@ == shapes_drawn(empty_frame(), shapes@, *camera, k as int),
        decreases start.len() - k,
    {
        let mut s = shapes[k];
        turn_shape(&mut s, camera);
        let ghost before = shapes@;
        shapes.set(k, s);
        proof {
            lemma_shapes_drawn_prefix(empty_frame(), before, shapes@, *camera, k as int);
        }
        match s {
            Shape3d::Triangle(t) => {
                let t2 = t.project(&frame_cam);
                t2.add_to_grid(&mut screen);
                t2.add_border_to_grid(&mut screen);
            },
            Shape3d::Line(l) => {
                let l2 = l.project(&frame_cam);
                l2.add_to_grid(&mut screen);
            },
        }
        k += 1;
    }
    screen
}

} // verus!
