use term3d::line::{Line2d, Line3d};
use term3d::point::{Angle, Point2d, Point2dZ, Point3d, TRIG_ONE, UNIT};
use term3d::projection::{distance_squared, Camera, Orientation, Shape3d};
use term3d::triangle::{area_from_points, Triangle2d, Triangle3d};
use term3d::{HEIGHT, WIDTH};

fn pt(x: i64, y: i64, z: i64) -> Point3d {
    Point3d { x: x * UNIT, y: y * UNIT, z: z * UNIT }
}

fn angle_of(rad: f64) -> Angle {
    Angle {
        cos: (rad.cos() * TRIG_ONE as f64).round() as i64,
        sin: (rad.sin() * TRIG_ONE as f64).round() as i64,
    }
}

fn still_camera(pos: Point3d) -> Camera {
    Camera { pos, rot: Orientation { x: Angle::zero(), y: Angle::zero(), z: Angle::zero() } }
}

#[test]
fn rotate_by_zero_is_identity() {
    let p = Point3d { x: 12345, y: -678, z: 91011 };
    let c = Point3d { x: -5, y: 77, z: 1000 };
    let zero = Angle::zero();
    assert_eq!(p.rotate_x(&c, &zero), p);
    assert_eq!(p.rotate_y(&c, &zero), p);
    assert_eq!(p.rotate_z(&c, &zero), p);
    let mut q = p;
    q.rotate_y_mut(&c, &zero);
    assert_eq!(q, p);
}

#[test]
fn rotate_then_back_returns_point() {
    let p = pt(300, -120, 450);
    let c = pt(10, 20, 30);
    for rad in [0.3f64, 1.0, 2.5, -0.7] {
        let a = angle_of(rad);
        let back = a.negate();
        for q in [
            p.rotate_x(&c, &a).rotate_x(&c, &back),
            p.rotate_y(&c, &a).rotate_y(&c, &back),
            p.rotate_z(&c, &a).rotate_z(&c, &back),
        ] {
            for (got, want, off) in [(q.x, p.x, p.x - c.x), (q.y, p.y, p.y - c.y), (q.z, p.z, p.z - c.z)] {
                assert!(TRIG_ONE * (got - want).abs() <= 2 * off.abs() + 2 * TRIG_ONE);
            }
        }
    }
}

#[test]
fn rotate_quarter_turn_about_y() {
    let p = pt(10, 5, 0);
    let c = pt(0, 0, 0);
    let quarter = Angle { cos: 0, sin: TRIG_ONE };
    let q = p.rotate_y(&c, &quarter);
    // x' = x cos + z sin, z' = -x sin + z cos
    assert_eq!(q, Point3d { x: 0, y: 5 * UNIT, z: -10 * UNIT });
    let r = p.rotate_z(&c, &quarter);
    // x' = x cos + y sin, y' = -x sin + y cos
    assert_eq!(r, Point3d { x: 5 * UNIT, y: -10 * UNIT, z: 0 });
    let s = pt(0, 10, 5).rotate_x(&c, &quarter);
    // y' = y cos - z sin, z' = y sin + z cos
    assert_eq!(s, Point3d { x: 0, y: -5 * UNIT, z: 10 * UNIT });
}

#[test]
fn project_rejects_at_near_plane() {
    let cam = still_camera(pt(0, 0, 0));
    assert!(pt(0, 0, 110).project(&cam).is_none());
    assert!(pt(5, 5, -40).project(&cam).is_none());
    let just_past = Point3d { x: 0, y: 0, z: 110 * UNIT + 1 };
    assert!(just_past.project(&cam).is_some());
    let cam2 = still_camera(pt(0, 0, 50));
    assert!(pt(0, 0, 160).project(&cam2).is_none());
    assert!(pt(0, 0, 161).project(&cam2).is_some());
}

#[test]
fn project_formula() {
    let cam = still_camera(pt(0, 0, 0));
    let centre = pt(0, 0, 200).project(&cam).unwrap();
    assert_eq!(centre, Point2dZ { x: WIDTH as i32 / 2, y: HEIGHT as i32 / 2, z: 200 });
    // scale = 100 / (300 - 100) = 0.5
    let p = pt(30, -10, 300).project(&cam).unwrap();
    assert_eq!(p, Point2dZ { x: WIDTH as i32 / 2 + 15, y: HEIGHT as i32 / 2 - 5, z: 300 });
    // 100 * 3 / 200 = 1.5 rounds to 2
    let q = pt(3, 0, 300).project(&cam).unwrap();
    assert_eq!(q.x, WIDTH as i32 / 2 + 2);
    // -1.5 rounds away from zero to -2
    let r = pt(-3, 0, 300).project(&cam).unwrap();
    assert_eq!(r.x, WIDTH as i32 / 2 - 2);
}

#[test]
fn area_is_doubled_magnitude() {
    let (a, b, c) = (Point2d { x: 0, y: 0 }, Point2d { x: 10, y: 0 }, Point2d { x: 0, y: 10 });
    assert_eq!(area_from_points(&a, &b, &c), 100);
    assert_eq!(area_from_points(&a, &c, &b), 100);
    assert_eq!(area_from_points(&a, &a, &b), 0);
}

fn tri2(points: [(i32, i32, i32); 3], fill: u8, border: Option<u8>) -> Triangle2d {
    Triangle2d {
        points: [
            Point2dZ { x: points[0].0, y: points[0].1, z: points[0].2 },
            Point2dZ { x: points[1].0, y: points[1].1, z: points[1].2 },
            Point2dZ { x: points[2].0, y: points[2].1, z: points[2].2 },
        ],
        fill,
        border,
    }
}

#[test]
fn triangle_inside_test() {
    let t = tri2([(0, 0, 0), (10, 0, 0), (0, 10, 0)], b'#', None);
    assert!(t.is_inside(&Point2d { x: 2, y: 2 }));
    assert!(!t.is_inside(&Point2d { x: 9, y: 9 }));
    assert!(t.is_inside(&Point2d { x: 5, y: 5 }));
    assert!(t.is_inside(&Point2d { x: 0, y: 0 }));
    assert_eq!(t.area(), 100);
}

#[test]
fn triangle_scale_multiplies_corners() {
    let mut t = tri2([(1, 2, 7), (-3, 4, 8), (5, -6, 9)], b'#', Some(b'*'));
    t.scale(3);
    assert_eq!(t.points[0], Point2dZ { x: 3, y: 6, z: 7 });
    assert_eq!(t.points[1], Point2dZ { x: -9, y: 12, z: 8 });
    assert_eq!(t.points[2], Point2dZ { x: 15, y: -18, z: 9 });
    assert_eq!(t.border, Some(b'*'));
}

#[test]
fn point_helpers() {
    assert!(Point2d { x: 0, y: 0 }.is_in_screen());
    assert!(Point2d { x: WIDTH as i32 - 1, y: HEIGHT as i32 - 1 }.is_in_screen());
    assert!(!Point2d { x: WIDTH as i32, y: 0 }.is_in_screen());
    assert!(!Point2d { x: -1, y: -1 }.is_in_screen());
    assert_eq!(Point2dZ { x: 3, y: 4, z: 5 }.drop_z(), Point2d { x: 3, y: 4 });
}

#[test]
fn segment_crossing_screen_edge() {
    let crossing = Line2d { p1: Point2d { x: -5, y: 5 }, p2: Point2d { x: 5, y: 5 }, character: b'x' };
    assert!(crossing.is_in_screen());
    let inside = Line2d { p1: Point2d { x: 1, y: 1 }, p2: Point2d { x: 2, y: 2 }, character: b'x' };
    assert!(!inside.is_in_screen());
    let outside = Line2d { p1: Point2d { x: -5, y: -5 }, p2: Point2d { x: -1, y: -9 }, character: b'x' };
    assert!(!outside.is_in_screen());
}

#[test]
fn centers_and_distances() {
    let l = Line3d { p1: pt(0, 0, 0), p2: pt(10, -4, 7), character: b'x' };
    assert_eq!(l.center(), Point3d { x: 5 * UNIT, y: -2 * UNIT, z: 7 * UNIT / 2 });
    let odd = Line3d { p1: Point3d { x: 0, y: 0, z: 0 }, p2: Point3d { x: -3, y: 3, z: 1 }, character: b'x' };
    assert_eq!(odd.center(), Point3d { x: -2, y: 1, z: 0 });
    let t = Triangle3d { points: [pt(0, 0, 0), pt(3, 0, 0), pt(0, 6, 3)], fill: b'#', border: None };
    assert_eq!(t.center(), Point3d { x: UNIT, y: 2 * UNIT, z: UNIT });
    assert_eq!(distance_squared(&pt(1, 2, 3), &pt(4, 6, 3)), (25 * UNIT * UNIT) as i128);
}

#[test]
fn translate_moves_every_point() {
    let mut s = Shape3d::Line(Line3d { p1: pt(1, 2, 3), p2: pt(4, 5, 6), character: b'x' });
    s.translate(10, -20, 30);
    match s {
        Shape3d::Line(l) => {
            assert_eq!(l.p1, Point3d { x: UNIT + 10, y: 2 * UNIT - 20, z: 3 * UNIT + 30 });
            assert_eq!(l.p2, Point3d { x: 4 * UNIT + 10, y: 5 * UNIT - 20, z: 6 * UNIT + 30 });
        },
        Shape3d::Triangle(_) => panic!("shape changed kind"),
    }
    let mut t = Shape3d::Triangle(Triangle3d { points: [pt(0, 0, 0); 3], fill: b'#', border: None });
    t.translate(1, 2, 3);
    match t {
        Shape3d::Triangle(t) => {
            for p in t.points {
                assert_eq!(p, Point3d { x: 1, y: 2, z: 3 });
            }
        },
        Shape3d::Line(_) => panic!("shape changed kind"),
    }
}

#[test]
fn line_projection_uses_sentinel_when_an_end_is_near() {
    let cam = still_camera(pt(0, 0, 0));
    let l = Line3d { p1: pt(0, 0, 200), p2: pt(0, 0, 50), character: b'x' };
    let l2 = l.project(&cam);
    assert_eq!(l2.p1, Point2dZ { x: -1, y: -1, z: 0 });
    assert_eq!(l2.p2, Point2dZ { x: -1, y: -1, z: 0 });
    let far = Line3d { p1: pt(0, 0, 200), p2: pt(100, 0, 200), character: b'x' };
    let f2 = far.project(&cam);
    assert_eq!(f2.p1, Point2dZ { x: WIDTH as i32 / 2, y: HEIGHT as i32 / 2, z: 200 });
    assert_eq!(f2.p2, Point2dZ { x: WIDTH as i32 / 2 + 100, y: HEIGHT as i32 / 2, z: 200 });
    assert_eq!(f2.character, b'x');
}

#[test]
fn triangle_projection() {
    let cam = still_camera(pt(0, 0, 0));
    let t = Triangle3d { points: [pt(-60, -20, 200), pt(-56, -20, 200), pt(-60, -16, 200)], fill: b'#', border: Some(b'*') };
    let t2 = t.project(&cam);
    assert_eq!(t2.points[0], Point2dZ { x: 0, y: 0, z: 200 });
    assert_eq!(t2.points[1], Point2dZ { x: 4, y: 0, z: 200 });
    assert_eq!(t2.points[2], Point2dZ { x: 0, y: 4, z: 200 });
    assert_eq!(t2.border, Some(b'*'));
    let near = Triangle3d { points: [pt(0, 0, 200), pt(0, 0, 200), pt(0, 0, 100)], fill: b'#', border: None };
    for p in near.project(&cam).points {
        assert_eq!(p, Point2dZ { x: -1, y: -1, z: 0 });
    }
}

#[test]
fn triangle_rotations_move_every_corner() {
    let t = Triangle3d { points: [pt(10, 0, 0), pt(0, 10, 0), pt(0, 0, 10)], fill: b'#', border: Some(b'+') };
    let c = pt(0, 0, 0);
    let quarter = Angle { cos: 0, sin: TRIG_ONE };
    let r = t.rotate_y(&c, &quarter);
    assert_eq!(r.points[0], pt(0, 0, -10));
    assert_eq!(r.points[2], pt(10, 0, 0));
    let mut m = t;
    m.rotate_y_mut(&c, &quarter);
    assert_eq!(m.points, r.points);
    let mut z = t;
    z.rotate_z_mut(&c, &quarter);
    assert_eq!(z.points, t.rotate_z(&c, &quarter).points);
    let mut x = t;
    x.rotate_x_mut(&c, &quarter);
    assert_eq!(x.points, t.rotate_x(&c, &quarter).points);
    assert_eq!(x.fill, b'#');
    assert_eq!(x.border, Some(b'+'));
}

#[test]
fn line_rotations_move_both_ends() {
    let mut l = Line3d { p1: pt(10, 0, 0), p2: pt(0, 0, 10), character: b'x' };
    let c = pt(0, 0, 0);
    let quarter = Angle { cos: 0, sin: TRIG_ONE };
    l.rotate_y_mut(&c, &quarter);
    assert_eq!(l.p1, pt(0, 0, -10));
    assert_eq!(l.p2, pt(10, 0, 0));
    l.rotate_x_mut(&c, &Angle::zero());
    l.rotate_z_mut(&c, &Angle::zero());
    assert_eq!(l.p2, pt(10, 0, 0));
}
