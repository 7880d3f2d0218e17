use term3d::display::{Screen, Shape2d, DEPTH_BIAS, DEPTH_ONE};
use term3d::line::{Line2d, Line2dZ, Line3d};
use term3d::point::{Angle, Point2d, Point2dZ, Point3d, UNIT};
use term3d::projection::{render_shapes, Camera, Orientation, Shape3d};
use term3d::triangle::{Triangle2d, Triangle3d};
use term3d::{BLANK, HEIGHT, WIDTH};

fn p2z(x: i32, y: i32, z: i32) -> Point2dZ {
    Point2dZ { x, y, z }
}

fn written_cells(s: &Screen, c: u8) -> Vec<(usize, usize)> {
    let mut cells = Vec::new();
    for y in 0..HEIGHT {
        for x in 0..WIDTH {
            if s.char_at(x, y) == c {
                cells.push((x, y));
            }
        }
    }
    cells
}

fn flat_cells(x1: i32, y1: i32, x2: i32, y2: i32) -> Vec<(usize, usize)> {
    let mut s = Screen::new();
    let l = Line2d { p1: Point2d { x: x1, y: y1 }, p2: Point2d { x: x2, y: y2 }, character: b'o' };
    l.add_to_grid(&mut s);
    written_cells(&s, b'o')
}

#[test]
fn fresh_screen_is_blank() {
    let s = Screen::new();
    for y in 0..HEIGHT {
        assert_eq!(s.row(y), vec![BLANK; WIDTH]);
        for x in 0..WIDTH {
            assert_eq!(s.depth_at(x, y), None);
        }
    }
    let p = s.pixel_at(3, 4);
    assert_eq!(p.character, BLANK);
    assert_eq!(p.z, None);
}

#[test]
fn fill_rule_nearer_wins() {
    let mut s = Screen::new();
    s.write_fill_pixel(2, 3, 5 * DEPTH_ONE, b'a');
    s.write_fill_pixel(2, 3, 3 * DEPTH_ONE, b'b');
    assert_eq!(s.char_at(2, 3), b'b');
    assert_eq!(s.depth_at(2, 3), Some(3 * DEPTH_ONE));
    let mut t = Screen::new();
    t.write_fill_pixel(2, 3, 5 * DEPTH_ONE, b'a');
    t.write_fill_pixel(2, 3, 7 * DEPTH_ONE, b'b');
    assert_eq!(t.char_at(2, 3), b'a');
    assert_eq!(t.depth_at(2, 3), Some(5 * DEPTH_ONE));
    t.write_fill_pixel(2, 3, 5 * DEPTH_ONE, b'c');
    assert_eq!(t.char_at(2, 3), b'a');
    assert_eq!(t.pixel_at(2, 3).z, Some(5));
}

#[test]
fn line_rule_wins_within_bias() {
    let mut s = Screen::new();
    s.write_fill_pixel(1, 1, 12 * DEPTH_ONE, b'#');
    s.write_line_pixel(1, 1, 10 * DEPTH_ONE, b'-');
    assert_eq!(s.char_at(1, 1), b'-');
    let mut t = Screen::new();
    t.write_fill_pixel(1, 1, 3 * DEPTH_ONE, b'#');
    t.write_line_pixel(1, 1, 10 * DEPTH_ONE, b'-');
    assert_eq!(t.char_at(1, 1), b'#');
    assert_eq!(t.depth_at(1, 1), Some(3 * DEPTH_ONE));
    let mut u = Screen::new();
    u.write_fill_pixel(1, 1, 3 * DEPTH_ONE, b'#');
    u.write_line_pixel(1, 1, 3 * DEPTH_ONE + DEPTH_BIAS, b'-');
    assert_eq!(u.char_at(1, 1), b'-');
}

#[test]
fn writes_off_the_grid_are_ignored() {
    let mut s = Screen::new();
    s.write_fill_pixel(-1, 0, 0, b'#');
    s.write_line_pixel(WIDTH as i64, 0, 0, b'#');
    s.write_line_pixel(0, HEIGHT as i64, 0, b'#');
    assert!(written_cells(&s, b'#').is_empty());
}

#[test]
fn line_walk_cells() {
    // Both ends are written, one cell per unit step.
    assert_eq!(flat_cells(0, 0, 2, 1), vec![(0, 0), (1, 0), (1, 1), (2, 1)]);
    assert_eq!(flat_cells(2, 1, 0, 0), vec![(0, 0), (1, 0), (1, 1), (2, 1)]);
    assert_eq!(flat_cells(0, 0, 1, 0), vec![(0, 0), (1, 0)]);
    assert_eq!(flat_cells(3, 3, 3, 3), vec![(3, 3)]);
    assert_eq!(flat_cells(0, 0, 0, 3), vec![(0, 0), (0, 1), (0, 2), (0, 3)]);
}

#[test]
fn walks_cover_the_same_cells_both_ways() {
    let ends = [(0, 0), (7, 3), (2, 9), (11, 11), (5, 0), (0, 6), (13, 4), (3, 14), (9, 8)];
    for &(x1, y1) in &ends {
        for &(x2, y2) in &ends {
            let there = flat_cells(x1, y1, x2, y2);
            let back = flat_cells(x2, y2, x1, y1);
            assert_eq!(there, back, "({}, {}) to ({}, {})", x1, y1, x2, y2);
            let dx = (x2 - x1).unsigned_abs() as usize;
            let dy = (y2 - y1).unsigned_abs() as usize;
            assert_eq!(there.len(), dx + dy + 1);
        }
    }
}

#[test]
fn line_walk_off_screen_is_clipped() {
    let cells = flat_cells(-3, 2, 2, 2);
    assert_eq!(cells, vec![(0, 2), (1, 2), (2, 2)]);
}

#[test]
fn depth_line_interpolates() {
    let mut s = Screen::new();
    let l = Line2dZ { p1: p2z(0, 0, 0), p2: p2z(4, 0, 8), character: b'-' };
    l.add_to_grid(&mut s);
    // Four unit steps from depth 0 to depth 8, both ends written.
    for x in 0..5 {
        assert_eq!(s.depth_at(x, 0), Some(2 * DEPTH_ONE * x as i64));
        assert_eq!(s.char_at(x, 0), b'-');
    }
    assert_eq!(s.depth_at(5, 0), None);
}

#[test]
fn depth_line_end_cell_written_either_way() {
    let mut s = Screen::new();
    Line2dZ { p1: p2z(3, 3, 10), p2: p2z(6, 5, 10), character: b'a' }.add_to_grid(&mut s);
    let mut t = Screen::new();
    Line2dZ { p1: p2z(6, 5, 10), p2: p2z(3, 3, 10), character: b'a' }.add_to_grid(&mut t);
    assert_eq!(written_cells(&s, b'a'), written_cells(&t, b'a'));
    assert_eq!(s.char_at(6, 5), b'a');
    assert_eq!(t.char_at(3, 3), b'a');
}

#[test]
fn depth_line_loses_to_nearer_fill() {
    let mut s = Screen::new();
    let near = Triangle2d { points: [p2z(0, 0, 1), p2z(6, 0, 1), p2z(0, 6, 1)], fill: b'#', border: None };
    near.add_to_grid(&mut s);
    let l = Line2dZ { p1: p2z(0, 1, 50), p2: p2z(5, 1, 50), character: b'-' };
    l.add_to_grid(&mut s);
    assert_eq!(s.char_at(2, 1), b'#');
    let l2 = Line2dZ { p1: p2z(0, 1, 3), p2: p2z(5, 1, 3), character: b'-' };
    l2.add_to_grid(&mut s);
    assert_eq!(s.char_at(2, 1), b'-');
}

#[test]
fn flat_line_from_world_units() {
    let mut s = Screen::new();
    let l = Line3d {
        p1: Point3d { x: 2 * UNIT + 100, y: UNIT, z: 0 },
        p2: Point3d { x: 5 * UNIT, y: UNIT, z: 99 * UNIT },
        character: b'=',
    };
    l.add_to_grid(&mut s);
    assert_eq!(written_cells(&s, b'='), vec![(2, 1), (3, 1), (4, 1), (5, 1)]);
    assert_eq!(s.depth_at(2, 1), None);
}

#[test]
fn triangle_fills_fifteen_cells() {
    let mut s = Screen::new();
    let t = Triangle2d { points: [p2z(0, 0, 10), p2z(4, 0, 10), p2z(0, 4, 10)], fill: b'#', border: None };
    t.add_to_grid(&mut s);
    let cells = written_cells(&s, b'#');
    assert_eq!(cells.len(), 15);
    for (x, y) in &cells {
        assert!(x + y <= 4);
        assert_eq!(s.depth_at(*x, *y), Some(10 * DEPTH_ONE + DEPTH_BIAS));
    }
    for y in 0..HEIGHT {
        for x in 0..WIDTH {
            if x + y > 4 {
                assert_eq!(s.char_at(x, y), BLANK);
                assert_eq!(s.depth_at(x, y), None);
            }
        }
    }
}

#[test]
fn triangle_depth_blends_corners() {
    let mut s = Screen::new();
    let t = Triangle2d { points: [p2z(0, 0, 0), p2z(4, 0, 40), p2z(0, 4, 0)], fill: b'#', border: None };
    t.add_to_grid(&mut s);
    // At (2, 0) the weight of the corner at depth 40 is 8 of 16.
    assert_eq!(s.depth_at(2, 0), Some(20 * DEPTH_ONE + DEPTH_BIAS));
    assert_eq!(s.depth_at(0, 0), Some(DEPTH_BIAS));
}

#[test]
fn nearer_triangle_covers_farther() {
    let mut s = Screen::new();
    let far = Triangle2d { points: [p2z(0, 0, 50), p2z(8, 0, 50), p2z(0, 8, 50)], fill: b'f', border: None };
    let near = Triangle2d { points: [p2z(0, 0, 5), p2z(8, 0, 5), p2z(0, 8, 5)], fill: b'n', border: None };
    near.add_to_grid(&mut s);
    far.add_to_grid(&mut s);
    assert_eq!(s.char_at(1, 1), b'n');
    let mut t = Screen::new();
    far.add_to_grid(&mut t);
    near.add_to_grid(&mut t);
    assert_eq!(t.char_at(1, 1), b'n');
}

#[test]
fn zero_area_triangle_fills_nothing() {
    let mut s = Screen::new();
    let t = Triangle2d { points: [p2z(0, 0, 1), p2z(3, 3, 1), p2z(6, 6, 1)], fill: b'#', border: None };
    t.add_to_grid(&mut s);
    assert!(written_cells(&s, b'#').is_empty());
    let off = Triangle2d { points: [p2z(-1, -1, 0); 3], fill: b'#', border: Some(b'*') };
    off.add_to_grid(&mut s);
    off.add_border_to_grid(&mut s);
    assert!(written_cells(&s, b'#').is_empty());
    assert!(written_cells(&s, b'*').is_empty());
}

#[test]
fn border_draws_over_fill() {
    let mut s = Screen::new();
    let t = Triangle2d { points: [p2z(0, 0, 10), p2z(6, 0, 10), p2z(0, 6, 10)], fill: b'#', border: Some(b'*') };
    t.add_to_grid(&mut s);
    t.add_border_to_grid(&mut s);
    assert_eq!(s.char_at(0, 0), b'*');
    assert_eq!(s.char_at(3, 0), b'*');
    assert_eq!(s.char_at(0, 3), b'*');
    assert_eq!(s.char_at(1, 1), b'#');
    let plain = Triangle2d { points: t.points, fill: b'#', border: None };
    let mut u = Screen::new();
    plain.add_border_to_grid(&mut u);
    assert!(written_cells(&u, b'*').is_empty());
}

#[test]
fn render_one_triangle_end_to_end() {
    let camera = Camera {
        pos: Point3d { x: 0, y: 0, z: 0 },
        rot: Orientation { x: Angle::zero(), y: Angle::zero(), z: Angle::zero() },
    };
    let corner = |x: i64, y: i64| Point3d { x: x * UNIT, y: y * UNIT, z: 200 * UNIT };
    let mut shapes = vec![Shape3d::Triangle(Triangle3d {
        points: [corner(-60, -20), corner(-56, -20), corner(-60, -16)],
        fill: b'#',
        border: None,
    })];
    let before = shapes.clone();
    let s = render_shapes(&mut shapes, &camera);
    let cells = written_cells(&s, b'#');
    assert_eq!(cells.len(), 15);
    for y in 0..HEIGHT {
        for x in 0..WIDTH {
            if x + y > 4 {
                assert_eq!(s.char_at(x, y), BLANK);
                assert_eq!(s.depth_at(x, y), None);
            } else {
                assert_eq!(s.char_at(x, y), b'#');
            }
        }
    }
    match (before[0], shapes[0]) {
        (Shape3d::Triangle(a), Shape3d::Triangle(b)) => assert_eq!(a.points, b.points),
        _ => panic!("shape changed kind"),
    }
}

#[test]
fn render_draws_lines_and_turns_the_world() {
    let quarter = Angle { cos: 0, sin: term3d::point::TRIG_ONE };
    let camera = Camera {
        pos: Point3d { x: 0, y: 0, z: 0 },
        rot: Orientation { x: Angle::zero(), y: quarter, z: Angle::zero() },
    };
    let mut shapes = vec![Shape3d::Line(Line3d {
        p1: Point3d { x: -200 * UNIT, y: 0, z: 0 },
        p2: Point3d { x: -200 * UNIT, y: 0, z: 0 },
        character: b'x',
    })];
    let _ = render_shapes(&mut shapes, &camera);
    match shapes[0] {
        // x' = x cos + z sin, z' = -x sin + z cos
        Shape3d::Line(l) => assert_eq!(l.p1, Point3d { x: 0, y: 0, z: 200 * UNIT }),
        Shape3d::Triangle(_) => panic!("shape changed kind"),
    }
}
