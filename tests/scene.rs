use term3d::line::Line3d;
use term3d::point::{Angle, Point3d, UNIT};
use term3d::procedural::{generate_map, generate_shape_height_map, grow_map, HeightDraws, shapes_from_map, MAP_HEIGHT, MAP_SPACING, MAP_WIDTH, MAX_STEP, TERRAIN_BORDER};
use term3d::projection::{sort_by_farthest, Camera, Orientation, Shape3d};

fn camera_at_origin() -> Camera {
    Camera {
        pos: Point3d { x: 0, y: 0, z: 0 },
        rot: Orientation { x: Angle::zero(), y: Angle::zero(), z: Angle::zero() },
    }
}

/// A degenerate line whose centroid lies `d` world units along z.
fn line_at(d: i64, character: u8) -> Shape3d {
    let p = Point3d { x: 0, y: 0, z: d * UNIT };
    Shape3d::Line(Line3d { p1: p, p2: p, character })
}

fn characters(shapes: &[Shape3d]) -> Vec<u8> {
    shapes
        .iter()
        .map(|s| match s {
            Shape3d::Line(l) => l.character,
            Shape3d::Triangle(t) => t.fill,
        })
        .collect()
}

#[test]
fn sort_puts_farthest_first() {
    let mut shapes = vec![line_at(50, b'a'), line_at(10, b'b'), line_at(30, b'c')];
    sort_by_farthest(&mut shapes, &camera_at_origin());
    assert_eq!(characters(&shapes), vec![b'a', b'c', b'b']);
}

#[test]
fn sort_keeps_order_of_equal_distances() {
    let mut shapes = vec![line_at(10, b'a'), line_at(30, b'b'), line_at(10, b'c'), line_at(30, b'd'), line_at(-30, b'e')];
    sort_by_farthest(&mut shapes, &camera_at_origin());
    assert_eq!(characters(&shapes), vec![b'b', b'd', b'e', b'a', b'c']);
}

#[test]
fn sort_of_empty_and_single() {
    let mut none: Vec<Shape3d> = vec![];
    sort_by_farthest(&mut none, &camera_at_origin());
    assert!(none.is_empty());
    let mut one = vec![line_at(5, b'z')];
    sort_by_farthest(&mut one, &camera_at_origin());
    assert_eq!(characters(&one), vec![b'z']);
}

#[test]
fn terrain_of_a_flat_map() {
    let mut map = vec![0i32; MAP_WIDTH * MAP_HEIGHT];
    map[MAP_WIDTH + 1] = 7;
    let shapes = shapes_from_map(b'-', &map);
    assert_eq!(shapes.len(), 2 * (MAP_WIDTH - 1) * (MAP_HEIGHT - 1));
    let s = MAP_SPACING * UNIT;
    match (shapes[0], shapes[1]) {
        (Shape3d::Triangle(a), Shape3d::Triangle(b)) => {
            assert_eq!(a.points, [
                Point3d { x: 0, y: 0, z: 0 },
                Point3d { x: s, y: 0, z: 0 },
                Point3d { x: 0, y: 0, z: s },
            ]);
            assert_eq!(b.points, [
                Point3d { x: s, y: 7 * UNIT, z: s },
                Point3d { x: s, y: 0, z: 0 },
                Point3d { x: 0, y: 0, z: s },
            ]);
            assert_eq!(a.fill, b'-');
            assert_eq!(a.border, Some(TERRAIN_BORDER));
        },
        _ => panic!("terrain holds only triangles"),
    }
}

#[test]
fn grown_map_is_full_and_smooth() {
    let mut map: Vec<Option<i32>> = vec![None; MAP_WIDTH * MAP_HEIGHT];
    let centre = (MAP_HEIGHT / 2) * MAP_WIDTH + MAP_WIDTH / 2;
    map[centre] = Some(0);
    generate_map((MAP_HEIGHT / 2) as i64, (MAP_WIDTH / 2) as i64, &mut map);
    assert!(map.iter().all(|c| c.is_some()));
    assert_eq!(map[centre], Some(0));
    for h in map.iter().flatten() {
        assert!(h.abs() <= MAX_STEP * (MAP_WIDTH * MAP_HEIGHT) as i32);
    }
}

#[test]
fn generated_terrain_has_every_square() {
    let shapes = generate_shape_height_map(b'-');
    assert_eq!(shapes.len(), 2 * (MAP_WIDTH - 1) * (MAP_HEIGHT - 1));
    for s in &shapes {
        match s {
            Shape3d::Triangle(t) => assert_eq!(t.fill, b'-'),
            Shape3d::Line(_) => panic!("terrain holds only triangles"),
        }
    }
}

fn centre_map(h: i32) -> (Vec<Option<i32>>, usize) {
    let mut map: Vec<Option<i32>> = vec![None; MAP_WIDTH * MAP_HEIGHT];
    let centre = (MAP_HEIGHT / 2) * MAP_WIDTH + MAP_WIDTH / 2;
    map[centre] = Some(h);
    (map, centre)
}

#[test]
fn grown_map_from_a_high_start() {
    let (mut map, centre) = centre_map(1000);
    generate_map((MAP_HEIGHT / 2) as i64, (MAP_WIDTH / 2) as i64, &mut map);
    assert!(map.iter().all(|c| c.is_some()));
    assert_eq!(map[centre], Some(1000));
}

#[test]
fn given_draws_fix_the_map() {
    // With no swaps the order is east, north, south, west; steps of 4 are
    // height steps of 1, so heights count the steps from the centre.
    let (mut map, centre) = centre_map(0);
    let mut draws = HeightDraws::given(vec![], vec![4; MAP_WIDTH * MAP_HEIGHT]);
    grow_map((MAP_HEIGHT / 2) as i64, (MAP_WIDTH / 2) as i64, &mut map, &mut draws);
    for k in 1..15 {
        assert_eq!(map[centre + k], Some(k as i32));
    }
    let (mut again, _) = centre_map(0);
    let mut same = HeightDraws::given(vec![], vec![4; MAP_WIDTH * MAP_HEIGHT]);
    grow_map((MAP_HEIGHT / 2) as i64, (MAP_WIDTH / 2) as i64, &mut again, &mut same);
    assert_eq!(map, again);
    // Every cell but the centre is one above a neighbour.
    for r in 0..MAP_HEIGHT {
        for c in 0..MAP_WIDTH {
            let i = r * MAP_WIDTH + c;
            if i == centre {
                continue;
            }
            let h = map[i].unwrap();
            let mut n = vec![];
            if c > 0 { n.push(i - 1); }
            if c + 1 < MAP_WIDTH { n.push(i + 1); }
            if r > 0 { n.push(i - MAP_WIDTH); }
            if r + 1 < MAP_HEIGHT { n.push(i + MAP_WIDTH); }
            assert!(n.iter().any(|&j| map[j] == Some(h - 1)));
        }
    }
}

#[test]
fn given_steps_are_quarters_toward_zero() {
    let (mut map, centre) = centre_map(0);
    let mut draws = HeightDraws::given(vec![], vec![-128, 127, -3]);
    grow_map((MAP_HEIGHT / 2) as i64, (MAP_WIDTH / 2) as i64, &mut map, &mut draws);
    assert_eq!(map[centre + 1], Some(-32));
    assert_eq!(map[centre + 2], Some(-1));
    assert_eq!(map[centre + 3], Some(-1));
    assert_eq!(map[centre + 4], Some(-1));
}

#[test]
fn given_swaps_change_the_order() {
    // Swaps 3, 2, 1 leave west, east, north, south as they are, so the first
    // neighbour grown is the west one; from there, with the swaps used up,
    // the order is east, north, south, west, and east is already set.
    let (mut map, centre) = centre_map(0);
    let mut draws = HeightDraws::given(vec![3, 2, 1], vec![8, 4]);
    grow_map((MAP_HEIGHT / 2) as i64, (MAP_WIDTH / 2) as i64, &mut map, &mut draws);
    assert_eq!(map[centre - 1], Some(2));
    assert_eq!(map[centre - 1 - MAP_WIDTH], Some(3));
    assert_eq!(map[centre + 1], Some(3));
}
