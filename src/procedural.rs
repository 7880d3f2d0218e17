//! Terrain: a height map grown outward from its center by a random walk of
//! small steps, and the triangles that cover it.
use vstd::prelude::*;

use rand::seq::SliceRandom;

use crate::point::{Point3d, UNIT};
use crate::BLANK;
use crate::projection::Shape3d;
use crate::triangle::Triangle3d;

verus! {

/// Columns of the height map.
pub const MAP_WIDTH: usize = 30;

/// Rows of the height map.
pub const MAP_HEIGHT: usize = 30;

/// World units between neighbouring map points.
pub const MAP_SPACING: i64 = 150;

/// Largest drop in height from a cell to a neighbour grown from it; the
/// largest rise is one less, an `i8` divided by 4.
pub const MAX_STEP: i32 = 32;

/// Index of map row `y`, column `x`.
pub open spec fn map_index(y: int, x: int) -> int {
    y * MAP_WIDTH + x
}

/// Whether `(y, x)` lies on the map.
pub open spec fn in_map(y: int, x: int) -> bool {
    0 <= y < MAP_HEIGHT && 0 <= x < MAP_WIDTH
}

/// Whether the cell at `(y, x)` is set, or off the map.
pub open spec fn set_or_outside(m: Seq<Option<i32>>, y: int, x: int) -> bool {
    in_map(y, x) ==> m[map_index(y, x)].is_some()
}

/// The four neighbours of `(y, x)` that lie on the map are all set.
pub open spec fn neighbours_set(m: Seq<Option<i32>>, y: int, x: int) -> bool {
    &&& set_or_outside(m, y, x - 1)
    &&& set_or_outside(m, y, x + 1)
    &&& set_or_outside(m, y - 1, x)
    &&& set_or_outside(m, y + 1, x)
}

/// Number of unset cells.
pub open spec fn count_unset(m: Seq<Option<i32>>) -> nat
    decreases m.len(),
{
    if m.len() == 0 {
        0
    } else {
        count_unset(m.drop_last()) + if m.last().is_none() {
            1nat
        } else {
            0nat
        }
    }
}

/// Every cell set in `m` is set to the same value in `n`.
pub open spec fn grown(m: Seq<Option<i32>>, n: Seq<Option<i32>>) -> bool {
    &&& n.len() == m.len()
    &&& forall|i: int| 0 <= i < m.len() && (#[trigger] m[i]).is_some() ==> n[i] == m[i]
}

/// Every height is within `MAX_STEP` per set cell of zero.
pub open spec fn heights_bounded(m: Seq<Option<i32>>) -> bool {
    forall|i: int|
        0 <= i < m.len() && (#[trigger] m[i]).is_some() ==> -MAX_STEP * (m.len() - count_unset(m)) <= m[i].unwrap()
            <= MAX_STEP * (m.len() - count_unset(m))
}

/// Every set height leaves room for `MAX_STEP` more per unset cell before
/// leaving the range of `i32`.
pub open spec fn room_to_grow(m: Seq<Option<i32>>) -> bool {
    forall|i: int|
        0 <= i < m.len() && (#[trigger] m[i]).is_some() ==> -(i32::MAX - MAX_STEP * count_unset(m)) <= m[i].unwrap()
            <= i32::MAX - MAX_STEP * count_unset(m)
}

/// The cell at `(yy, xx)` and its neighbour at `(ny, nx)` are both set, and
/// the cell's height is the neighbour's plus a step in `[-MAX_STEP, MAX_STEP)`.
pub open spec fn step_from(m: Seq<Option<i32>>, yy: int, xx: int, ny: int, nx: int) -> bool {
    &&& in_map(ny, nx)
    &&& m[map_index(ny, nx)].is_some()
    &&& m[map_index(yy, xx)].is_some()
    &&& -MAX_STEP <= m[map_index(yy, xx)].unwrap() - m[map_index(ny, nx)].unwrap() < MAX_STEP
}

/// The cell at `(yy, xx)` holds the height of one of its four neighbours
/// plus a step.
pub open spec fn grew_from_neighbour(m: Seq<Option<i32>>, yy: int, xx: int) -> bool {
    step_from(m, yy, xx, yy, xx - 1) || step_from(m, yy, xx, yy, xx + 1) || step_from(m, yy, xx, yy - 1, xx)
        || step_from(m, yy, xx, yy + 1, xx)
}

/// Growing the map keeps a cell's relation to its neighbours.
proof fn lemma_grew_kept(m: Seq<Option<i32>>, n: Seq<Option<i32>>, yy: int, xx: int)
    requires
        m.len() == MAP_WIDTH * MAP_HEIGHT,
        grown(m, n),
        in_map(yy, xx),
        grew_from_neighbour(m, yy, xx),
    ensures
        grew_from_neighbour(n, yy, xx),
{
    assert(n[map_index(yy, xx)] == m[map_index(yy, xx)]);
    if step_from(m, yy, xx, yy, xx - 1) {
        assert(n[map_index(yy, xx - 1)] == m[map_index(yy, xx - 1)]);
    } else if step_from(m, yy, xx, yy, xx + 1) {
        assert(n[map_index(yy, xx + 1)] == m[map_index(yy, xx + 1)]);
    } else if step_from(m, yy, xx, yy - 1, xx) {
        assert(n[map_index(yy - 1, xx)] == m[map_index(yy - 1, xx)]);
    } else {
        assert(n[map_index(yy + 1, xx)] == m[map_index(yy + 1, xx)]);
    }
}

proof fn lemma_count_unset_bound(m: Seq<Option<i32>>)
    ensures
        count_unset(m) <= m.len(),
    decreases m.len(),
{
    if m.len() > 0 {
        lemma_count_unset_bound(m.drop_last());
    }
}

/// Setting an unset cell lowers the count by one.
proof fn lemma_count_unset_set(m: Seq<Option<i32>>, i: int, v: i32)
    requires
        0 <= i < m.len(),
        m[i].is_none(),
    ensures
        count_unset(m.update(i, Some(v))) + 1 == count_unset(m),
    decreases m.len(),
{
    let n = m.update(i, Some(v));
    if i == m.len() - 1 {
        assert(n.drop_last() =~= m.drop_last());
    } else {
        assert(n.drop_last() =~= m.drop_last().update(i, Some(v)));
        lemma_count_unset_set(m.drop_last(), i, v);
    }
}

/// Relies on rand's `SliceRandom::shuffle`, which permutes the slice in
/// place by swaps.
#[verifier::external_body]
fn shuffle_cells(v: &mut Vec<(i64, i64)>)
    ensures
        final(v)@.len() == old(v)@.len(),
        final(v)@.to_multiset() == old(v)@.to_multiset(),
{
    v.shuffle(&mut rand::rng());
}

/// Relies on `rand::random`: any value of `i8`.
#[verifier::external_body]
fn random_i8() -> i8 {
    rand::random::<i8>()
}

/// A height step: `b` divided by 4, rounded toward zero.
pub open spec fn quarter(b: i8) -> int {
    if b >= 0 {
        b / 4
    } else {
        -((-b) / 4)
    }
}

/// A height step: `b` divided by 4, rounded toward zero.
fn quarter_exec(b: i8) -> (r: i32)
    ensures
        r == quarter(b),
        -MAX_STEP <= r < MAX_STEP,
{
    let b = b as i32;
    if b >= 0 {
        b / 4
    } else {
        -((-b) / 4)
    }
}

/// Swaps two entries of `v`.
fn swap_cells(v: &mut Vec<(i64, i64)>, i: usize, j: usize)
    requires
        i < old(v)@.len(),
        j < old(v)@.len(),
    ensures
        final(v)@.len() == old(v)@.len(),
        final(v)@.to_multiset() == old(v)@.to_multiset(),
{
    broadcast use vstd::seq_lib::to_multiset_update, vstd::multiset::group_multiset_axioms;

    let ghost s0 = v@;
    let a = v[i];
    let b = v[j];
    v.set(i, b);
    let ghost s1 = v@;
    v.set(j, a);
    proof {
        assert(s1.to_multiset() == s0.to_multiset().insert(b).remove(a));
        assert(v@.to_multiset() == s1.to_multiset().insert(a).remove(s1[j as int]));
        vstd::seq_lib::to_multiset_contains(s0, a);
        vstd::seq_lib::to_multiset_contains(s0, b);
        assert(s0.contains(a) && s0.contains(b));
        if i == j {
            assert(v@ =~= s0);
        } else {
            assert(s1[j as int] == b);
            assert(v@.to_multiset() =~= s0.to_multiset());
        }
    }
}

/// Where the terrain's random choices come from: the random source, or
/// given values, for replaying a terrain.
pub struct HeightDraws {
    given: bool,
    swaps: Vec<u8>,
    steps: Vec<i8>,
    next_swap: usize,
    next_step: usize,
}

impl HeightDraws {
    /// Choices drawn from the random source.
    pub fn random() -> (r: HeightDraws) {
        HeightDraws { given: false, swaps: Vec::new(), steps: Vec::new(), next_swap: 0, next_step: 0 }
    }

    /// Given choices. Each visit order is made from the four neighbours in
    /// the order west, east, north, south by swapping position `i` with
    /// position `s % (i + 1)` for `i` = 3, 2, 1, taking `s` from `swaps` in
    /// turn; each height step is the next of `steps` divided by 4, rounded
    /// toward zero. Once a list runs out its values count as 0.
    pub fn given(swaps: Vec<u8>, steps: Vec<i8>) -> (r: HeightDraws) {
        HeightDraws { given: true, swaps, steps, next_swap: 0, next_step: 0 }
    }

    fn take_swap(&mut self) -> u8 {
        if self.next_swap < self.swaps.len() {
            let s = self.swaps[self.next_swap];
            self.next_swap = self.next_swap + 1;
            s
        } else {
            0
        }
    }

    /// Puts the four neighbours of a cell in visiting order.
    fn order(&mut self, v: &mut Vec<(i64, i64)>)
        requires
            old(v)@.len() == 4,
        ensures
            final(v)@.len() == 4,
            final(v)@.to_multiset() == old(v)@.to_multiset(),
    {
        if !self.given {
            shuffle_cells(v);
        } else {
            let mut i: usize = 3;
            while i > 0
                invariant
                    i <= 3,
                    v@.len() == 4,
                    v@.to_multiset() == old(v)@.to_multiset(),
                decreases i,
            {
                let s = self.take_swap() as usize;
                swap_cells(v, i, s % (i + 1));
                i = i - 1;
            }
        }
    }

    /// The next height step.
    fn step(&mut self) -> (r: i32)
        ensures
            -MAX_STEP <= r < MAX_STEP,
    {
        if !self.given {
            quarter_exec(random_i8())
        } else if self.next_step < self.steps.len() {
            let b = self.steps[self.next_step];
            self.next_step = self.next_step + 1;
            quarter_exec(b)
        } else {
            0
        }
    }
}

/// Grows the height map outward from the set cell `(y, x)`, with the choices
/// of `draws`: visits its four neighbours in the order drawn, and gives each
/// one still unset the height of `(y, x)` plus a drawn step before growing
/// from it in turn. Afterwards every neighbour of `(y, x)` is set, and so is
/// every neighbour of each cell this call set; each cell this call set holds
/// the height of one of its neighbours plus a step in `[-MAX_STEP, MAX_STEP)`.
pub fn grow_map(y: i64, x: i64, map: &mut Vec<Option<i32>>, draws: &mut HeightDraws)
    requires
        old(map)@.len() == MAP_WIDTH * MAP_HEIGHT,
        in_map(y as int, x as int),
        old(map)@[map_index(y as int, x as int)].is_some(),
        room_to_grow(old(map)@),
    ensures
        grown(old(map)@, final(map)@),
        room_to_grow(final(map)@),
        heights_bounded(old(map)@) ==> heights_bounded(final(map)@),
        count_unset(final(map)@) <= count_unset(old(map)@),
        neighbours_set(final(map)@, y as int, x as int),
        forall|yy: int, xx: int|
            in_map(yy, xx) && (#[trigger] final(map)@[map_index(yy, xx)]).is_some() && old(map)@[map_index(
                yy,
                xx,
            )].is_none() ==> neighbours_set(final(map)@, yy, xx) && grew_from_neighbour(final(map)@, yy, xx),
    decreases count_unset(old(map)@),
{
    let ghost entry = map@;
    let val = match map[y as usize * MAP_WIDTH + x as usize] {
        Some(v) => v,
        None => 0,
    };
    let (west, east, north, south) = ((y, x - 1), (y, x + 1), (y - 1, x), (y + 1, x));
    let mut adjacents: Vec<(i64, i64)> = vec![west, east, north, south];
    let ghost initial = adjacents@;
    proof {
        assert(initial[0] == west && initial[1] == east && initial[2] == north && initial[3] == south);
        vstd::seq_lib::to_multiset_contains(initial, west);
        vstd::seq_lib::to_multiset_contains(initial, east);
        vstd::seq_lib::to_multiset_contains(initial, north);
        vstd::seq_lib::to_multiset_contains(initial, south);
    }
    draws.order(&mut adjacents);
    proof {
        assert forall|j: int| 0 <= j < adjacents@.len() implies #[trigger] adjacents@[j] == west || adjacents@[j] == east
            || adjacents@[j] == north || adjacents@[j] == south by {
            let e = adjacents@[j];
            vstd::seq_lib::to_multiset_contains(adjacents@, e);
            vstd::seq_lib::to_multiset_contains(initial, e);
            assert(adjacents@.contains(e));
            let k = choose|k: int| 0 <= k < initial.len() && initial[k] == e;
        }
        vstd::seq_lib::to_multiset_contains(adjacents@, west);
        vstd::seq_lib::to_multiset_contains(adjacents@, east);
        vstd::seq_lib::to_multiset_contains(adjacents@, north);
        vstd::seq_lib::to_multiset_contains(adjacents@, south);
    }
    let mut k: usize = 0;
    while k < adjacents.len()
        invariant
            0 <= k <= adjacents@.len(),
            in_map(y as int, x as int),
            west == (y, (x - 1) as i64) && east == (y, (x + 1) as i64),
            north == ((y - 1) as i64, x) && south == ((y + 1) as i64, x),
            entry[map_index(y as int, x as int)] == Some(val),
            entry.len() == MAP_WIDTH * MAP_HEIGHT,
            entry == old(map)@,
            grown(entry, map@),
            room_to_grow(map@),
            heights_bounded(entry) ==> heights_bounded(map@),
            count_unset(map@) <= count_unset(entry),
            adjacents@.contains(west),
            adjacents@.contains(east),
            adjacents@.contains(north),
            adjacents@.contains(south),
            forall|j: int| 0 <= j < k ==> set_or_outside(map@, (#[trigger] adjacents@[j]).0 as int, adjacents@[j].1 as int),
            forall|j: int|
                0 <= j < adjacents@.len() ==> #[trigger] adjacents@[j] == west || adjacents@[j] == east || adjacents@[j]
                    == north || adjacents@[j] == south,
            forall|yy: int, xx: int|
                in_map(yy, xx) && (#[trigger] map@[map_index(yy, xx)]).is_some() && entry[map_index(yy, xx)].is_none()
                    ==> neighbours_set(map@, yy, xx) && grew_from_neighbour(map@, yy, xx),
        decreases adjacents@.len() - k,
    {
        let (ny, nx) = adjacents[k];
        let ghost loop_start = map@;
        if 0 <= nx && nx < MAP_WIDTH as i64 && 0 <= ny && ny < MAP_HEIGHT as i64 {
            let i = ny as usize * MAP_WIDTH + nx as usize;
            if map[i].is_none() {
                let ghost before = map@;
                let step = draws.step();
                proof {
                    lemma_count_unset_bound(before);
                    lemma_count_unset_set(before, i as int, 0);
                    assert(before[map_index(y as int, x as int)] == Some(val));
                }
                let h = val + step;
                map.set(i, Some(h));
                proof {
                    lemma_count_unset_set(before, i as int, h);
                    lemma_count_unset_bound(map@);
                    if entry[i as int].is_some() {
                        assert(before[i as int] == entry[i as int]);
                    }
                    assert(grown(entry, map@));
                    assert(count_unset(map@) < count_unset(entry));
                    assert forall|yy: int, xx: int|
                        in_map(yy, xx) && (#[trigger] map@[map_index(yy, xx)]).is_some() && entry[map_index(
                            yy,
                            xx,
                        )].is_none() && map_index(yy, xx) != i implies neighbours_set(map@, yy, xx) && grew_from_neighbour(map@, yy, xx) by {
                        assert(before[map_index(yy, xx)].is_some());
                        lemma_grew_kept(before, map@, yy, xx);
                    }
                    assert(grew_from_neighbour(map@, ny as int, nx as int));
                }
                let ghost middle = map@;
                grow_map(ny, nx, map, draws);
                proof {
                    assert forall|j: int| 0 <= j < entry.len() && (#[trigger] entry[j]).is_some() implies map@[j] == entry[j] by {
                        assert(middle[j] == entry[j]);
                    }
                    assert forall|j: int| 0 <= j < loop_start.len() && (#[trigger] loop_start[j]).is_some() implies map@[j] == loop_start[j] by {
                        assert(middle[j] == before[j]);
                    }
                    assert forall|yy: int, xx: int|
                        in_map(yy, xx) && (#[trigger] map@[map_index(yy, xx)]).is_some() && entry[map_index(
                            yy,
                            xx,
                        )].is_none() implies neighbours_set(map@, yy, xx) && grew_from_neighbour(map@, yy, xx) by {
                        if map_index(yy, xx) == i {
                            assert(yy == ny && xx == nx);
                            lemma_grew_kept(middle, map@, yy, xx);
                        } else if middle[map_index(yy, xx)].is_some() {
                            assert(neighbours_set(middle, yy, xx));
                            lemma_grew_kept(middle, map@, yy, xx);
                        }
                    }
                }
            }
        }
        proof {
            assert forall|j: int| 0 <= j < k + 1 implies set_or_outside(map@, (#[trigger] adjacents@[j]).0 as int, adjacents@[j].1 as int) by {
                let (jy, jx) = (adjacents@[j].0 as int, adjacents@[j].1 as int);
                if in_map(jy, jx) && j < k {
                    assert(loop_start[map_index(jy, jx)].is_some());
                }
            }
        }
        k += 1;
    }
    proof {
        let m = map@;
        let (a, b, c, d) = (west, east, north, south);
        let ja = choose|j: int| 0 <= j < adjacents@.len() && adjacents@[j] == a;
        let jb = choose|j: int| 0 <= j < adjacents@.len() && adjacents@[j] == b;
        let jc = choose|j: int| 0 <= j < adjacents@.len() && adjacents@[j] == c;
        let jd = choose|j: int| 0 <= j < adjacents@.len() && adjacents@[j] == d;
        assert(set_or_outside(m, adjacents@[ja].0 as int, adjacents@[ja].1 as int));
        assert(set_or_outside(m, adjacents@[jb].0 as int, adjacents@[jb].1 as int));
        assert(set_or_outside(m, adjacents@[jc].0 as int, adjacents@[jc].1 as int));
        assert(set_or_outside(m, adjacents@[jd].0 as int, adjacents@[jd].1 as int));
    }
}

/// Grows the height map outward from the set cell `(y, x)` with random
/// choices; see `grow_map`.
pub fn generate_map(y: i64, x: i64, map: &mut Vec<Option<i32>>)
    requires
        old(map)@.len() == MAP_WIDTH * MAP_HEIGHT,
        in_map(y as int, x as int),
        old(map)@[map_index(y as int, x as int)].is_some(),
        room_to_grow(old(map)@),
    ensures
        grown(old(map)@, final(map)@),
        room_to_grow(final(map)@),
        heights_bounded(old(map)@) ==> heights_bounded(final(map)@),
        count_unset(final(map)@) <= count_unset(old(map)@),
        neighbours_set(final(map)@, y as int, x as int),
        forall|yy: int, xx: int|
            in_map(yy, xx) && (#[trigger] final(map)@[map_index(yy, xx)]).is_some() && old(map)@[map_index(
                yy,
                xx,
            )].is_none() ==> neighbours_set(final(map)@, yy, xx) && grew_from_neighbour(final(map)@, yy, xx),
{
    let mut draws = HeightDraws::random();
    grow_map(y, x, map, &mut draws);
}

/// Every set cell has all its neighbours set.
pub open spec fn closed(m: Seq<Option<i32>>) -> bool {
    forall|yy: int, xx: int| in_map(yy, xx) && (#[trigger] m[map_index(yy, xx)]).is_some() ==> neighbours_set(m, yy, xx)
}

proof fn lemma_row_reach(m: Seq<Option<i32>>, y: int, x0: int, x: int)
    requires
        closed(m),
        in_map(y, x0),
        in_map(y, x),
        m[map_index(y, x0)].is_some(),
    ensures
        m[map_index(y, x)].is_some(),
    decreases if x >= x0 { x - x0 } else { x0 - x },
{
    if x != x0 {
        let x1 = if x > x0 { x - 1 } else { x + 1 };
        lemma_row_reach(m, y, x0, x1);
        assert(neighbours_set(m, y, x1));
    }
}

proof fn lemma_column_reach(m: Seq<Option<i32>>, y0: int, y: int, x: int)
    requires
        closed(m),
        in_map(y0, x),
        in_map(y, x),
        m[map_index(y0, x)].is_some(),
    ensures
        m[map_index(y, x)].is_some(),
    decreases if y >= y0 { y - y0 } else { y0 - y },
{
    if y != y0 {
        let y1 = if y > y0 { y - 1 } else { y + 1 };
        lemma_column_reach(m, y0, y1, x);
        assert(neighbours_set(m, y1, x));
    }
}

/// On a closed map one set cell makes every cell set.
proof fn lemma_closed_full(m: Seq<Option<i32>>, y0: int, x0: int)
    requires
        closed(m),
        in_map(y0, x0),
        m[map_index(y0, x0)].is_some(),
    ensures
        forall|y: int, x: int| in_map(y, x) ==> (#[trigger] m[map_index(y, x)]).is_some(),
{
    assert forall|y: int, x: int| in_map(y, x) implies (#[trigger] m[map_index(y, x)]).is_some() by {
        lemma_row_reach(m, y0, x0, x);
        lemma_column_reach(m, y0, y, x);
    }
}

/// Border character of terrain triangles.
pub const TERRAIN_BORDER: u8 = BLANK;

/// The world point of map row `r`, column `c`, with height `m[r][c]`.
pub open spec fn map_point(m: Seq<i32>, r: int, c: int) -> Point3d {
    Point3d {
        x: (c * MAP_SPACING * UNIT) as i64,
        y: (m[map_index(r, c)] * UNIT) as i64,
        z: (r * MAP_SPACING * UNIT) as i64,
    }
}

/// The triangle over the square at row `r`, column `c` that holds its
/// corner `(r, c)`.
pub open spec fn upper_triangle(m: Seq<i32>, r: int, c: int, fill: u8) -> Triangle3d {
    Triangle3d {
        points: [map_point(m, r, c), map_point(m, r, c + 1), map_point(m, r + 1, c)],
        fill,
        border: Some(TERRAIN_BORDER),
    }
}

/// The triangle over the square at row `r`, column `c` that holds its
/// corner `(r + 1, c + 1)`.
pub open spec fn lower_triangle(m: Seq<i32>, r: int, c: int, fill: u8) -> Triangle3d {
    Triangle3d {
        points: [map_point(m, r + 1, c + 1), map_point(m, r, c + 1), map_point(m, r + 1, c)],
        fill,
        border: Some(TERRAIN_BORDER),
    }
}

/// Position of the square at row `r`, column `c` in the terrain's list.
pub open spec fn square_index(r: int, c: int) -> int {
    r * (MAP_WIDTH - 1) + c
}

/// The terrain of height map `m`: two triangles per square, squares in row
/// order.
pub open spec fn is_terrain(shapes: Seq<Shape3d>, m: Seq<i32>, fill: u8) -> bool {
    &&& shapes.len() == 2 * (MAP_HEIGHT - 1) * (MAP_WIDTH - 1)
    &&& forall|r: int, c: int|
        0 <= r < MAP_HEIGHT - 1 && 0 <= c < MAP_WIDTH - 1 ==> shapes[2 * #[trigger] square_index(r, c)] == Shape3d::Triangle(
            upper_triangle(m, r, c, fill),
        ) && shapes[2 * square_index(r, c) + 1] == Shape3d::Triangle(lower_triangle(m, r, c, fill))
}

fn map_point_exec(m: &Vec<i32>, r: usize, c: usize) -> (p: Point3d)
    requires
        m@.len() == MAP_WIDTH * MAP_HEIGHT,
        r < MAP_HEIGHT,
        c < MAP_WIDTH,
    ensures
        p == map_point(m@, r as int, c as int),
{
    Point3d {
        x: c as i64 * MAP_SPACING * UNIT,
        y: m[r * MAP_WIDTH + c] as i64 * UNIT,
        z: r as i64 * MAP_SPACING * UNIT,
    }
}

/// Covers the height map with triangles: two per square between four
/// neighbouring map points, spaced `MAP_SPACING` apart, with the map's
/// heights as y.
pub fn shapes_from_map(fill: u8, map: &Vec<i32>) -> (r: Vec<Shape3d>)
    requires
        map@.len() == MAP_WIDTH * MAP_HEIGHT,
    ensures
        is_terrain(r@, map@, fill),
{
    let mut shapes: Vec<Shape3d> = Vec::new();
    let mut r: usize = 0;
    while r < MAP_HEIGHT - 1
        invariant
            map@.len() == MAP_WIDTH * MAP_HEIGHT,
            r <= MAP_HEIGHT - 1,
            shapes@.len() == 2 * square_index(r as int, 0),
            forall|rr: int, cc: int|
                0 <= rr < r && 0 <= cc < MAP_WIDTH - 1 ==> shapes@[2 * #[trigger] square_index(rr, cc)] == Shape3d::Triangle(
                    upper_triangle(map@, rr, cc, fill),
                ) && shapes@[2 * square_index(rr, cc) + 1] == Shape3d::Triangle(lower_triangle(map@, rr, cc, fill)),
        decreases MAP_HEIGHT - 1 - r,
    {
        let mut c: usize = 0;
        while c < MAP_WIDTH - 1
            invariant
                map@.len() == MAP_WIDTH * MAP_HEIGHT,
                r < MAP_HEIGHT - 1,
                c <= MAP_WIDTH - 1,
                shapes@.len() == 2 * square_index(r as int, c as int),
                forall|rr: int, cc: int|
                    ((0 <= rr < r && 0 <= cc < MAP_WIDTH - 1) || (rr == r && 0 <= cc < c)) ==> shapes@[2
                        * #[trigger] square_index(rr, cc)] == Shape3d::Triangle(upper_triangle(map@, rr, cc, fill))
                        && shapes@[2 * square_index(rr, cc) + 1] == Shape3d::Triangle(lower_triangle(map@, rr, cc, fill)),
            decreases MAP_WIDTH - 1 - c,
        {
            let t = Triangle3d {
                points: [map_point_exec(map, r, c), map_point_exec(map, r, c + 1), map_point_exec(map, r + 1, c)],
                fill,
                border: Some(TERRAIN_BORDER),
            };
            let t2 = Triangle3d {
                points: [map_point_exec(map, r + 1, c + 1), map_point_exec(map, r, c + 1), map_point_exec(map, r + 1, c)],
                fill,
                border: Some(TERRAIN_BORDER),
            };
            let ghost before = shapes@;
            shapes.push(Shape3d::Triangle(t));
            shapes.push(Shape3d::Triangle(t2));
            proof {
                assert forall|rr: int, cc: int|
                    ((0 <= rr < r && 0 <= cc < MAP_WIDTH - 1) || (rr == r && 0 <= cc < c + 1)) implies shapes@[2
                        * #[trigger] square_index(rr, cc)] == Shape3d::Triangle(upper_triangle(map@, rr, cc, fill))
                        && shapes@[2 * square_index(rr, cc) + 1] == Shape3d::Triangle(lower_triangle(map@, rr, cc, fill)) by {
                    if !(rr == r && cc == c) {
                        assert(square_index(rr, cc) < square_index(r as int, c as int)) by (nonlinear_arith)
                            requires
                                (0 <= rr < r && 0 <= cc < 29) || (rr == r && 0 <= cc < c),
                                square_index(rr, cc) == rr * 29 + cc,
                                square_index(r as int, c as int) == r * 29 + c;
                        assert(2 * square_index(rr, cc) + 1 < before.len());
                        assert(shapes@[2 * square_index(rr, cc)] == before[2 * square_index(rr, cc)]);
                        assert(shapes@[2 * square_index(rr, cc) + 1] == before[2 * square_index(rr, cc) + 1]);
                    }
                }
            }
            c += 1;
        }
        r += 1;
    }
    shapes
}

/// Row of the map's center.
pub open spec fn center_row() -> int {
    MAP_HEIGHT as int / 2
}

/// Column of the map's center.
pub open spec fn center_column() -> int {
    MAP_WIDTH as int / 2
}

/// After growing from the only set cell, the center, every cell is set.
proof fn lemma_grown_full(start: Seq<Option<i32>>, m: Seq<Option<i32>>)
    requires
        start.len() == MAP_WIDTH * MAP_HEIGHT,
        forall|k: int| 0 <= k < start.len() && k != map_index(center_row(), center_column()) ==> (#[trigger] start[k]).is_none(),
        grown(start, m),
        start[map_index(center_row(), center_column())].is_some(),
        neighbours_set(m, center_row(), center_column()),
        forall|yy: int, xx: int|
            in_map(yy, xx) && (#[trigger] m[map_index(yy, xx)]).is_some() && start[map_index(yy, xx)].is_none()
                ==> neighbours_set(m, yy, xx),
    ensures
        forall|y: int, x: int| in_map(y, x) ==> (#[trigger] m[map_index(y, x)]).is_some(),
{
    assert forall|yy: int, xx: int| in_map(yy, xx) && (#[trigger] m[map_index(yy, xx)]).is_some() implies neighbours_set(m, yy, xx) by {
        if !(yy == center_row() && xx == center_column()) {
            assert(map_index(yy, xx) != map_index(center_row(), center_column()));
            assert(start[map_index(yy, xx)].is_none());
        }
    }
    assert(m[map_index(center_row(), center_column())] == start[map_index(center_row(), center_column())]);
    lemma_closed_full(m, center_row(), center_column());
}

/// A height map with no cell set.
fn unset_map() -> (m: Vec<Option<i32>>)
    ensures
        m@.len() == MAP_WIDTH * MAP_HEIGHT,
        forall|k: int| 0 <= k < m@.len() ==> #[trigger] m@[k] == None::<i32>,
{
    let mut m: Vec<Option<i32>> = Vec::new();
    let mut i: usize = 0;
    while i < MAP_WIDTH * MAP_HEIGHT
        invariant
            i <= MAP_WIDTH * MAP_HEIGHT,
            m@.len() == i,
            forall|k: int| 0 <= k < i ==> #[trigger] m@[k] == None::<i32>,
        decreases MAP_WIDTH * MAP_HEIGHT - i,
    {
        m.push(None);
        i += 1;
    }
    m
}

/// The heights of a map whose cells are all set.
fn settled_heights(map: &Vec<Option<i32>>) -> (h: Vec<i32>)
    requires
        map@.len() == MAP_WIDTH * MAP_HEIGHT,
        forall|y: int, x: int| in_map(y, x) ==> (#[trigger] map@[map_index(y, x)]).is_some(),
    ensures
        h@.len() == map@.len(),
        forall|j: int| 0 <= j < h@.len() ==> map@[j] == Some(#[trigger] h@[j]),
{
    let mut heights: Vec<i32> = Vec::new();
    let mut k: usize = 0;
    while k < MAP_WIDTH * MAP_HEIGHT
        invariant
            k <= MAP_WIDTH * MAP_HEIGHT,
            map@.len() == MAP_WIDTH * MAP_HEIGHT,
            heights@.len() == k,
            forall|y: int, x: int| in_map(y, x) ==> (#[trigger] map@[map_index(y, x)]).is_some(),
            forall|j: int| 0 <= j < k ==> map@[j] == Some(#[trigger] heights@[j]),
        decreases MAP_WIDTH * MAP_HEIGHT - k,
    {
        proof {
            let (y, x) = (k as int / MAP_WIDTH as int, k as int % MAP_WIDTH as int);
            assert(k == map_index(y, x) && in_map(y, x));
        }
        let h = match map[k] {
            Some(v) => v,
            None => 0,
        };
        heights.push(h);
        k += 1;
    }
    heights
}

/// A terrain: a height map grown from height 0 at its center by random
/// steps of at most `MAX_STEP`, covered with triangles of `fill`.
#[verifier::rlimit(60)]
pub fn generate_shape_height_map(fill: u8) -> (r: Vec<Shape3d>)
    ensures
        exists|heights: Seq<i32>|
            {
                &&& heights.len() == MAP_WIDTH * MAP_HEIGHT
                &&& heights[map_index(center_row(), center_column())] == 0
                &&& forall|i: int| 0 <= i < heights.len() ==> -MAX_STEP * MAP_WIDTH * MAP_HEIGHT <= #[trigger] heights[i] <= MAX_STEP
                    * MAP_WIDTH * MAP_HEIGHT
                &&& is_terrain(r@, heights, fill)
            },
{
    let mut map_opt = unset_map();
    let center = (MAP_HEIGHT / 2) * MAP_WIDTH + MAP_WIDTH / 2;
    map_opt.set(center, Some(0));
    proof {
        lemma_count_unset_bound(map_opt@);
    }
    let ghost start = map_opt@;
    generate_map((MAP_HEIGHT / 2) as i64, (MAP_WIDTH / 2) as i64, &mut map_opt);
    proof {
        lemma_grown_full(start, map_opt@);
        lemma_count_unset_bound(map_opt@);
    }
    let heights = settled_heights(&map_opt);
    let r = shapes_from_map(fill, &heights);
    proof {
        let hs = heights@;
        assert forall|i: int| 0 <= i < hs.len() implies -MAX_STEP * MAP_WIDTH * MAP_HEIGHT <= #[trigger] hs[i] <= MAX_STEP
            * MAP_WIDTH * MAP_HEIGHT by {
            assert(map_opt@[i] == Some(hs[i]));
        }
        assert(hs[center as int] == 0);
    }
    r
}

} // verus!
