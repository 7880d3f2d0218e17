//! The framebuffer: a character grid and a parallel depth grid, with the
//! two depth-gated write rules used by lines and by triangle fills.
use vstd::prelude::*;

use crate::point::{clamp_i32, on_screen};
use crate::{BLANK, HEIGHT, WIDTH};

verus! {

/// Fixed-point scale of stored depths: `DEPTH_ONE` is one world unit.
pub const DEPTH_ONE: i64 = 1024;

/// Forward bias, in stored-depth steps (5 world units): triangle fills add it
/// to their depth, and a line may overwrite a cell up to this much behind.
pub const DEPTH_BIAS: i64 = 5 * DEPTH_ONE;

/// The model of a screen: its characters and its stored depths, row-major.
pub type Frame = (Seq<u8>, Seq<Option<i64>>);

/// A character with the depth it was drawn at, if any.
#[derive(Clone, Copy, Debug, PartialEq, Eq, Structural)]
pub struct Pixel {
    pub character: u8,
    pub z: Option<i32>,
}

/// Index of the cell at column `x`, row `y`.
pub open spec fn cell_index(x: int, y: int) -> int {
    y * WIDTH + x
}

/// `f` with character `c` and depth `z` stored at the cell at `(x, y)`.
pub open spec fn put(f: Frame, x: int, y: int, z: int, c: u8) -> Frame {
    (f.0.update(cell_index(x, y), c), f.1.update(cell_index(x, y), Some(z as i64)))
}

/// A line's write of depth `z` at `(x, y)`: an empty cell is taken; a
/// written one only if `z` is at most `DEPTH_BIAS` behind its depth.
/// Cells off the grid are left alone.
pub open spec fn line_write(f: Frame, x: int, y: int, z: int, c: u8) -> Frame {
    if !on_screen(x, y) {
        f
    } else {
        match f.1[cell_index(x, y)] {
            None => put(f, x, y, z, c),
            Some(pz) => if z <= pz + DEPTH_BIAS {
                put(f, x, y, z, c)
            } else {
                f
            },
        }
    }
}

/// A fill's write of depth `z` at `(x, y)`: an empty cell is taken; a
/// written one only if `z` is strictly nearer. Cells off the grid are left
/// alone.
pub open spec fn fill_write(f: Frame, x: int, y: int, z: int, c: u8) -> Frame {
    if !on_screen(x, y) {
        f
    } else {
        match f.1[cell_index(x, y)] {
            None => put(f, x, y, z, c),
            Some(pz) => if z < pz {
                put(f, x, y, z, c)
            } else {
                f
            },
        }
    }
}

/// The frame of a fresh screen: blank characters, no depths.
pub open spec fn empty_frame() -> Frame {
    (Seq::new((WIDTH * HEIGHT) as nat, |i: int| BLANK), Seq::new((WIDTH * HEIGHT) as nat, |i: int| None))
}

/// A frame with the grid's dimensions.
pub open spec fn frame_wf(f: Frame) -> bool {
    f.0.len() == WIDTH * HEIGHT && f.1.len() == WIDTH * HEIGHT
}

/// One frame's output: characters and the nearest depth written to each
/// cell, `None` where nothing was written.
pub struct Screen {
    grid: Vec<u8>,
    depth: Vec<Option<i64>>,
}

impl View for Screen {
    type V = Frame;

    closed spec fn view(&self) -> Frame {
        (self.grid@, self.depth@)
    }
}

impl Screen {
    /// The grid has its fixed dimensions.
    pub open spec fn wf(&self) -> bool {
        frame_wf(self@)
    }

    /// An empty screen: every cell blank, no depth written.
    pub fn new() -> (r: Screen)
        ensures
            r.wf(),
            r@ == empty_frame(),
    {
        let mut grid: Vec<u8> = Vec::new();
        let mut depth: Vec<Option<i64>> = Vec::new();
        let mut i: usize = 0;
        while i < WIDTH * HEIGHT
            invariant
                i <= WIDTH * HEIGHT,
                grid@.len() == i,
                depth@.len() == i,
                forall|k: int| 0 <= k < i ==> grid@[k] == BLANK,
                forall|k: int| 0 <= k < i ==> depth@[k] == None::<i64>,
            decreases WIDTH * HEIGHT - i,
        {
            grid.push(BLANK);
            depth.push(None);
            i += 1;
        }
        let r = Screen { grid, depth };
        assert(r@.0 =~= empty_frame().0);
        assert(r@.1 =~= empty_frame().1);
        r
    }

    /// The character at column `x`, row `y`.
    pub fn char_at(&self, x: usize, y: usize) -> (r: u8)
        requires
            self.wf(),
            x < WIDTH,
            y < HEIGHT,
        ensures
            r == self@.0[cell_index(x as int, y as int)],
    {
        self.grid[y * WIDTH + x]
    }

    /// The depth stored at column `x`, row `y`, in `DEPTH_ONE` steps.
    pub fn depth_at(&self, x: usize, y: usize) -> (r: Option<i64>)
        requires
            self.wf(),
            x < WIDTH,
            y < HEIGHT,
        ensures
            r == self@.1[cell_index(x as int, y as int)],
    {
        self.depth[y * WIDTH + x]
    }

    /// The cell at column `x`, row `y`, with its depth in whole world units.
    pub fn pixel_at(&self, x: usize, y: usize) -> (r: Pixel)
        requires
            self.wf(),
            x < WIDTH,
            y < HEIGHT,
        ensures
            r.character == self@.0[cell_index(x as int, y as int)],
            r.z == match self@.1[cell_index(x as int, y as int)] {
                None => None,
                Some(d) => Some(clamp_i32(d as int / (DEPTH_ONE as int)) as i32),
            },
    {
        let z = match self.depth[y * WIDTH + x] {
            None => None,
            Some(d) => {
                let w: i128 = crate::fixed::floor_div(d as i128, DEPTH_ONE as i128);
                Some(
                    if w < i32::MIN as i128 {
                        i32::MIN
                    } else if w > i32::MAX as i128 {
                        i32::MAX
                    } else {
                        w as i32
                    },
                )
            },
        };
        Pixel { character: self.grid[y * WIDTH + x], z }
    }

    /// Row `y` of the character grid, from column 0.
    pub fn row(&self, y: usize) -> (r: Vec<u8>)
        requires
            self.wf(),
            y < HEIGHT,
        ensures
            r@ == self@.0.subrange(cell_index(0, y as int), cell_index(WIDTH as int, y as int)),
    {
        let mut r: Vec<u8> = Vec::new();
        let mut x: usize = 0;
        while x < WIDTH
            invariant
                self.wf(),
                y < HEIGHT,
                x <= WIDTH,
                r@ =~= self@.0.subrange(cell_index(0, y as int), cell_index(x as int, y as int)),
            decreases WIDTH - x,
        {
            r.push(self.grid[y * WIDTH + x]);
            x += 1;
        }
        r
    }

    /// Writes `c` to the cell at `(x, y)` whatever is there; depths are left
    /// alone.
    pub fn put_char(&mut self, x: usize, y: usize, c: u8)
        requires
            old(self).wf(),
            x < WIDTH,
            y < HEIGHT,
        ensures
            final(self).wf(),
            final(self)@ == (old(self)@.0.update(cell_index(x as int, y as int), c), old(self)@.1),
    {
        self.grid.set(y * WIDTH + x, c);
    }

    /// Writes `c` at depth `z` to the cell at `(x, y)` under the line rule:
    /// `z` may be up to `DEPTH_BIAS` behind the stored depth.
    pub fn write_line_pixel(&mut self, x: i64, y: i64, z: i64, c: u8)
        requires
            old(self).wf(),
        ensures
            final(self).wf(),
            final(self)@ == line_write(old(self)@, x as int, y as int, z as int, c),
    {
        if 0 <= x && x < WIDTH as i64 && 0 <= y && y < HEIGHT as i64 {
            let i = y as usize * WIDTH + x as usize;
            let take = match self.depth[i] {
                None => true,
                Some(pz) => z as i128 <= pz as i128 + DEPTH_BIAS as i128,
            };
            if take {
                self.grid.set(i, c);
                self.depth.set(i, Some(z));
            }
        }
    }

    /// Writes `c` at depth `z` to the cell at `(x, y)` under the fill rule:
    /// `z` must be strictly nearer than the stored depth.
    pub fn write_fill_pixel(&mut self, x: i64, y: i64, z: i64, c: u8)
        requires
            old(self).wf(),
        ensures
            final(self).wf(),
            final(self)@ == fill_write(old(self)@, x as int, y as int, z as int, c),
    {
        if 0 <= x && x < WIDTH as i64 && 0 <= y && y < HEIGHT as i64 {
            let i = y as usize * WIDTH + x as usize;
            let take = match self.depth[i] {
                None => true,
                Some(pz) => z < pz,
            };
            if take {
                self.grid.set(i, c);
                self.depth.set(i, Some(z));
            }
        }
    }
}

/// A shape that can be drawn onto a screen.
pub trait Shape2d {
    /// The frame after drawing the shape onto `f`.
    spec fn drawn(&self, f: Frame) -> Frame;

    /// Draws the shape onto `screen`.
    fn add_to_grid(&self, screen: &mut Screen)
        requires
            old(screen).wf(),
        ensures
            final(screen).wf(),
            final(screen)@ == self.drawn(old(screen)@),
    ;
}

} // verus!
