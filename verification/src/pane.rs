//! Pane geometry: where a pane sits in the window framebuffer, and the grid
//! size that fits in it.

use vstd::prelude::*;

verus! {

/// A pixel rectangle within the window framebuffer.
#[derive(Clone, Copy, Debug, PartialEq, Eq, Structural)]
pub struct Rect {
    pub x: usize,
    pub y: usize,
    pub w: usize,
    pub h: usize,
}

impl Rect {
    pub fn new(x: usize, y: usize, w: usize, h: usize) -> (r: Self)
        ensures
            r == (Rect { x, y, w, h }),
    {
        Rect { x, y, w, h }
    }

    /// The `(rows, cols)` of cells of `cell_w`×`cell_h` pixels that fit in the
    /// rect, each at least 1.
    pub fn grid_size(&self, cell_w: usize, cell_h: usize) -> (rc: (usize, usize))
        requires
            cell_w > 0,
            cell_h > 0,
        ensures
            rc.0 == (if self.h / cell_h == 0 { 1 } else { self.h / cell_h }),
            rc.1 == (if self.w / cell_w == 0 { 1 } else { self.w / cell_w }),
    {
        let cols = self.w / cell_w;
        let rows = self.h / cell_h;
        (if rows == 0 { 1 } else { rows }, if cols == 0 { 1 } else { cols })
    }
}

} // verus!
