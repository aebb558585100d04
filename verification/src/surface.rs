//! The 64x32 monochrome framebuffer.
//!
//! Cells are stored row-major: the cell at column `x` and row `y` sits at
//! index `y * 64 + x`.  Drawing toggles cells (XOR compositing); coordinates
//! are wrapped modulo the grid dimensions before any cell is touched.

use vstd::prelude::*;

verus! {

/// Index of the cell at column `x`, row `y` in the row-major grid.
pub open spec fn cell_at(x: int, y: int) -> int {
    y * 64 + x
}

/// Every cell of the grid is unset.
pub open spec fn all_unset(g: Seq<bool>) -> bool {
    forall|c: int| 0 <= c < 2048 ==> !g[c]
}

/// A 64x32 binary pixel grid with XOR-toggle semantics.
pub struct Surface {
    cells: Vec<bool>,
}

impl View for Surface {
    type V = Seq<bool>;

    closed spec fn view(&self) -> Seq<bool> {
        self.cells@
    }
}

impl Surface {
    /// The grid holds exactly 64 * 32 cells.
    pub open spec fn wf(&self) -> bool {
        self@.len() == 2048
    }

    /// A fresh surface with every cell unset.
    pub fn new() -> (s: Surface)
        ensures
            s.wf(),
            all_unset(s@),
    {
        let cells: Vec<bool> = vec![false; 2048];
        Surface { cells }
    }

    /// Reset every cell to unset.
    pub fn clear(&mut self)
        ensures
            final(self).wf(),
            all_unset(final(self)@),
    {
        self.cells = vec![false; 2048];
    }

    /// Flip the cell at wrapped coordinates `(x mod 64, y mod 32)` and report
    /// whether the cell is now unset, i.e. whether this toggle erased a set
    /// pixel (the collision signal).
    pub fn toggle(&mut self, x: usize, y: usize) -> (now_unset: bool)
        requires
            old(self).wf(),
        ensures
            final(self).wf(),
            final(self)@ == old(self)@.update(
                cell_at((x % 64) as int, (y % 32) as int),
                !old(self)@[cell_at((x % 64) as int, (y % 32) as int)],
            ),
            now_unset == old(self)@[cell_at((x % 64) as int, (y % 32) as int)],
    {
        let cx: usize = x % 64;
        let cy: usize = y % 32;
        let idx: usize = cy * 64 + cx;
        let was_set: bool = self.cells[idx];
        self.cells[idx] = !was_set;
        was_set
    }

    /// Whether the cell at `(x, y)` is set.
    pub fn is_set(&self, x: usize, y: usize) -> (r: bool)
        requires
            self.wf(),
            x < 64,
            y < 32,
        ensures
            r == self@[cell_at(x as int, y as int)],
    {
        self.cells[y * 64 + x]
    }
}

} // verus!
