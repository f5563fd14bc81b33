//! The grid model: a rectangular array of cells, each either empty or tagged
//! with a wall-material character. Consumed read-only by the renderer.

use vstd::prelude::*;

verus! {

/// The character standing for an empty, traversable cell.
pub const EMPTY_CELL: char = ' ';

/// A rectangular grid of cells. A cell equal to `EMPTY_CELL` is traversable;
/// any other character is a wall-material tag. A grid may have zero rows,
/// which callers must treat as "no geometry, no hits".
pub struct Maze {
    pub rows: Vec<Vec<char>>,
}

impl Maze {
    /// Well-formedness: the rows are rectangular (all of equal width).
    pub open spec fn wf(self) -> bool {
        forall|i: int|
            0 <= i < self.rows.len() ==> (#[trigger] self.rows[i]).len() == self.spec_width()
    }

    pub open spec fn spec_height(self) -> nat {
        self.rows.len() as nat
    }

    pub open spec fn spec_width(self) -> nat {
        if self.rows.len() == 0 {
            0nat
        } else {
            self.rows[0].len() as nat
        }
    }

    /// The cell at column `x` of row `y`.
    pub open spec fn cell(self, x: int, y: int) -> char {
        self.rows[y][x]
    }

    pub open spec fn in_bounds(self, x: int, y: int) -> bool {
        0 <= x < self.spec_width() && 0 <= y < self.spec_height()
    }

    /// Whether the rows of `rows` are rectangular.
    pub open spec fn rows_rectangular(rows: Seq<Vec<char>>) -> bool {
        forall|i: int|
            0 <= i < rows.len() ==> (#[trigger] rows[i]).len() == rows[0].len()
    }

    /// Build a grid from rows, accepting exactly the rectangular inputs.
    pub fn from_rows(rows: Vec<Vec<char>>) -> (r: Option<Maze>)
        ensures
            r is Some <==> Self::rows_rectangular(rows@),
            r is Some ==> r->Some_0.rows == rows && r->Some_0.wf(),
    {
        let mut i: usize = 0;
        let width: usize = if rows.len() == 0 {
            0
        } else {
            rows[0].len()
        };
        while i < rows.len()
            invariant
                i <= rows.len(),
                rows.len() > 0 ==> width == rows[0].len(),
                forall|j: int| 0 <= j < i ==> (#[trigger] rows@[j]).len() == width,
            decreases rows.len() - i,
        {
            if rows[i].len() != width {
                return None;
            }
            i += 1;
        }
        Some(Maze { rows })
    }

    pub fn height(&self) -> (h: usize)
        ensures
            h == self.spec_height(),
    {
        self.rows.len()
    }

    pub fn width(&self) -> (w: usize)
        ensures
            w == self.spec_width(),
    {
        if self.rows.len() == 0 {
            0
        } else {
            self.rows[0].len()
        }
    }

    /// The cell at column `x` of row `y`.
    pub fn at(&self, x: usize, y: usize) -> (c: char)
        requires
            self.wf(),
            self.in_bounds(x as int, y as int),
        ensures
            c == self.cell(x as int, y as int),
    {
        self.rows[y][x]
    }
}

} // verus!
