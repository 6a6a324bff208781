use vstd::prelude::*;

verus! {

/// Mathematical model of a rectangular grid of samples stored row by row.
pub struct Grid<T> {
    /// Number of columns.
    pub width: nat,
    /// Number of rows.
    pub height: nat,
    /// The samples, one row after the other.
    pub cells: Seq<T>,
}

impl<T> Grid<T> {
    /// The grid holds exactly one sample per position.
    pub open spec fn wf(self) -> bool {
        self.cells.len() == self.width * self.height
    }

    /// Tells whether `(x, y)` is a position of the grid.
    pub open spec fn contains(self, x: int, y: int) -> bool {
        0 <= x < self.width && 0 <= y < self.height
    }

    /// The sample in column `x` of row `y`.
    pub open spec fn at(self, x: int, y: int) -> T
        recommends
            self.contains(x, y),
    {
        self.cells[y * self.width + x]
    }
}

/// `(qx, qy)` comes before `(x, y)` when the positions are read row by row.
pub open spec fn precedes(qx: int, qy: int, x: int, y: int) -> bool {
    qy < y || (qy == y && qx < x)
}

/// Row-major offset of column `x` in row `y` of a grid `width` columns wide.
pub open spec fn offset_of(width: int, x: int, y: int) -> int {
    y * width + x
}

/// Every position of a grid has an offset inside its sample buffer.
pub proof fn lemma_offset_in_range(width: int, height: int, x: int, y: int)
    requires
        0 <= x < width,
        0 <= y < height,
    ensures
        0 <= offset_of(width, x, y) < width * height,
        offset_of(width, x, y) == y * width + x,
{
    assert(y * width + x < width * height) by (nonlinear_arith)
        requires
            0 <= x < width,
            0 <= y < height,
    ;
    assert(0 <= y * width) by (nonlinear_arith)
        requires
            0 <= y,
            0 <= width,
    ;
}

/// Distinct positions of a grid have distinct offsets.
pub proof fn lemma_offset_injective(width: int, x1: int, y1: int, x2: int, y2: int)
    requires
        0 <= x1 < width,
        0 <= x2 < width,
        offset_of(width, x1, y1) == offset_of(width, x2, y2),
    ensures
        x1 == x2,
        y1 == y2,
{
    if y1 < y2 {
        assert(y2 * width >= y1 * width + width) by (nonlinear_arith)
            requires
                y1 < y2,
                width > 0,
        ;
    } else if y2 < y1 {
        assert(y1 * width >= y2 * width + width) by (nonlinear_arith)
            requires
                y2 < y1,
                width > 0,
        ;
    }
}

/// Every offset inside the buffer belongs to a position of the grid.
pub proof fn lemma_offset_unfolds(width: int, height: int, k: int)
    requires
        0 <= width,
        0 <= height,
        0 <= k < width * height,
    ensures
        0 <= k % width < width,
        0 <= k / width < height,
        offset_of(width, k % width, k / width) == k,
{
    assert(width > 0) by (nonlinear_arith)
        requires
            0 <= width,
            0 <= k < width * height,
    ;
    assert(k == width * (k / width) + k % width && 0 <= k % width < width) by (nonlinear_arith)
        requires
            width > 0,
    ;
    assert(0 <= k / width < height) by (nonlinear_arith)
        requires
            width > 0,
            0 <= k < width * height,
            k == width * (k / width) + k % width,
            0 <= k % width < width,
    ;
    assert((k / width) * width == width * (k / width)) by (nonlinear_arith);
}

/// Offsets grow along the rows: a position that is read earlier, row by
/// row, lies earlier in the buffer.
pub proof fn lemma_offset_monotone(width: int, x1: int, y1: int, x2: int, y2: int)
    requires
        0 <= x1 < width,
        0 <= x2 < width,
        0 <= y1,
        precedes(x1, y1, x2, y2),
    ensures
        0 <= offset_of(width, x1, y1) < offset_of(width, x2, y2),
{
    assert(0 <= y1 * width) by (nonlinear_arith)
        requires
            0 <= y1,
            0 <= width,
    ;
    if y1 < y2 {
        assert(y2 * width >= y1 * width + width) by (nonlinear_arith)
            requires
                y1 < y2,
                width > 0,
        ;
    }
}

} // verus!
