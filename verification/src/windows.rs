use vstd::prelude::*;
use crate::edge_map::EdgeMap;
use crate::grid::{Grid, offset_of, precedes, lemma_offset_in_range, lemma_offset_monotone};
use crate::locator::{is_position, shared_edges, shared_mask, window_edges, window_mask};
use crate::tally::{
    row_tally, shifted, tally, lemma_tally_agree, lemma_tally_bound, lemma_tally_corner,
    lemma_tally_empty, lemma_tally_window,
};

verus! {

/// The edge cells of row `j` of a template in the columns `0..end`, from
/// left to right.
pub open spec fn row_outline(tpl: Grid<bool>, j: int, end: int) -> Seq<(u32, u32)>
    decreases end,
{
    if end <= 0 {
        Seq::empty()
    } else if tpl.at(end - 1, j) {
        row_outline(tpl, j, end - 1).push(((end - 1) as u32, j as u32))
    } else {
        row_outline(tpl, j, end - 1)
    }
}

/// The edge cells of the first `rows` rows of a template, row by row.
pub open spec fn outline(tpl: Grid<bool>, rows: int) -> Seq<(u32, u32)>
    decreases rows,
{
    if rows <= 0 {
        Seq::empty()
    } else {
        outline(tpl, rows - 1) + row_outline(tpl, rows - 1, tpl.width as int)
    }
}

/// Number of cells of the list at which `hit` holds.
pub open spec fn hits(cells: Seq<(u32, u32)>, hit: spec_fn(int, int) -> bool) -> nat
    decreases cells.len(),
{
    if cells.len() == 0 {
        0
    } else {
        hits(cells.drop_last(), hit) + if hit(cells.last().0 as int, cells.last().1 as int) {
            1nat
        } else {
            0nat
        }
    }
}

/// A list in two parts counts what the parts count.
proof fn lemma_hits_concat(
    first: Seq<(u32, u32)>,
    second: Seq<(u32, u32)>,
    hit: spec_fn(int, int) -> bool,
)
    ensures
        hits(first + second, hit) == hits(first, hit) + hits(second, hit),
    decreases second.len(),
{
    if second.len() == 0 {
        assert(first + second =~= first);
    } else {
        assert((first + second).drop_last() =~= first + second.drop_last());
        assert((first + second).last() == second.last());
        lemma_hits_concat(first, second.drop_last(), hit);
    }
}

/// The edge cells of a row at which `hit` holds are the cells of the row
/// that are an edge and at which `hit` holds.
proof fn lemma_row_outline_hits(
    tpl: Grid<bool>,
    j: int,
    end: int,
    hit: spec_fn(int, int) -> bool,
)
    requires
        0 <= j <= u32::MAX,
        end <= u32::MAX,
    ensures
        hits(row_outline(tpl, j, end), hit) == row_tally(
            |a: int, b: int| tpl.at(a, b) && hit(a, b),
            j,
            end,
        ),
    decreases end,
{
    if end > 0 {
        lemma_row_outline_hits(tpl, j, end - 1, hit);
        let rest = row_outline(tpl, j, end - 1);
        if tpl.at(end - 1, j) {
            let cell = ((end - 1) as u32, j as u32);
            assert(rest.push(cell).drop_last() =~= rest);
            assert(rest.push(cell).last() == cell);
        }
    }
}

/// The edge cells of a template at which `hit` holds are the cells that
/// are an edge and at which `hit` holds.
proof fn lemma_outline_hits(tpl: Grid<bool>, rows: int, hit: spec_fn(int, int) -> bool)
    requires
        rows <= u32::MAX,
        tpl.width <= u32::MAX,
    ensures
        hits(outline(tpl, rows), hit) == tally(
            |a: int, b: int| tpl.at(a, b) && hit(a, b),
            tpl.width as int,
            rows,
        ),
    decreases rows,
{
    if rows > 0 {
        lemma_outline_hits(tpl, rows - 1, hit);
        lemma_row_outline_hits(tpl, rows - 1, tpl.width as int, hit);
        lemma_hits_concat(
            outline(tpl, rows - 1),
            row_outline(tpl, rows - 1, tpl.width as int),
            hit,
        );
    }
}

/// Lists the edge cells of a template, row by row.
pub(crate) fn trace_outline(tpl: &EdgeMap) -> (cells: Vec<(u32, u32)>)
    ensures
        cells@ == outline(tpl@, tpl@.height as int),
        forall|k: int|
            0 <= k < cells@.len() ==> tpl@.contains(
                (#[trigger] cells@[k]).0 as int,
                cells@[k].1 as int,
            ),
{
    let width = tpl.width();
    let height = tpl.height();
    let mut cells: Vec<(u32, u32)> = Vec::new();
    let mut j: u32 = 0;
    while j < height
        invariant
            j <= height,
            tpl@.width == width,
            tpl@.height == height,
            cells@ == outline(tpl@, j as int),
            forall|k: int|
                0 <= k < cells@.len() ==> tpl@.contains(
                    (#[trigger] cells@[k]).0 as int,
                    cells@[k].1 as int,
                ),
        decreases height - j,
    {
        let ghost above = cells@;
        let mut i: u32 = 0;
        while i < width
            invariant
                j < height,
                i <= width,
                tpl@.width == width,
                tpl@.height == height,
                above == outline(tpl@, j as int),
                cells@ == above + row_outline(tpl@, j as int, i as int),
                forall|k: int|
                    0 <= k < cells@.len() ==> tpl@.contains(
                        (#[trigger] cells@[k]).0 as int,
                        cells@[k].1 as int,
                    ),
            decreases width - i,
        {
            if tpl.cell(i, j) {
                cells.push((i, j));
                assert(cells@ =~= above + row_outline(tpl@, j as int, i + 1));
            }
            i = i + 1;
        }
        j = j + 1;
    }
    cells
}

/// Counts the listed cells of the template that are an edge of the frame
/// window at `(x, y)`.
pub(crate) fn count_shared(frame: &EdgeMap, tpl: &EdgeMap, cells: &Vec<(u32, u32)>, x: u32, y: u32) -> (count: u64)
    requires
        is_position(frame@, tpl@, x as int, y as int),
        cells@ == outline(tpl@, tpl@.height as int),
        forall|k: int|
            0 <= k < cells@.len() ==> tpl@.contains(
                (#[trigger] cells@[k]).0 as int,
                cells@[k].1 as int,
            ),
    ensures
        count == shared_edges(frame@, tpl@, x as int, y as int),
{
    let width = tpl.width();
    let height = tpl.height();
    let frame_width = frame.width();
    let frame_height = frame.height();
    let ghost seen = window_mask(frame@, x as int, y as int);
    let mut count: u64 = 0;
    let mut k: usize = 0;
    while k < cells.len()
        invariant
            k <= cells@.len(),
            tpl@.width == width,
            tpl@.height == height,
            frame@.width == frame_width,
            frame@.height == frame_height,
            x + width <= frame_width,
            y + height <= frame_height,
            seen == window_mask(frame@, x as int, y as int),
            forall|k: int|
                0 <= k < cells@.len() ==> tpl@.contains(
                    (#[trigger] cells@[k]).0 as int,
                    cells@[k].1 as int,
                ),
            count == hits(cells@.take(k as int), seen),
            count <= k,
        decreases cells@.len() - k,
    {
        let cell = cells[k];
        assert(cells@.take(k + 1).drop_last() =~= cells@.take(k as int));
        assert(cells@.take(k + 1).last() == cell);
        if frame.cell(x + cell.0, y + cell.1) {
            count = count + 1;
        }
        k = k + 1;
    }
    proof {
        assert(cells@.take(k as int) =~= cells@);
        lemma_outline_hits(tpl@, height as int, seen);
        lemma_tally_agree(
            |a: int, b: int| tpl@.at(a, b) && seen(a, b),
            shared_mask(frame@, tpl@, x as int, y as int),
            width as int,
            height as int,
        );
    }
    count
}

/// `sums` holds, for every position of the frame, the number of edges
/// that lie neither to the right of it nor below it.
pub open spec fn is_running_count(sums: Seq<u64>, frame: Grid<bool>) -> bool {
    &&& sums.len() == frame.width * frame.height
    &&& forall|x: int, y: int|
        frame.contains(x, y) ==> (#[trigger] Grid {
            width: frame.width,
            height: frame.height,
            cells: sums,
        }.at(x, y)) == tally(window_mask(frame, 0, 0), x + 1, y + 1)
}

/// The running counts read as a grid of the dimensions of the frame.
spec fn running(sums: Seq<u64>, frame: Grid<bool>) -> Grid<u64> {
    Grid { width: frame.width, height: frame.height, cells: sums }
}

/// What holds while the running counts are filled in, row by row, up to
/// but not including `(x, y)`.
spec fn counted(sums: Seq<u64>, frame: Grid<bool>, x: int, y: int) -> bool {
    &&& sums.len() == offset_of(frame.width as int, x, y)
    &&& forall|i: int, j: int|
        0 <= i < frame.width && 0 <= j && precedes(i, j, x, y) ==> (#[trigger] running(
            sums,
            frame,
        ).at(i, j)) == tally(window_mask(frame, 0, 0), i + 1, j + 1)
}

/// The count up to a position, from the counts to its left, above it and
/// diagonally above, each taken as nothing off the frame.
proof fn lemma_counted_step(
    sums: Seq<u64>,
    frame: Grid<bool>,
    x: int,
    y: int,
    left: int,
    up: int,
    diagonal: int,
    next: u64,
)
    requires
        frame.contains(x, y),
        counted(sums, frame, x, y),
        left == if x > 0 {
            running(sums, frame).at(x - 1, y) as int
        } else {
            0
        },
        up == if y > 0 {
            running(sums, frame).at(x, y - 1) as int
        } else {
            0
        },
        diagonal == if x > 0 && y > 0 {
            running(sums, frame).at(x - 1, y - 1) as int
        } else {
            0
        },
        next == left + up - diagonal + if frame.at(x, y) {
            1int
        } else {
            0int
        },
    ensures
        counted(sums.push(next), frame, x + 1, y),
{
    let width = frame.width as int;
    let all = window_mask(frame, 0, 0);
    lemma_tally_corner(all, x, y);
    lemma_tally_empty(all, 0, y + 1);
    lemma_tally_empty(all, 0, y);
    lemma_tally_empty(all, x + 1, 0);
    lemma_tally_empty(all, x, 0);
    assert(next == tally(all, x + 1, y + 1));
    let after = sums.push(next);
    assert forall|i: int, j: int|
        0 <= i < frame.width && 0 <= j && precedes(i, j, x + 1, y) implies (#[trigger] running(
        after,
        frame,
    ).at(i, j)) == tally(all, i + 1, j + 1) by {
        if precedes(i, j, x, y) {
            lemma_offset_monotone(width, i, j, x, y);
            assert(running(sums, frame).at(i, j) == tally(all, i + 1, j + 1));
        }
    }
}

/// Past the end of a row, the filling stands at the start of the next.
proof fn lemma_counted_row(sums: Seq<u64>, frame: Grid<bool>, y: int)
    requires
        counted(sums, frame, frame.width as int, y),
    ensures
        counted(sums, frame, 0, y + 1),
{
    let width = frame.width as int;
    assert(y * width + width == (y + 1) * width + 0) by (nonlinear_arith);
}

/// Once every row is filled in, the running counts are complete.
proof fn lemma_counted_all(sums: Seq<u64>, frame: Grid<bool>)
    requires
        counted(sums, frame, 0, frame.height as int),
    ensures
        is_running_count(sums, frame),
{
    let width = frame.width as int;
    let height = frame.height as int;
    assert(height * width == width * height) by (nonlinear_arith);
    assert forall|x: int, y: int| frame.contains(x, y) implies (#[trigger] Grid {
        width: frame.width,
        height: frame.height,
        cells: sums,
    }.at(x, y)) == tally(window_mask(frame, 0, 0), x + 1, y + 1) by {
        assert(precedes(x, y, 0, height));
        assert(running(sums, frame).at(x, y) == tally(window_mask(frame, 0, 0), x + 1, y + 1));
    }
}

/// Counts, for every position of the frame, the edges that lie neither
/// to the right of it nor below it.
pub(crate) fn running_count(frame: &EdgeMap) -> (sums: Vec<u64>)
    ensures
        is_running_count(sums@, frame@),
{
    let width = frame.width();
    let height = frame.height();
    let mut sums: Vec<u64> = Vec::new();
    let mut y: u32 = 0;
    while y < height
        invariant
            y <= height,
            frame@.width == width,
            frame@.height == height,
            frame@.wf(),
            counted(sums@, frame@, 0, y as int),
        decreases height - y,
    {
        let mut x: u32 = 0;
        while x < width
            invariant
                y < height,
                x <= width,
                frame@.width == width,
                frame@.height == height,
                frame@.wf(),
                counted(sums@, frame@, x as int, y as int),
            decreases width - x,
        {
            let here = sums.len();
            proof {
                lemma_offset_in_range(width as int, height as int, x as int, y as int);
                if x > 0 {
                    lemma_offset_monotone(width as int, x - 1, y as int, x as int, y as int);
                    lemma_tally_bound(window_mask(frame@, 0, 0), x as int, y + 1);
                }
                if y > 0 {
                    lemma_offset_monotone(width as int, x as int, y - 1, x as int, y as int);
                    lemma_tally_bound(window_mask(frame@, 0, 0), x + 1, y as int);
                    assert((y - 1) * width + x == here - width) by (nonlinear_arith)
                        requires
                            here == y * width + x,
                    ;
                }
                if x > 0 && y > 0 {
                    lemma_offset_monotone(width as int, x - 1, y - 1, x as int, y as int);
                }
                lemma_tally_bound(window_mask(frame@, 0, 0), x + 1, y + 1);
                lemma_tally_corner(window_mask(frame@, 0, 0), x as int, y as int);
                lemma_tally_empty(window_mask(frame@, 0, 0), 0, y + 1);
                lemma_tally_empty(window_mask(frame@, 0, 0), 0, y as int);
                lemma_tally_empty(window_mask(frame@, 0, 0), x + 1, 0);
                lemma_tally_empty(window_mask(frame@, 0, 0), x as int, 0);
                assert((x + 1) * (y + 1) <= u32::MAX * u32::MAX) by (nonlinear_arith)
                    requires
                        0 <= x < u32::MAX,
                        0 <= y < u32::MAX,
                ;
                assert(x * (y + 1) <= u32::MAX * u32::MAX) by (nonlinear_arith)
                    requires
                        0 <= x < u32::MAX,
                        0 <= y < u32::MAX,
                ;
                assert((x + 1) * y <= u32::MAX * u32::MAX) by (nonlinear_arith)
                    requires
                        0 <= x < u32::MAX,
                        0 <= y < u32::MAX,
                ;
            }
            let left: u64 = if x > 0 {
                sums[here - 1]
            } else {
                0
            };
            let up: u64 = if y > 0 {
                sums[here - width as usize]
            } else {
                0
            };
            let diagonal: u64 = if x > 0 && y > 0 {
                sums[here - width as usize - 1]
            } else {
                0
            };
            proof {
                let grid = running(sums@, frame@);
                if x > 0 {
                    assert(left == grid.at(x - 1, y as int));
                }
                if y > 0 {
                    assert(up == grid.at(x as int, y - 1));
                }
                if x > 0 && y > 0 {
                    assert(diagonal == grid.at(x - 1, y - 1));
                }
            }
            let edge: u128 = if frame.cell(x, y) {
                1
            } else {
                0
            };
            let next: u64 = ((left as u128 + up as u128 + edge) - diagonal as u128) as u64;
            proof {
                lemma_counted_step(
                    sums@,
                    frame@,
                    x as int,
                    y as int,
                    left as int,
                    up as int,
                    diagonal as int,
                    next,
                );
            }
            sums.push(next);
            x = x + 1;
        }
        proof {
            lemma_counted_row(sums@, frame@, y as int);
        }
        y = y + 1;
    }
    proof {
        lemma_counted_all(sums@, frame@);
    }
    sums
}

/// Reads the number of edges of the frame window at `(x, y)` off the
/// running counts.
pub(crate) fn count_window(
    frame: &EdgeMap,
    tpl: &EdgeMap,
    sums: &Vec<u64>,
    x: u32,
    y: u32,
) -> (count: u64)
    requires
        is_position(frame@, tpl@, x as int, y as int),
        is_running_count(sums@, frame@),
    ensures
        count == window_edges(frame@, tpl@, x as int, y as int),
{
    let width = tpl.width();
    let height = tpl.height();
    let frame_width = frame.width();
    let frame_height = frame.height();
    let ghost all = window_mask(frame@, 0, 0);
    proof {
        lemma_tally_agree(
            shifted(all, x as int, y as int),
            window_mask(frame@, x as int, y as int),
            width as int,
            height as int,
        );
    }
    if width == 0 || height == 0 {
        proof {
            lemma_tally_empty(window_mask(frame@, x as int, y as int), width as int, height as int);
        }
        return 0;
    }
    let right = x + width - 1;
    let bottom = y + height - 1;
    let len = sums.len();
    let ghost grid = Grid { width: frame@.width, height: frame@.height, cells: sums@ };
    proof {
        lemma_tally_window(all, x as int, y as int, width as int, height as int);
        lemma_tally_empty(all, 0, y + height);
        lemma_tally_empty(all, 0, y as int);
        lemma_tally_empty(all, x + width, 0);
        lemma_tally_empty(all, x as int, 0);
        lemma_offset_in_range(frame_width as int, frame_height as int, right as int, bottom as int);
        assert(grid.at(right as int, bottom as int) == tally(all, x + width, y + height));
        if x > 0 {
            lemma_offset_in_range(frame_width as int, frame_height as int, x - 1, bottom as int);
            assert(grid.at(x - 1, bottom as int) == tally(all, x as int, y + height));
        }
        if y > 0 {
            lemma_offset_in_range(frame_width as int, frame_height as int, right as int, y - 1);
            assert(grid.at(right as int, y - 1) == tally(all, x + width, y as int));
        }
        if x > 0 && y > 0 {
            lemma_offset_in_range(frame_width as int, frame_height as int, x - 1, y - 1);
            assert(grid.at(x - 1, y - 1) == tally(all, x as int, y as int));
        }
    }
    let whole: u64 = sums[(bottom as usize) * (frame_width as usize) + (right as usize)];
    let left: u64 = if x > 0 {
        sums[(bottom as usize) * (frame_width as usize) + (x as usize - 1)]
    } else {
        0
    };
    let above: u64 = if y > 0 {
        sums[(y as usize - 1) * (frame_width as usize) + (right as usize)]
    } else {
        0
    };
    let corner: u64 = if x > 0 && y > 0 {
        sums[(y as usize - 1) * (frame_width as usize) + (x as usize - 1)]
    } else {
        0
    };
    proof {
        lemma_tally_bound(window_mask(frame@, x as int, y as int), width as int, height as int);
        assert(width * height <= u32::MAX * u32::MAX) by (nonlinear_arith)
            requires
                0 <= width <= u32::MAX,
                0 <= height <= u32::MAX,
        ;
        assert(whole == grid.at(right as int, bottom as int));
        if x > 0 {
            assert(left == grid.at(x - 1, bottom as int));
        }
        if y > 0 {
            assert(above == grid.at(right as int, y - 1));
        }
        if x > 0 && y > 0 {
            assert(corner == grid.at(x - 1, y - 1));
        }
    }
    ((whole as u128 + corner as u128) - (left as u128 + above as u128)) as u64
}

} // verus!
