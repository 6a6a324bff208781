use vstd::prelude::*;

verus! {

/// Number of columns `x` in `0..end` of row `y` at which `hit` holds.
pub open spec fn row_tally(hit: spec_fn(int, int) -> bool, y: int, end: int) -> nat
    decreases end,
{
    if end <= 0 {
        0
    } else {
        row_tally(hit, y, end - 1) + if hit(end - 1, y) {
            1nat
        } else {
            0nat
        }
    }
}

/// Number of positions `(x, y)` with `0 <= x < width` and `0 <= y < rows`
/// at which `hit` holds.
pub open spec fn tally(hit: spec_fn(int, int) -> bool, width: int, rows: int) -> nat
    decreases rows,
{
    if rows <= 0 {
        0
    } else {
        tally(hit, width, rows - 1) + row_tally(hit, rows - 1, width)
    }
}

/// A row never counts more positions than it has.
pub proof fn lemma_row_tally_bound(hit: spec_fn(int, int) -> bool, y: int, end: int)
    requires
        0 <= end,
    ensures
        row_tally(hit, y, end) <= end,
    decreases end,
{
    if end > 0 {
        lemma_row_tally_bound(hit, y, end - 1);
    }
}

/// A grid never counts more positions than it has.
pub proof fn lemma_tally_bound(hit: spec_fn(int, int) -> bool, width: int, rows: int)
    requires
        0 <= width,
        0 <= rows,
    ensures
        tally(hit, width, rows) <= width * rows,
    decreases rows,
{
    if rows > 0 {
        lemma_tally_bound(hit, width, rows - 1);
        lemma_row_tally_bound(hit, rows - 1, width);
        assert(width * (rows - 1) + width == width * rows) by (nonlinear_arith);
    } else {
        assert(width * rows == 0) by (nonlinear_arith)
            requires
                rows == 0,
        ;
    }
}

/// Counting is monotone along a row: a weaker predicate counts at least as much.
pub proof fn lemma_row_tally_le(
    small: spec_fn(int, int) -> bool,
    large: spec_fn(int, int) -> bool,
    y: int,
    end: int,
)
    requires
        forall|x: int| 0 <= x < end && #[trigger] small(x, y) ==> large(x, y),
    ensures
        row_tally(small, y, end) <= row_tally(large, y, end),
    decreases end,
{
    if end > 0 {
        lemma_row_tally_le(small, large, y, end - 1);
    }
}

/// Counting is monotone over a grid: a weaker predicate counts at least as much.
pub proof fn lemma_tally_le(
    small: spec_fn(int, int) -> bool,
    large: spec_fn(int, int) -> bool,
    width: int,
    rows: int,
)
    requires
        forall|x: int, y: int|
            0 <= x < width && 0 <= y < rows && #[trigger] small(x, y) ==> large(x, y),
    ensures
        tally(small, width, rows) <= tally(large, width, rows),
    decreases rows,
{
    if rows > 0 {
        lemma_tally_le(small, large, width, rows - 1);
        lemma_row_tally_le(small, large, rows - 1, width);
    }
}

/// Two predicates that agree on every position of a grid count the same.
pub proof fn lemma_tally_agree(
    first: spec_fn(int, int) -> bool,
    second: spec_fn(int, int) -> bool,
    width: int,
    rows: int,
)
    requires
        forall|x: int, y: int|
            0 <= x < width && 0 <= y < rows ==> #[trigger] first(x, y) == #[trigger] second(x, y),
    ensures
        tally(first, width, rows) == tally(second, width, rows),
{
    lemma_tally_le(first, second, width, rows);
    lemma_tally_le(second, first, width, rows);
}

/// A predicate that holds nowhere on a row counts nothing.
pub proof fn lemma_row_tally_none(hit: spec_fn(int, int) -> bool, y: int, end: int)
    requires
        forall|x: int| 0 <= x < end ==> !#[trigger] hit(x, y),
    ensures
        row_tally(hit, y, end) == 0,
    decreases end,
{
    if end > 0 {
        lemma_row_tally_none(hit, y, end - 1);
    }
}

/// A predicate that holds nowhere on a grid counts nothing.
pub proof fn lemma_tally_none(hit: spec_fn(int, int) -> bool, width: int, rows: int)
    requires
        forall|x: int, y: int| 0 <= x < width && 0 <= y < rows ==> !#[trigger] hit(x, y),
    ensures
        tally(hit, width, rows) == 0,
    decreases rows,
{
    if rows > 0 {
        lemma_tally_none(hit, width, rows - 1);
        lemma_row_tally_none(hit, rows - 1, width);
    }
}

/// A count above zero has a position behind it.
pub proof fn lemma_tally_some(hit: spec_fn(int, int) -> bool, width: int, rows: int)
    requires
        tally(hit, width, rows) > 0,
    ensures
        exists|x: int, y: int| 0 <= x < width && 0 <= y < rows && #[trigger] hit(x, y),
{
    if !(exists|x: int, y: int| 0 <= x < width && 0 <= y < rows && #[trigger] hit(x, y)) {
        lemma_tally_none(hit, width, rows);
    }
}

/// A predicate that holds everywhere on a row counts every column.
pub proof fn lemma_row_tally_all(hit: spec_fn(int, int) -> bool, y: int, end: int)
    requires
        0 <= end,
        forall|x: int| 0 <= x < end ==> #[trigger] hit(x, y),
    ensures
        row_tally(hit, y, end) == end,
    decreases end,
{
    if end > 0 {
        lemma_row_tally_all(hit, y, end - 1);
    }
}

/// A predicate that holds everywhere on a grid counts every position.
pub proof fn lemma_tally_all(hit: spec_fn(int, int) -> bool, width: int, rows: int)
    requires
        0 <= width,
        0 <= rows,
        forall|x: int, y: int| 0 <= x < width && 0 <= y < rows ==> #[trigger] hit(x, y),
    ensures
        tally(hit, width, rows) == width * rows,
    decreases rows,
{
    if rows > 0 {
        lemma_tally_all(hit, width, rows - 1);
        lemma_row_tally_all(hit, rows - 1, width);
        assert(width * (rows - 1) + width == width * rows) by (nonlinear_arith);
    } else {
        assert(width * rows == 0) by (nonlinear_arith)
            requires
                rows == 0,
        ;
    }
}

/// On a row, a stronger predicate that counts as much as a weaker one
/// holds wherever the weaker one does.
pub proof fn lemma_row_tally_tight(
    small: spec_fn(int, int) -> bool,
    large: spec_fn(int, int) -> bool,
    y: int,
    end: int,
)
    requires
        forall|x: int| 0 <= x < end && #[trigger] small(x, y) ==> large(x, y),
        row_tally(small, y, end) >= row_tally(large, y, end),
    ensures
        forall|x: int| 0 <= x < end && #[trigger] large(x, y) ==> small(x, y),
    decreases end,
{
    if end > 0 {
        lemma_row_tally_le(small, large, y, end - 1);
        lemma_row_tally_tight(small, large, y, end - 1);
    }
}

/// On a grid, a stronger predicate that counts as much as a weaker one
/// holds wherever the weaker one does.
pub proof fn lemma_tally_tight(
    small: spec_fn(int, int) -> bool,
    large: spec_fn(int, int) -> bool,
    width: int,
    rows: int,
)
    requires
        forall|x: int, y: int|
            0 <= x < width && 0 <= y < rows && #[trigger] small(x, y) ==> large(x, y),
        tally(small, width, rows) >= tally(large, width, rows),
    ensures
        forall|x: int, y: int|
            0 <= x < width && 0 <= y < rows && #[trigger] large(x, y) ==> small(x, y),
    decreases rows,
{
    if rows > 0 {
        lemma_tally_le(small, large, width, rows - 1);
        lemma_row_tally_le(small, large, rows - 1, width);
        lemma_tally_tight(small, large, width, rows - 1);
        lemma_row_tally_tight(small, large, rows - 1, width);
    }
}

/// Along a row, the positions where both predicates hold and those where
/// at least one holds add up to the two separate counts.
pub proof fn lemma_row_tally_split(
    first: spec_fn(int, int) -> bool,
    second: spec_fn(int, int) -> bool,
    y: int,
    end: int,
)
    ensures
        row_tally(|x: int, y: int| first(x, y) && second(x, y), y, end) + row_tally(
            |x: int, y: int| first(x, y) || second(x, y),
            y,
            end,
        ) == row_tally(first, y, end) + row_tally(second, y, end),
    decreases end,
{
    if end > 0 {
        lemma_row_tally_split(first, second, y, end - 1);
    }
}

/// Over a grid, the positions where both predicates hold and those where
/// at least one holds add up to the two separate counts.
pub proof fn lemma_tally_split(
    first: spec_fn(int, int) -> bool,
    second: spec_fn(int, int) -> bool,
    width: int,
    rows: int,
)
    ensures
        tally(|x: int, y: int| first(x, y) && second(x, y), width, rows) + tally(
            |x: int, y: int| first(x, y) || second(x, y),
            width,
            rows,
        ) == tally(first, width, rows) + tally(second, width, rows),
    decreases rows,
{
    if rows > 0 {
        lemma_tally_split(first, second, width, rows - 1);
        lemma_row_tally_split(first, second, rows - 1, width);
    }
}

/// The predicate `hit`, read from `(x, y)` on: what it says of `(i, j)`
/// is what `hit` says of `(x + i, y + j)`.
pub open spec fn shifted(hit: spec_fn(int, int) -> bool, x: int, y: int) -> spec_fn(
    int,
    int,
) -> bool {
    |i: int, j: int| hit(x + i, y + j)
}

/// One more column and one more row count what each of them counts
/// alone, less what both count, and the corner.
pub proof fn lemma_tally_corner(hit: spec_fn(int, int) -> bool, x: int, y: int)
    requires
        0 <= x,
        0 <= y,
    ensures
        tally(hit, x + 1, y + 1) + tally(hit, x, y) == tally(hit, x + 1, y) + tally(hit, x, y + 1)
            + if hit(x, y) {
            1nat
        } else {
            0nat
        },
{
}

/// With no column or no row there is nothing to count.
pub proof fn lemma_tally_empty(hit: spec_fn(int, int) -> bool, width: int, rows: int)
    requires
        width <= 0 || rows <= 0,
    ensures
        tally(hit, width, rows) == 0,
    decreases rows,
{
    if rows > 0 {
        lemma_tally_empty(hit, width, rows - 1);
    }
}

/// The columns from `x` on count what the shifted predicate counts.
pub proof fn lemma_row_tally_window(
    hit: spec_fn(int, int) -> bool,
    x: int,
    y: int,
    row: int,
    width: int,
)
    requires
        0 <= x,
        0 <= width,
    ensures
        row_tally(hit, y + row, x + width) == row_tally(hit, y + row, x) + row_tally(
            shifted(hit, x, y),
            row,
            width,
        ),
    decreases width,
{
    if width > 0 {
        lemma_row_tally_window(hit, x, y, row, width - 1);
    }
}

/// A window counts what the four grids that end at its corners count,
/// the two on its diagonal added and the two others taken off.
pub proof fn lemma_tally_window(
    hit: spec_fn(int, int) -> bool,
    x: int,
    y: int,
    width: int,
    rows: int,
)
    requires
        0 <= x,
        0 <= y,
        0 <= width,
        0 <= rows,
    ensures
        tally(hit, x + width, y + rows) + tally(hit, x, y) == tally(hit, x, y + rows) + tally(
            hit,
            x + width,
            y,
        ) + tally(shifted(hit, x, y), width, rows),
    decreases rows,
{
    if rows > 0 {
        lemma_tally_window(hit, x, y, width, rows - 1);
        lemma_row_tally_window(hit, x, y, rows - 1, width);
    }
}

/// Sum of `value` over the columns `0..end` of row `y`.
pub open spec fn row_total(value: spec_fn(int, int) -> int, y: int, end: int) -> int
    decreases end,
{
    if end <= 0 {
        0
    } else {
        row_total(value, y, end - 1) + value(end - 1, y)
    }
}

/// Sum of `value` over the positions `(x, y)` with `0 <= x < width` and
/// `0 <= y < rows`.
pub open spec fn total(value: spec_fn(int, int) -> int, width: int, rows: int) -> int
    decreases rows,
{
    if rows <= 0 {
        0
    } else {
        total(value, width, rows - 1) + row_total(value, rows - 1, width)
    }
}

/// A row of terms that each stay within `limit` sums to at most `limit`
/// per column, in either direction.
pub proof fn lemma_row_total_bound(value: spec_fn(int, int) -> int, y: int, end: int, limit: int)
    requires
        0 <= end,
        forall|x: int| 0 <= x < end ==> -limit <= #[trigger] value(x, y) <= limit,
    ensures
        -(limit * end) <= row_total(value, y, end) <= limit * end,
    decreases end,
{
    if end > 0 {
        lemma_row_total_bound(value, y, end - 1, limit);
        assert(limit * (end - 1) + limit == limit * end) by (nonlinear_arith);
    } else {
        assert(limit * end == 0) by (nonlinear_arith)
            requires
                end == 0,
        ;
    }
}

/// A grid of terms that each stay within `limit` sums to at most `limit`
/// per position, in either direction.
pub proof fn lemma_total_bound(
    value: spec_fn(int, int) -> int,
    width: int,
    rows: int,
    limit: int,
)
    requires
        0 <= width,
        0 <= rows,
        forall|x: int, y: int|
            0 <= x < width && 0 <= y < rows ==> -limit <= #[trigger] value(x, y) <= limit,
    ensures
        -(limit * (width * rows)) <= total(value, width, rows) <= limit * (width * rows),
    decreases rows,
{
    if rows > 0 {
        lemma_total_bound(value, width, rows - 1, limit);
        lemma_row_total_bound(value, rows - 1, width, limit);
        assert(limit * (width * (rows - 1)) + limit * width == limit * (width * rows))
            by (nonlinear_arith);
    } else {
        assert(limit * (width * rows) == 0) by (nonlinear_arith)
            requires
                rows == 0,
        ;
    }
}

/// Number of flags of the sequence that are not set.
pub open spec fn clear_count(flags: Seq<bool>) -> nat
    decreases flags.len(),
{
    if flags.len() == 0 {
        0
    } else {
        clear_count(flags.drop_last()) + if flags.last() {
            0nat
        } else {
            1nat
        }
    }
}

/// Setting a flag that was clear leaves one clear flag less.
pub proof fn lemma_clear_count_set(flags: Seq<bool>, k: int)
    requires
        0 <= k < flags.len(),
        !flags[k],
    ensures
        clear_count(flags.update(k, true)) + 1 == clear_count(flags),
    decreases flags.len(),
{
    let after = flags.update(k, true);
    if k == flags.len() - 1 {
        assert(after.drop_last() =~= flags.drop_last());
    } else {
        assert(after.drop_last() =~= flags.drop_last().update(k, true));
        lemma_clear_count_set(flags.drop_last(), k);
    }
}

} // verus!
