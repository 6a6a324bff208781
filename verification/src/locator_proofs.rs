use vstd::prelude::*;
use crate::grid::{Grid, precedes};
use crate::locator::{
    Rating, is_best_match, is_position, is_score_ppm, rating, rating_le, rating_of,
    shared_edges, shared_mask, signed_square, spread, template_cells, template_edges,
    template_mask, window_edges, window_mask,
};
use crate::tally::{
    lemma_tally_agree, lemma_tally_bound, lemma_tally_le, lemma_tally_some, lemma_tally_split,
    lemma_tally_tight,
};

verus! {

/// The frame is blank except for one copy of the template, whose origin
/// lies at `(x0, y0)`.
pub open spec fn shows_only(frame: Grid<bool>, tpl: Grid<bool>, x0: int, y0: int) -> bool {
    &&& is_position(frame, tpl, x0, y0)
    &&& forall|x: int, y: int|
        frame.contains(x, y) ==> #[trigger] frame.at(x, y) == (tpl.contains(x - x0, y - y0)
            && tpl.at(x - x0, y - y0))
}

/// The counts of any window lie within the bounds that sets of cells obey:
/// the shared edges are edges of both patches, and the two patches
/// together cover no more cells than there are.
pub proof fn lemma_counts_are_consistent(frame: Grid<bool>, tpl: Grid<bool>, x: int, y: int)
    ensures
        shared_edges(frame, tpl, x, y) <= template_edges(tpl) <= template_cells(tpl),
        shared_edges(frame, tpl, x, y) <= window_edges(frame, tpl, x, y) <= template_cells(tpl),
        template_edges(tpl) + window_edges(frame, tpl, x, y) <= template_cells(tpl) + shared_edges(
            frame,
            tpl,
            x,
            y,
        ),
{
    let w = tpl.width as int;
    let h = tpl.height as int;
    let own = template_mask(tpl);
    let seen = window_mask(frame, x, y);
    let both = shared_mask(frame, tpl, x, y);
    let joint = |i: int, j: int| own(i, j) && seen(i, j);
    let either = |i: int, j: int| own(i, j) || seen(i, j);
    lemma_tally_le(both, own, w, h);
    lemma_tally_le(both, seen, w, h);
    lemma_tally_bound(own, w, h);
    lemma_tally_bound(seen, w, h);
    lemma_tally_bound(either, w, h);
    lemma_tally_split(own, seen, w, h);
    lemma_tally_agree(both, joint, w, h);
}

/// The square of the covariance of two binary patches never exceeds the
/// product of their variances.
pub proof fn lemma_covariance_bound(cells: int, own: int, other: int, shared: int)
    requires
        0 <= shared <= own <= cells,
        shared <= other <= cells,
        own + other <= cells + shared,
    ensures
        ({
            let num = cells * shared - own * other;
            num * num <= spread(cells, own) * spread(cells, other)
        }),
{
    let num = cells * shared - own * other;
    if num >= 0 {
        let p = own * (cells - other);
        let q = other * (cells - own);
        assert(num <= p) by (nonlinear_arith)
            requires
                num == cells * shared - own * other,
                p == own * (cells - other),
                shared <= own,
                cells >= 0,
        ;
        assert(num <= q) by (nonlinear_arith)
            requires
                num == cells * shared - own * other,
                q == other * (cells - own),
                shared <= other,
                cells >= 0,
        ;
        assert(num * num <= p * q) by (nonlinear_arith)
            requires
                0 <= num <= p,
                num <= q,
        ;
        assert(p * q == spread(cells, own) * spread(cells, other)) by (nonlinear_arith)
            requires
                p == own * (cells - other),
                q == other * (cells - own),
        ;
    } else {
        let m = -num;
        let p = own * other;
        let q = (cells - own) * (cells - other);
        assert(m <= p) by (nonlinear_arith)
            requires
                m == own * other - cells * shared,
                p == own * other,
                shared >= 0,
                cells >= 0,
        ;
        assert(m <= q) by (nonlinear_arith)
            requires
                m == own * other - cells * shared,
                q == (cells - own) * (cells - other),
                own + other <= cells + shared,
                cells >= 0,
        ;
        assert(m * m <= p * q) by (nonlinear_arith)
            requires
                0 <= m <= p,
                m <= q,
        ;
        assert(p * q == spread(cells, own) * spread(cells, other)) by (nonlinear_arith)
            requires
                p == own * other,
                q == (cells - own) * (cells - other),
        ;
        assert(num * num == m * m) by (nonlinear_arith)
            requires
                m == -num,
        ;
    }
}

/// The score of every window lies between minus one and one: in
/// millionths, between `-1_000_000` and `1_000_000`.
pub proof fn lemma_score_is_normalized(
    frame: Grid<bool>,
    tpl: Grid<bool>,
    x: int,
    y: int,
    score: int,
)
    requires
        is_score_ppm(score, rating(frame, tpl, x, y)),
    ensures
        -1_000_000 <= score <= 1_000_000,
{
    let cells = template_cells(tpl) as int;
    let own = template_edges(tpl) as int;
    let other = window_edges(frame, tpl, x, y) as int;
    let shared = shared_edges(frame, tpl, x, y) as int;
    lemma_counts_are_consistent(frame, tpl, x, y);
    lemma_covariance_bound(cells, own, other, shared);
    let r = rating(frame, tpl, x, y);
    assert(r == rating_of(cells, own, other, shared));
    assert(r.den > 0 && r.num * r.num <= r.den) by {
        assert(spread(cells, own) * spread(cells, other) >= 0) by (nonlinear_arith)
            requires
                0 <= own <= cells,
                0 <= other <= cells,
        ;
    }
    let magnitude = if score >= 0 {
        score
    } else {
        -score
    };
    let quotient = (r.num * r.num * 1_000_000_000_000) / r.den;
    assert(r.num * r.num >= 0) by (nonlinear_arith);
    assert(quotient <= 1_000_000_000_000) by (nonlinear_arith)
        requires
            quotient == (r.num * r.num * 1_000_000_000_000) / r.den,
            r.den > 0,
            0 <= r.num * r.num <= r.den,
    ;
    assert(magnitude <= 1_000_000) by (nonlinear_arith)
        requires
            magnitude * magnitude <= quotient,
            quotient <= 1_000_000_000_000,
            magnitude >= 0,
    ;
}

/// There is one best match: two positions that both are the first with
/// the largest score are the same position.
pub proof fn lemma_best_match_is_unique(
    frame: Grid<bool>,
    tpl: Grid<bool>,
    x1: int,
    y1: int,
    x2: int,
    y2: int,
)
    requires
        is_best_match(frame, tpl, x1, y1),
        is_best_match(frame, tpl, x2, y2),
    ensures
        x1 == x2,
        y1 == y2,
{
    let first = rating(frame, tpl, x1, y1);
    let second = rating(frame, tpl, x2, y2);
    assert(rating_le(first, second));
    assert(rating_le(second, first));
    if precedes(x1, y1, x2, y2) {
        assert(!rating_le(second, first));
    } else if precedes(x2, y2, x1, y1) {
        assert(!rating_le(first, second));
    }
}

/// The rating of every window has a positive denominator.
pub proof fn lemma_rating_den_is_positive(frame: Grid<bool>, tpl: Grid<bool>, x: int, y: int)
    ensures
        rating(frame, tpl, x, y).den > 0,
{
    lemma_counts_are_consistent(frame, tpl, x, y);
    let cells = template_cells(tpl) as int;
    let own = template_edges(tpl) as int;
    let other = window_edges(frame, tpl, x, y) as int;
    assert(spread(cells, own) * spread(cells, other) >= 0) by (nonlinear_arith)
        requires
            0 <= own <= cells,
            0 <= other <= cells,
    ;
}

/// The score in millionths is determined by the rating.
pub proof fn lemma_score_is_unique(r: Rating, first: int, second: int)
    requires
        r.den > 0,
        is_score_ppm(first, r),
        is_score_ppm(second, r),
    ensures
        first == second,
{
    let q = (r.num * r.num * 1_000_000_000_000) / r.den;
    let a = if first >= 0 {
        first
    } else {
        -first
    };
    let b = if second >= 0 {
        second
    } else {
        -second
    };
    assert(a == b) by (nonlinear_arith)
        requires
            0 <= a,
            0 <= b,
            a * a <= q < (a + 1) * (a + 1),
            b * b <= q < (b + 1) * (b + 1),
    ;
}

/// A copy of a pattern that is shifted against the pattern and cut off at
/// its border cannot equal the pattern, unless the pattern is blank: an
/// edge cell would have to recur ever further along the shift.
proof fn lemma_shifted_copy_differs(tpl: Grid<bool>, dx: int, dy: int, i: int, j: int, steps: nat)
    requires
        tpl.contains(i, j),
        tpl.at(i, j),
        forall|a: int, b: int|
            tpl.contains(a, b) ==> #[trigger] tpl.at(a, b) == (tpl.contains(a + dx, b + dy)
                && tpl.at(a + dx, b + dy)),
    ensures
        tpl.contains(i + steps * dx, j + steps * dy),
        tpl.at(i + steps * dx, j + steps * dy),
    decreases steps,
{
    if steps == 0 {
        assert(steps * dx == 0 && steps * dy == 0) by (nonlinear_arith)
            requires
                steps == 0,
        ;
    } else {
        lemma_shifted_copy_differs(tpl, dx, dy, i, j, (steps - 1) as nat);
        let a = i + (steps - 1) * dx;
        let b = j + (steps - 1) * dy;
        assert(tpl.at(a, b));
        assert(a + dx == i + steps * dx) by (nonlinear_arith)
            requires
                a == i + (steps - 1) * dx,
        ;
        assert(b + dy == j + steps * dy) by (nonlinear_arith)
            requires
                b == j + (steps - 1) * dy,
        ;
    }
}

/// In a frame that shows only the template, the window at the place of
/// the copy scores higher than every other window, provided the template
/// has both an edge and a cell without one.
proof fn lemma_copy_outscores(
    frame: Grid<bool>,
    tpl: Grid<bool>,
    x0: int,
    y0: int,
    x: int,
    y: int,
)
    requires
        shows_only(frame, tpl, x0, y0),
        0 < template_edges(tpl) < template_cells(tpl),
        is_position(frame, tpl, x, y),
        x != x0 || y != y0,
    ensures
        !rating_le(rating(frame, tpl, x0, y0), rating(frame, tpl, x, y)),
{
    let w = tpl.width as int;
    let h = tpl.height as int;
    let cells = template_cells(tpl) as int;
    let own = template_edges(tpl) as int;
    lemma_rating_of_copy(frame, tpl, x0, y0);
    let s = spread(cells, own);
    assert(s > 0) by (nonlinear_arith)
        requires
            s == own * (cells - own),
            0 < own < cells,
    ;
    let other = window_edges(frame, tpl, x, y) as int;
    let shared = shared_edges(frame, tpl, x, y) as int;
    lemma_counts_are_consistent(frame, tpl, x, y);
    let d = spread(cells, other);
    let num = cells * shared - own * other;
    let here = rating(frame, tpl, x, y);
    let there = rating(frame, tpl, x0, y0);
    assert(there.num == s && there.den == s * s);
    assert(signed_square(s) == s * s);
    assert(s * s > 0) by (nonlinear_arith)
        requires
            s > 0,
    ;
    if s * d == 0 {
        assert(here.num == 0 && here.den == 1);
        assert(signed_square(0) == 0);
        assert((s * s) * 1 > 0 * (s * s));
    } else {
        assert(d > 0) by (nonlinear_arith)
            requires
                s * d != 0,
                d == other * (cells - other),
                0 <= other <= cells,
        ;
        assert(here.num == num && here.den == s * d);
        if num > 0 {
            let p = own * (cells - other);
            let q = other * (cells - own);
            assert(num <= p) by (nonlinear_arith)
                requires
                    num == cells * shared - own * other,
                    p == own * (cells - other),
                    shared <= own,
                    cells >= 0,
            ;
            assert(num <= q) by (nonlinear_arith)
                requires
                    num == cells * shared - own * other,
                    q == other * (cells - own),
                    shared <= other,
                    cells >= 0,
            ;
            assert(p * q == s * d) by (nonlinear_arith)
                requires
                    p == own * (cells - other),
                    q == other * (cells - own),
                    s == own * (cells - own),
                    d == other * (cells - other),
            ;
            if shared == own && shared == other {
                lemma_window_equals_template(frame, tpl, x, y);
                lemma_tally_some(template_mask(tpl), w, h);
                let cell = choose|a: int, b: int|
                    0 <= a < w && 0 <= b < h && #[trigger] template_mask(tpl)(a, b);
                let dx = x - x0;
                let dy = y - y0;
                assert forall|a: int, b: int| tpl.contains(a, b) implies #[trigger] tpl.at(a, b)
                    == (tpl.contains(a + dx, b + dy) && tpl.at(a + dx, b + dy)) by {
                    assert(window_mask(frame, x, y)(a, b) == template_mask(tpl)(a, b));
                    assert(frame.contains(x + a, y + b));
                    assert(frame.at(x + a, y + b) == (tpl.contains(x + a - x0, y + b - y0)
                        && tpl.at(x + a - x0, y + b - y0)));
                }
                let steps = (w + h) as nat;
                lemma_shifted_copy_differs(tpl, dx, dy, cell.0, cell.1, steps);
                if dx != 0 {
                    assert(cell.0 + steps * dx >= w || cell.0 + steps * dx < 0)
                        by (nonlinear_arith)
                        requires
                            0 <= cell.0 < w,
                            steps >= w,
                            dx != 0,
                    ;
                } else {
                    assert(cell.1 + steps * dy >= h || cell.1 + steps * dy < 0)
                        by (nonlinear_arith)
                        requires
                            0 <= cell.1 < h,
                            steps >= h,
                            dy != 0,
                    ;
                }
                assert(false);
            }
            assert(num < p || num < q) by (nonlinear_arith)
                requires
                    num == cells * shared - own * other,
                    p == own * (cells - other),
                    q == other * (cells - own),
                    shared < own || shared < other,
                    cells > 0,
            ;
            assert(num * num < p * q) by (nonlinear_arith)
                requires
                    0 < num <= p,
                    num <= q,
                    num < p || num < q,
            ;
            assert(signed_square(num) == num * num);
        } else {
            assert(signed_square(num) <= 0) by (nonlinear_arith)
                requires
                    num <= 0,
                    signed_square(num) == if num >= 0 {
                        num * num
                    } else {
                        -(num * num)
                    },
            ;
            assert(s * d > 0) by (nonlinear_arith)
                requires
                    s > 0,
                    d > 0,
            ;
        }
        assert(signed_square(num) < s * d);
        assert((s * s) * (s * d) > signed_square(num) * (s * s)) by (nonlinear_arith)
            requires
                signed_square(num) < s * d,
                s * s > 0,
        ;
    }
}

/// A window that has as many edges as the template, all of them shared,
/// equals the template cell by cell.
proof fn lemma_window_equals_template(frame: Grid<bool>, tpl: Grid<bool>, x: int, y: int)
    requires
        shared_edges(frame, tpl, x, y) == template_edges(tpl),
        shared_edges(frame, tpl, x, y) == window_edges(frame, tpl, x, y),
    ensures
        forall|i: int, j: int|
            0 <= i < tpl.width && 0 <= j < tpl.height ==> #[trigger] window_mask(frame, x, y)(
                i,
                j,
            ) == template_mask(tpl)(i, j),
{
    let w = tpl.width as int;
    let h = tpl.height as int;
    lemma_tally_tight(shared_mask(frame, tpl, x, y), template_mask(tpl), w, h);
    lemma_tally_tight(shared_mask(frame, tpl, x, y), window_mask(frame, x, y), w, h);
    assert forall|i: int, j: int| 0 <= i < w && 0 <= j < h implies #[trigger] window_mask(
        frame,
        x,
        y,
    )(i, j) == template_mask(tpl)(i, j) by {
        if window_mask(frame, x, y)(i, j) {
            assert(shared_mask(frame, tpl, x, y)(i, j));
        }
        if template_mask(tpl)(i, j) {
            assert(shared_mask(frame, tpl, x, y)(i, j));
        }
    }
}

/// In a frame that shows only the template, the window at the place of
/// the copy has the counts of the template itself.
proof fn lemma_rating_of_copy(frame: Grid<bool>, tpl: Grid<bool>, x0: int, y0: int)
    requires
        shows_only(frame, tpl, x0, y0),
    ensures
        window_edges(frame, tpl, x0, y0) == template_edges(tpl),
        shared_edges(frame, tpl, x0, y0) == template_edges(tpl),
        template_edges(tpl) <= template_cells(tpl),
        ({
            let s = spread(template_cells(tpl) as int, template_edges(tpl) as int);
            s != 0 ==> rating(frame, tpl, x0, y0) == (Rating {
                num: s,
                den: s * s,
            })
        }),
{
    let w = tpl.width as int;
    let h = tpl.height as int;
    assert forall|i: int, j: int| 0 <= i < w && 0 <= j < h implies #[trigger] window_mask(
        frame,
        x0,
        y0,
    )(i, j) == template_mask(tpl)(i, j) by {
        assert(frame.contains(x0 + i, y0 + j));
        assert(frame.at(x0 + i, y0 + j) == (tpl.contains(x0 + i - x0, y0 + j - y0) && tpl.at(
            x0 + i - x0,
            y0 + j - y0,
        )));
    }
    lemma_tally_agree(window_mask(frame, x0, y0), template_mask(tpl), w, h);
    assert forall|i: int, j: int| 0 <= i < w && 0 <= j < h implies #[trigger] shared_mask(
        frame,
        tpl,
        x0,
        y0,
    )(i, j) == template_mask(tpl)(i, j) by {
        assert(window_mask(frame, x0, y0)(i, j) == template_mask(tpl)(i, j));
    }
    lemma_tally_agree(shared_mask(frame, tpl, x0, y0), template_mask(tpl), w, h);
    lemma_tally_bound(template_mask(tpl), w, h);
    let cells = template_cells(tpl) as int;
    let own = template_edges(tpl) as int;
    let s = spread(cells, own);
    assert(cells * own - own * own == s) by (nonlinear_arith)
        requires
            s == own * (cells - own),
    ;
    assert(s != 0 ==> s * s != 0) by (nonlinear_arith);
}

/// A template that is pasted unchanged onto a blank frame is found where
/// it was pasted, with a correlation of exactly one, provided the template
/// has both an edge and a cell without one.
pub proof fn lemma_pasted_template_is_found(
    frame: Grid<bool>,
    tpl: Grid<bool>,
    x0: int,
    y0: int,
    x: int,
    y: int,
    score: int,
)
    requires
        shows_only(frame, tpl, x0, y0),
        0 < template_edges(tpl) < template_cells(tpl),
        is_best_match(frame, tpl, x, y),
        is_score_ppm(score, rating(frame, tpl, x, y)),
    ensures
        x == x0,
        y == y0,
        score == 1_000_000,
{
    if x != x0 || y != y0 {
        lemma_copy_outscores(frame, tpl, x0, y0, x, y);
        assert(rating_le(rating(frame, tpl, x0, y0), rating(frame, tpl, x, y)));
    }
    lemma_rating_of_copy(frame, tpl, x0, y0);
    let cells = template_cells(tpl) as int;
    let own = template_edges(tpl) as int;
    let s = spread(cells, own);
    assert(s > 0) by (nonlinear_arith)
        requires
            s == own * (cells - own),
            0 < own < cells,
    ;
    let r = rating(frame, tpl, x, y);
    assert(r.num == s && r.den == s * s);
    let quotient = (r.num * r.num * 1_000_000_000_000) / r.den;
    assert(quotient == 1_000_000_000_000) by (nonlinear_arith)
        requires
            quotient == (s * s * 1_000_000_000_000) / (s * s),
            s > 0,
    ;
    assert(score >= 0);
    assert(score == 1_000_000) by (nonlinear_arith)
        requires
            score >= 0,
            score * score <= 1_000_000_000_000 < (score + 1) * (score + 1),
    ;
}

} // verus!
