use vstd::prelude::*;
use crate::edge_map::EdgeMap;
use crate::error::DetectionError;
use crate::frame::Region;
use crate::grid::{Grid, precedes};
use crate::locator_proofs::{
    lemma_counts_are_consistent, lemma_covariance_bound, lemma_rating_den_is_positive,
};
use crate::tally::{tally, row_tally, lemma_tally_bound, lemma_row_tally_bound};
use crate::wide::{product, scale};
use crate::windows::{count_shared, count_window, is_running_count, running_count, trace_outline};

verus! {

/// The value of `score_ppm` that stands for a correlation of one.
pub const SCORE_SCALE: i64 = 1_000_000;

/// Where the template fits best, and how well.
#[derive(Debug, Clone, Copy, PartialEq, Eq, Structural)]
pub struct MatchResult {
    /// Column of the left edge of the best window.
    pub x: u32,
    /// Row of the top edge of the best window.
    pub y: u32,
    /// Normalized correlation at that window in millionths, rounded
    /// toward zero: between `-SCORE_SCALE` and `SCORE_SCALE`.
    pub score_ppm: i64,
}

impl MatchResult {
    /// The window of the match: its origin, with the given dimensions.
    pub open spec fn spec_region(&self, width: u32, height: u32) -> Region {
        Region { x: self.x, y: self.y, width, height }
    }

    /// The window of the match, for a template of the given dimensions.
    #[verifier::when_used_as_spec(spec_region)]
    pub fn region(&self, width: u32, height: u32) -> (r: Region)
        ensures
            r == self.spec_region(width, height),
    {
        Region { x: self.x, y: self.y, width, height }
    }

    /// Tells whether the score reaches `floor_ppm`, a floor in millionths.
    pub fn reaches(&self, floor_ppm: i64) -> (r: bool)
        ensures
            r == (self.score_ppm >= floor_ppm),
    {
        self.score_ppm >= floor_ppm
    }
}

/// The edge flags of a template, by position.
pub open spec fn template_mask(tpl: Grid<bool>) -> spec_fn(int, int) -> bool {
    |i: int, j: int| tpl.at(i, j)
}

/// The edge flags of the frame window whose origin is `(x, y)`, by position
/// relative to that origin.
pub open spec fn window_mask(frame: Grid<bool>, x: int, y: int) -> spec_fn(int, int) -> bool {
    |i: int, j: int| frame.at(x + i, y + j)
}

/// The positions at which both the template and the window at `(x, y)`
/// have an edge.
pub open spec fn shared_mask(frame: Grid<bool>, tpl: Grid<bool>, x: int, y: int) -> spec_fn(
    int,
    int,
) -> bool {
    |i: int, j: int| tpl.at(i, j) && frame.at(x + i, y + j)
}

/// Number of cells of the template.
pub open spec fn template_cells(tpl: Grid<bool>) -> nat {
    tpl.width * tpl.height
}

/// Number of edge cells of the template.
pub open spec fn template_edges(tpl: Grid<bool>) -> nat {
    tally(template_mask(tpl), tpl.width as int, tpl.height as int)
}

/// Number of edge cells of the frame window at `(x, y)`.
pub open spec fn window_edges(frame: Grid<bool>, tpl: Grid<bool>, x: int, y: int) -> nat {
    tally(window_mask(frame, x, y), tpl.width as int, tpl.height as int)
}

/// Number of cells that are an edge in both the template and the window at `(x, y)`.
pub open spec fn shared_edges(frame: Grid<bool>, tpl: Grid<bool>, x: int, y: int) -> nat {
    tally(shared_mask(frame, tpl, x, y), tpl.width as int, tpl.height as int)
}

/// A correlation score, kept exact: the score is `num / sqrt(den)`, and
/// `den` is positive.
pub struct Rating {
    /// The covariance of the two patches, up to a positive factor.
    pub num: int,
    /// The product of their variances, up to the square of that factor.
    pub den: int,
}

/// Variance of `cells` flags of which `edges` are set, times `cells` squared.
pub open spec fn spread(cells: int, edges: int) -> int {
    edges * (cells - edges)
}

/// Normalized cross-correlation of two binary patches of `cells` cells: one
/// with `own` edges, the other with `other` edges, `shared` of them common.
///
/// With the means taken off, the covariance is
/// `(cells * shared - own * other) / cells^2` and the variances are
/// `spread / cells^2`; the powers of `cells` cancel in the quotient. A patch
/// without variance correlates with nothing: the score is then zero.
pub open spec fn rating_of(cells: int, own: int, other: int, shared: int) -> Rating {
    let den = spread(cells, own) * spread(cells, other);
    if den == 0 {
        Rating { num: 0, den: 1 }
    } else {
        Rating { num: cells * shared - own * other, den }
    }
}

/// Score of the template against the frame window at `(x, y)`.
pub open spec fn rating(frame: Grid<bool>, tpl: Grid<bool>, x: int, y: int) -> Rating {
    rating_of(
        template_cells(tpl) as int,
        template_edges(tpl) as int,
        window_edges(frame, tpl, x, y) as int,
        shared_edges(frame, tpl, x, y) as int,
    )
}

/// `v * |v|`: a square that keeps the sign.
pub open spec fn signed_square(v: int) -> int {
    if v >= 0 {
        v * v
    } else {
        -(v * v)
    }
}

/// The score of `a` is at most the score of `b`.
///
/// `num / sqrt(den)` grows with `num * |num| / den`, and two such quotients
/// with positive denominators compare as their cross products do.
pub open spec fn rating_le(a: Rating, b: Rating) -> bool {
    signed_square(a.num) * b.den <= signed_square(b.num) * a.den
}

/// The template, placed with its origin at `(x, y)`, lies inside the frame.
pub open spec fn is_position(frame: Grid<bool>, tpl: Grid<bool>, x: int, y: int) -> bool {
    0 <= x && x + tpl.width <= frame.width && 0 <= y && y + tpl.height <= frame.height
}

/// `(x, y)` is the first position, row by row, at which the score is largest.
pub open spec fn is_best_match(frame: Grid<bool>, tpl: Grid<bool>, x: int, y: int) -> bool {
    &&& is_position(frame, tpl, x, y)
    &&& forall|qx: int, qy: int|
        is_position(frame, tpl, qx, qy) ==> rating_le(
            #[trigger] rating(frame, tpl, qx, qy),
            rating(frame, tpl, x, y),
        )
    &&& forall|qx: int, qy: int|
        is_position(frame, tpl, qx, qy) && precedes(qx, qy, x, y) ==> !rating_le(
            rating(frame, tpl, x, y),
            #[trigger] rating(frame, tpl, qx, qy),
        )
}

/// `root` is the square root of `value`, rounded down.
pub open spec fn is_floor_sqrt(root: int, value: int) -> bool {
    0 <= root && root * root <= value < (root + 1) * (root + 1)
}

/// `score` is the rating in millionths, rounded toward zero.
pub open spec fn is_score_ppm(score: int, r: Rating) -> bool {
    let magnitude = if score >= 0 {
        score
    } else {
        -score
    };
    &&& r.num >= 0 ==> score >= 0
    &&& r.num <= 0 ==> score <= 0
    &&& is_floor_sqrt(magnitude, (r.num * r.num * 1_000_000_000_000) / r.den)
}

/// The reason why a template cannot be matched against a frame of the
/// given dimensions, if there is one.
pub open spec fn match_fault(width: nat, height: nat, tpl: Grid<bool>) -> Option<DetectionError> {
    if tpl.width > width || tpl.height > height {
        Some(DetectionError::TemplateLargerThanFrame)
    } else {
        None
    }
}

/// Counts the edge cells of a template.
fn count_edges(tpl: &EdgeMap) -> (count: u64)
    ensures
        count == template_edges(tpl@),
        count <= template_cells(tpl@),
{
    let width = tpl.width();
    let height = tpl.height();
    let ghost mask = template_mask(tpl@);
    let mut count: u64 = 0;
    let mut j: u32 = 0;
    while j < height
        invariant
            j <= height,
            tpl@.width == width,
            tpl@.height == height,
            mask == template_mask(tpl@),
            count == tally(mask, width as int, j as int),
        decreases height - j,
    {
        let mut i: u32 = 0;
        while i < width
            invariant
                j < height,
                i <= width,
                tpl@.width == width,
                tpl@.height == height,
                mask == template_mask(tpl@),
                count == tally(mask, width as int, j as int) + row_tally(mask, j as int, i as int),
            decreases width - i,
        {
            proof {
                lemma_tally_bound(mask, width as int, j as int);
                lemma_row_tally_bound(mask, j as int, i as int);
                assert(width * j + i < u64::MAX) by (nonlinear_arith)
                    requires
                        width <= u32::MAX,
                        j < u32::MAX,
                        i < u32::MAX,
                ;
            }
            if tpl.cell(i, j) {
                count = count + 1;
            }
            i = i + 1;
        }
        j = j + 1;
    }
    proof {
        lemma_tally_bound(mask, width as int, height as int);
    }
    count
}

/// What the search keeps of a window: its score is `weight / spread`
/// under the monotone map that `rating_le` compares by, with the factor
/// that all windows of one search share left out. The weight is the
/// square of `size`, with the sign that `negative` gives.
struct Candidate {
    negative: bool,
    size: u128,
    spread: u128,
}

impl Candidate {
    /// The covariance of the window, squared, with its sign kept.
    spec fn weight(self) -> int {
        if self.negative {
            -(self.size * self.size)
        } else {
            self.size * self.size
        }
    }

    /// The spread is positive, and a weight below zero is not zero.
    spec fn sound(self) -> bool {
        self.spread > 0 && (self.negative ==> self.size > 0)
    }
}

/// The candidate that stands for a window with the given counts.
spec fn candidate_of(cells: int, own: int, other: int, shared: int) -> (int, int) {
    if spread(cells, own) * spread(cells, other) == 0 {
        (0, 1)
    } else {
        (signed_square(cells * shared - own * other), spread(cells, other))
    }
}

/// The counts of a window lie within the size of the template.
spec fn counts_fit(cells: int, own: int, other: int, shared: int) -> bool {
    &&& 0 <= cells <= u64::MAX
    &&& 0 <= own <= cells
    &&& 0 <= other <= cells
    &&& 0 <= shared <= cells
}

/// Candidates compare as the ratings they stand for.
proof fn lemma_candidate_order(
    cells: int,
    own: int,
    other1: int,
    shared1: int,
    other2: int,
    shared2: int,
)
    requires
        counts_fit(cells, own, other1, shared1),
        counts_fit(cells, own, other2, shared2),
    ensures
        ({
            let c1 = candidate_of(cells, own, other1, shared1);
            let c2 = candidate_of(cells, own, other2, shared2);
            (c1.0 * c2.1 <= c2.0 * c1.1) == rating_le(
                rating_of(cells, own, other1, shared1),
                rating_of(cells, own, other2, shared2),
            )
        }),
{
    let s = spread(cells, own);
    let d1 = spread(cells, other1);
    let d2 = spread(cells, other2);
    let w1 = signed_square(cells * shared1 - own * other1);
    let w2 = signed_square(cells * shared2 - own * other2);
    assert(s >= 0 && d1 >= 0 && d2 >= 0) by (nonlinear_arith)
        requires
            s == own * (cells - own),
            d1 == other1 * (cells - other1),
            d2 == other2 * (cells - other2),
            0 <= own <= cells,
            0 <= other1 <= cells,
            0 <= other2 <= cells,
    ;
    if s * d1 != 0 && s * d2 != 0 {
        assert(s > 0 && d1 > 0 && d2 > 0) by (nonlinear_arith)
            requires
                s >= 0,
                d1 >= 0,
                d2 >= 0,
                s * d1 != 0,
                s * d2 != 0,
        ;
        assert((w1 * d2 <= w2 * d1) == (w1 * (s * d2) <= w2 * (s * d1))) by (nonlinear_arith)
            requires
                s > 0,
        ;
    } else if s * d1 != 0 {
        assert(signed_square(0) == 0);
        assert(0 * (s * d1) == 0 && 0 * d1 == 0);
        assert(w1 * 1 == w1);
    } else if s * d2 != 0 {
        assert(signed_square(0) == 0);
        assert(0 * (s * d2) == 0 && 0 * d2 == 0);
        assert(w2 * 1 == w2);
    }
}

/// The order of ratings is transitive.
proof fn lemma_rating_le_transitive(a: Rating, b: Rating, c: Rating)
    requires
        a.den > 0,
        b.den > 0,
        c.den > 0,
        rating_le(a, b),
        rating_le(b, c),
    ensures
        rating_le(a, c),
{
    let x = signed_square(a.num);
    let y = signed_square(b.num);
    let z = signed_square(c.num);
    let p = a.den;
    let q = b.den;
    let r = c.den;
    assert(x * r <= z * p) by (nonlinear_arith)
        requires
            p > 0,
            q > 0,
            r > 0,
            x * q <= y * p,
            y * r <= z * q,
    {
        assert((x * q) * r <= (y * p) * r);
        assert((y * r) * p <= (z * q) * p);
        assert((x * r) * q <= (z * p) * q);
    }
}

/// Computes the candidate of a window from its counts.
fn weigh(cells: u64, own: u64, other: u64, shared: u64) -> (c: Candidate)
    requires
        counts_fit(cells as int, own as int, other as int, shared as int),
    ensures
        (c.weight(), c.spread as int) == candidate_of(
            cells as int,
            own as int,
            other as int,
            shared as int,
        ),
        c.sound(),
{
    proof {
        lemma_counts_in_limbs(cells as int, own as int, other as int, shared as int);
    }
    let own_spread: u128 = (own as u128) * ((cells - own) as u128);
    let other_spread: u128 = (other as u128) * ((cells - other) as u128);
    if own_spread == 0 || other_spread == 0 {
        assert(spread(cells as int, own as int) * spread(cells as int, other as int) == 0)
            by (nonlinear_arith)
            requires
                spread(cells as int, own as int) == 0 || spread(cells as int, other as int) == 0,
        ;
        assert(0 * 0 == 0);
        Candidate { negative: false, size: 0, spread: 1 }
    } else {
        assert(spread(cells as int, own as int) * spread(cells as int, other as int) != 0)
            by (nonlinear_arith)
            requires
                spread(cells as int, own as int) > 0,
                spread(cells as int, other as int) > 0,
        ;
        let gain: u128 = (cells as u128) * (shared as u128);
        let loss: u128 = (own as u128) * (other as u128);
        let negative = gain < loss;
        let size: u128 = if negative {
            loss - gain
        } else {
            gain - loss
        };
        proof {
            let num = cells * shared - own * other;
            assert(size * size == num * num) by (nonlinear_arith)
                requires
                    size == num || size == -num,
            ;
        }
        Candidate { negative, size, spread: other_spread }
    }
}

/// The products that the counts of a window enter fit in a limb.
proof fn lemma_counts_in_limbs(cells: int, own: int, other: int, shared: int)
    requires
        counts_fit(cells, own, other, shared),
    ensures
        0 <= own * (cells - own) <= u64::MAX * u64::MAX,
        0 <= other * (cells - other) <= u64::MAX * u64::MAX,
        0 <= cells * shared <= u64::MAX * u64::MAX,
        0 <= own * other <= u64::MAX * u64::MAX,
{
    assert(0 <= own * (cells - own) <= u64::MAX * u64::MAX && 0 <= other * (cells - other)
        <= u64::MAX * u64::MAX && 0 <= cells * shared <= u64::MAX * u64::MAX && 0 <= own * other
        <= u64::MAX * u64::MAX) by (nonlinear_arith)
        requires
            0 <= cells <= u64::MAX,
            0 <= own <= cells,
            0 <= other <= cells,
            0 <= shared <= cells,
    ;
}

/// Tells whether the score of `a` is at most the score of `b`.
fn at_most(a: &Candidate, b: &Candidate) -> (r: bool)
    requires
        a.sound(),
        b.sound(),
    ensures
        r == (a.weight() * b.spread <= b.weight() * a.spread),
{
    if a.negative != b.negative {
        proof {
            let below = if a.negative {
                *a
            } else {
                *b
            };
            let above = if a.negative {
                *b
            } else {
                *a
            };
            assert(below.weight() * above.spread < 0 <= above.weight() * below.spread)
                by (nonlinear_arith)
                requires
                    below.weight() == -(below.size * below.size),
                    below.size > 0,
                    above.weight() == above.size * above.size,
                    above.spread > 0,
                    below.spread > 0,
            ;
        }
        a.negative
    } else {
        let left = scale(product(a.size, a.size), b.spread);
        let right = scale(product(b.size, b.size), a.spread);
        if a.negative {
            proof {
                assert(a.weight() * b.spread == -left.value() && b.weight() * a.spread
                    == -right.value()) by (nonlinear_arith)
                    requires
                        a.weight() == -(a.size * a.size),
                        b.weight() == -(b.size * b.size),
                        left.value() == (a.size * a.size) * b.spread,
                        right.value() == (b.size * b.size) * a.spread,
                ;
            }
            right.at_most(&left)
        } else {
            left.at_most(&right)
        }
    }
}

/// Computes the score of a window in millionths from its counts.
///
/// No quotient is formed: the score is the largest number of millionths
/// whose square, times the variances, stays within the square of the
/// covariance times a million squared.
fn score_of(cells: u64, own: u64, other: u64, shared: u64) -> (score: i64)
    requires
        counts_fit(cells as int, own as int, other as int, shared as int),
        (cells * shared - own * other) * (cells * shared - own * other) <= spread(
            cells as int,
            own as int,
        ) * spread(cells as int, other as int),
    ensures
        is_score_ppm(
            score as int,
            rating_of(cells as int, own as int, other as int, shared as int),
        ),
        -SCORE_SCALE <= score <= SCORE_SCALE,
{
    proof {
        lemma_counts_in_limbs(cells as int, own as int, other as int, shared as int);
    }
    let own_spread: u128 = (own as u128) * ((cells - own) as u128);
    let other_spread: u128 = (other as u128) * ((cells - other) as u128);
    if own_spread == 0 || other_spread == 0 {
        assert(spread(cells as int, own as int) * spread(cells as int, other as int) == 0)
            by (nonlinear_arith)
            requires
                spread(cells as int, own as int) == 0 || spread(cells as int, other as int) == 0,
        ;
        return 0;
    }
    let gain: u128 = (cells as u128) * (shared as u128);
    let loss: u128 = (own as u128) * (other as u128);
    let negative = gain < loss;
    let size: u128 = if negative {
        loss - gain
    } else {
        gain - loss
    };
    let target = scale(product(size, size), 1_000_000_000_000);
    let variances = product(own_spread, other_spread);
    let ghost num = cells * shared - own * other;
    let ghost den = variances.value();
    let ghost goal = target.value();
    proof {
        assert(den > 0) by (nonlinear_arith)
            requires
                den == own_spread * other_spread,
                own_spread > 0,
                other_spread > 0,
        ;
        assert(size * size == num * num) by (nonlinear_arith)
            requires
                size == num || size == -num,
        ;
        assert(0 <= goal < (1_000_001 * 1_000_001) * den) by (nonlinear_arith)
            requires
                goal == (size * size) * 1_000_000_000_000,
                0 <= size * size <= den,
                den > 0,
        ;
    }
    let mut low: u64 = 0;
    let mut high: u64 = 1_000_001;
    assert((low * low) * den == 0) by (nonlinear_arith)
        requires
            low == 0,
    ;
    while high - low > 1
        invariant
            low < high <= 1_000_001,
            den == variances.value(),
            goal == target.value(),
            den > 0,
            (low * low) * den <= goal < (high * high) * den,
        decreases high - low,
    {
        let mid: u64 = low + (high - low) / 2;
        assert(mid * mid <= 1_000_001 * 1_000_001) by (nonlinear_arith)
            requires
                0 <= mid <= 1_000_001,
        ;
        let trial = scale(variances, (mid * mid) as u128);
        proof {
            assert(trial.value() == (mid * mid) * den) by (nonlinear_arith)
                requires
                    trial.value() == den * (mid * mid),
            ;
        }
        if trial.at_most(&target) {
            low = mid;
        } else {
            high = mid;
        }
    }
    proof {
        let quotient = (num * num * 1_000_000_000_000) / den;
        assert(goal == num * num * 1_000_000_000_000);
        assert(high == low + 1);
        lemma_root_from_products(low as int, goal, den);
        if num == 0 {
            assert(goal == 0) by (nonlinear_arith)
                requires
                    goal == num * num * 1_000_000_000_000,
                    num == 0,
            ;
            assert(low == 0) by (nonlinear_arith)
                requires
                    (low * low) * den <= goal,
                    goal == 0,
                    den > 0,
                    low >= 0,
            ;
        }
    }
    if negative {
        -(low as i64)
    } else {
        low as i64
    }
}

/// A number whose square, times a divisor, comes up to a dividend that
/// the square of the next number, times the divisor, exceeds is the
/// square root of the quotient, rounded down.
proof fn lemma_root_from_products(root: int, dividend: int, divisor: int)
    requires
        0 <= root,
        0 < divisor,
        (root * root) * divisor <= dividend < ((root + 1) * (root + 1)) * divisor,
    ensures
        is_floor_sqrt(root, dividend / divisor),
{
    let q = dividend / divisor;
    let r = dividend % divisor;
    assert(dividend == q * divisor + r && 0 <= r < divisor) by (nonlinear_arith)
        requires
            q == dividend / divisor,
            r == dividend % divisor,
            divisor > 0,
    ;
    assert(root * root <= q) by (nonlinear_arith)
        requires
            (root * root) * divisor <= q * divisor + r,
            0 <= r < divisor,
            divisor > 0,
    ;
    assert(q < (root + 1) * (root + 1)) by (nonlinear_arith)
        requires
            q * divisor + r < ((root + 1) * (root + 1)) * divisor,
            0 <= r < divisor,
            divisor > 0,
    ;
}

/// `(bx, by)` is the first position with the largest score among those
/// that come before `(x, y)`, row by row.
spec fn leads(frame: Grid<bool>, tpl: Grid<bool>, bx: int, by: int, x: int, y: int) -> bool {
    &&& is_position(frame, tpl, bx, by)
    &&& precedes(bx, by, x, y) || (bx == 0 && by == 0)
    &&& forall|qx: int, qy: int|
        is_position(frame, tpl, qx, qy) && precedes(qx, qy, x, y) ==> rating_le(
            #[trigger] rating(frame, tpl, qx, qy),
            rating(frame, tpl, bx, by),
        )
    &&& forall|qx: int, qy: int|
        is_position(frame, tpl, qx, qy) && precedes(qx, qy, x, y) && precedes(qx, qy, bx, by)
            ==> !rating_le(rating(frame, tpl, bx, by), #[trigger] rating(frame, tpl, qx, qy))
}

/// A window that beats the leader becomes the leader.
proof fn lemma_new_leader(frame: Grid<bool>, tpl: Grid<bool>, bx: int, by: int, x: int, y: int)
    requires
        leads(frame, tpl, bx, by, x, y),
        is_position(frame, tpl, x, y),
        !rating_le(rating(frame, tpl, x, y), rating(frame, tpl, bx, by)),
    ensures
        leads(frame, tpl, x, y, x + 1, y),
{
    let cur = rating(frame, tpl, x, y);
    let old_best = rating(frame, tpl, bx, by);
    lemma_rating_den_is_positive(frame, tpl, x, y);
    lemma_rating_den_is_positive(frame, tpl, bx, by);
    assert(rating_le(old_best, cur));
    assert forall|qx: int, qy: int|
        is_position(frame, tpl, qx, qy) && precedes(qx, qy, x + 1, y) implies rating_le(
        #[trigger] rating(frame, tpl, qx, qy),
        cur,
    ) by {
        lemma_rating_den_is_positive(frame, tpl, qx, qy);
        if precedes(qx, qy, x, y) {
            lemma_rating_le_transitive(rating(frame, tpl, qx, qy), old_best, cur);
        }
    }
    assert forall|qx: int, qy: int|
        is_position(frame, tpl, qx, qy) && precedes(qx, qy, x + 1, y) && precedes(
            qx,
            qy,
            x,
            y,
        ) implies !rating_le(cur, #[trigger] rating(frame, tpl, qx, qy)) by {
        lemma_rating_den_is_positive(frame, tpl, qx, qy);
        if rating_le(cur, rating(frame, tpl, qx, qy)) {
            lemma_rating_le_transitive(cur, rating(frame, tpl, qx, qy), old_best);
        }
    }
}

/// A window that does not beat the leader leaves the leader in place.
proof fn lemma_leader_stays(frame: Grid<bool>, tpl: Grid<bool>, bx: int, by: int, x: int, y: int)
    requires
        leads(frame, tpl, bx, by, x, y),
        is_position(frame, tpl, x, y),
        rating_le(rating(frame, tpl, x, y), rating(frame, tpl, bx, by)),
    ensures
        leads(frame, tpl, bx, by, x + 1, y),
{
}

/// Finds the window of the frame that correlates best with the template.
///
/// Fails exactly when the template is wider or taller than the frame.
/// Otherwise the position is the first one, row by row, at which the
/// normalized cross-correlation is largest; no floor is put on the score.
pub fn locate(frame: &EdgeMap, template: &EdgeMap) -> (r: Result<MatchResult, DetectionError>)
    ensures
        match r {
            Ok(found) => match_fault(frame@.width, frame@.height, template@) is None
                && is_best_match(
                frame@,
                template@,
                found.x as int,
                found.y as int,
            ) && is_score_ppm(
                found.score_ppm as int,
                rating(frame@, template@, found.x as int, found.y as int),
            ) && -SCORE_SCALE <= found.score_ppm <= SCORE_SCALE,
            Err(e) => match_fault(frame@.width, frame@.height, template@) == Some(e),
        },
{
    let width = template.width();
    let height = template.height();
    let frame_width = frame.width();
    let frame_height = frame.height();
    if width > frame_width || height > frame_height {
        return Err(DetectionError::TemplateLargerThanFrame);
    }
    assert(width * height <= u32::MAX * u32::MAX) by (nonlinear_arith)
        requires
            width <= u32::MAX,
            height <= u32::MAX,
    ;
    let cells: u64 = (width as u64) * (height as u64);
    let own = count_edges(template);
    let outline = trace_outline(template);
    let sums = running_count(frame);
    let last_x: u32 = frame_width - width;
    let last_y: u32 = frame_height - height;
    let first = (
        count_shared(frame, template, &outline, 0, 0),
        count_window(frame, template, &sums, 0, 0),
    );
    proof {
        lemma_counts_are_consistent(frame@, template@, 0, 0);
    }
    let mut best = weigh(cells, own, first.1, first.0);
    let mut best_x: u32 = 0;
    let mut best_y: u32 = 0;
    let mut best_counts = first;
    let mut y: u32 = 0;
    loop
        invariant_except_break
            y <= last_y,
            leads(frame@, template@, best_x as int, best_y as int, 0, y as int),
        invariant
            template@.width == width,
            template@.height == height,
            frame@.width == frame_width,
            frame@.height == frame_height,
            last_x == frame_width - width,
            last_y == frame_height - height,
            cells == template_cells(template@),
            outline@ == crate::windows::outline(template@, template@.height as int),
            forall|k: int|
                0 <= k < outline@.len() ==> template@.contains(
                    (#[trigger] outline@[k]).0 as int,
                    outline@[k].1 as int,
                ),
            is_running_count(sums@, frame@),
            own == template_edges(template@),
            own <= cells,
            is_position(frame@, template@, best_x as int, best_y as int),
            best_counts.0 == shared_edges(frame@, template@, best_x as int, best_y as int),
            best_counts.1 == window_edges(frame@, template@, best_x as int, best_y as int),
            best_counts.0 <= cells,
            best_counts.1 <= cells,
            (best.weight(), best.spread as int) == candidate_of(
                cells as int,
                own as int,
                best_counts.1 as int,
                best_counts.0 as int,
            ),
            best.sound(),
        ensures
            is_best_match(frame@, template@, best_x as int, best_y as int),
        decreases last_y - y,
    {
        let mut x: u32 = 0;
        loop
            invariant_except_break
                x <= last_x,
                leads(frame@, template@, best_x as int, best_y as int, x as int, y as int),
            invariant
                y <= last_y,
                template@.width == width,
                template@.height == height,
                frame@.width == frame_width,
                frame@.height == frame_height,
                last_x == frame_width - width,
                last_y == frame_height - height,
                cells == template_cells(template@),
                    outline@ == crate::windows::outline(template@, template@.height as int),
                forall|k: int|
                    0 <= k < outline@.len() ==> template@.contains(
                        (#[trigger] outline@[k]).0 as int,
                        outline@[k].1 as int,
                    ),
                is_running_count(sums@, frame@),
                own == template_edges(template@),
                own <= cells,
                is_position(frame@, template@, best_x as int, best_y as int),
                best_counts.0 == shared_edges(frame@, template@, best_x as int, best_y as int),
                best_counts.1 == window_edges(frame@, template@, best_x as int, best_y as int),
                best_counts.0 <= cells,
                best_counts.1 <= cells,
                (best.weight(), best.spread as int) == candidate_of(
                    cells as int,
                    own as int,
                    best_counts.1 as int,
                    best_counts.0 as int,
                ),
                best.sound(),
            ensures
                leads(frame@, template@, best_x as int, best_y as int, 0, y + 1),
            decreases last_x - x,
        {
            let counts = (
                count_shared(frame, template, &outline, x, y),
                count_window(frame, template, &sums, x, y),
            );
            proof {
                lemma_counts_are_consistent(frame@, template@, x as int, y as int);
            }
            let current = weigh(cells, own, counts.1, counts.0);
            proof {
                lemma_candidate_order(
                    cells as int,
                    own as int,
                    counts.1 as int,
                    counts.0 as int,
                    best_counts.1 as int,
                    best_counts.0 as int,
                );
            }
            if at_most(&current, &best) {
                proof {
                    lemma_leader_stays(
                        frame@,
                        template@,
                        best_x as int,
                        best_y as int,
                        x as int,
                        y as int,
                    );
                }
            } else {
                proof {
                    lemma_new_leader(
                        frame@,
                        template@,
                        best_x as int,
                        best_y as int,
                        x as int,
                        y as int,
                    );
                }
                best = current;
                best_x = x;
                best_y = y;
                best_counts = counts;
            }
            if x == last_x {
                proof {
                    lemma_row_done(
                        frame@,
                        template@,
                        best_x as int,
                        best_y as int,
                        x as int,
                        y as int,
                    );
                }
                break ;
            }
            x = x + 1;
        }
        if y == last_y {
            proof {
                lemma_search_done(frame@, template@, best_x as int, best_y as int, y as int);
            }
            break ;
        }
        y = y + 1;
    }
    proof {
        lemma_counts_are_consistent(frame@, template@, best_x as int, best_y as int);
        lemma_covariance_bound(
            cells as int,
            own as int,
            best_counts.1 as int,
            best_counts.0 as int,
        );
    }
    let score_ppm = score_of(cells, own, best_counts.1, best_counts.0);
    Ok(MatchResult { x: best_x, y: best_y, score_ppm })
}

/// Once the last position of a row was looked at, the search stands at the
/// start of the next row.
proof fn lemma_row_done(frame: Grid<bool>, tpl: Grid<bool>, bx: int, by: int, x: int, y: int)
    requires
        leads(frame, tpl, bx, by, x + 1, y),
        x + tpl.width == frame.width,
    ensures
        leads(frame, tpl, bx, by, 0, y + 1),
{
}

/// Once the last row was looked at, the leader is the best match.
proof fn lemma_search_done(frame: Grid<bool>, tpl: Grid<bool>, bx: int, by: int, y: int)
    requires
        leads(frame, tpl, bx, by, 0, y + 1),
        y + tpl.height == frame.height,
    ensures
        is_best_match(frame, tpl, bx, by),
{
}

} // verus!
