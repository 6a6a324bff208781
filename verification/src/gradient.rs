use vstd::prelude::*;
use crate::frame::Frame;
use crate::grid::Grid;
use crate::tally::{total, row_total, lemma_total_bound, lemma_row_total_bound};

verus! {

/// Side length of the square neighbourhood that a gradient is taken over.
#[derive(Debug, Clone, Copy, PartialEq, Eq, Structural)]
pub enum Aperture {
    /// Three by three samples.
    Three,
    /// Five by five samples.
    Five,
    /// Seven by seven samples.
    Seven,
}

impl Aperture {
    /// Number of samples between the centre of the neighbourhood and its rim.
    pub open spec fn spec_radius(&self) -> int {
        match self {
            Aperture::Three => 1,
            Aperture::Five => 2,
            Aperture::Seven => 3,
        }
    }

    /// Number of samples between the centre of the neighbourhood and its rim.
    pub fn radius(&self) -> (r: i64)
        ensures
            r == self.spec_radius(),
    {
        match self {
            Aperture::Three => 1,
            Aperture::Five => 2,
            Aperture::Seven => 3,
        }
    }

    /// The aperture with the given side length, if there is one.
    pub fn from_size(size: u32) -> (r: Option<Aperture>)
        ensures
            r == match size {
                3u32 => Some(Aperture::Three),
                5u32 => Some(Aperture::Five),
                7u32 => Some(Aperture::Seven),
                _ => None::<Aperture>,
            },
    {
        if size == 3 {
            Some(Aperture::Three)
        } else if size == 5 {
            Some(Aperture::Five)
        } else if size == 7 {
            Some(Aperture::Seven)
        } else {
            None
        }
    }

    /// Side length of the neighbourhood.
    pub fn size(&self) -> (s: u32)
        ensures
            s == 2 * self.spec_radius() + 1,
    {
        match self {
            Aperture::Three => 3,
            Aperture::Five => 5,
            Aperture::Seven => 7,
        }
    }
}

/// Binomial weight that averages across the gradient, `k` steps from the centre.
pub open spec fn smooth_weight(radius: int, k: int) -> int {
    let d = if k < 0 {
        -k
    } else {
        k
    };
    if radius == 1 {
        if d == 0 {
            2
        } else {
            1
        }
    } else if radius == 2 {
        if d == 0 {
            6
        } else if d == 1 {
            4
        } else {
            1
        }
    } else {
        if d == 0 {
            20
        } else if d == 1 {
            15
        } else if d == 2 {
            6
        } else {
            1
        }
    }
}

/// Weight that differences along the gradient, `k` steps from the centre:
/// the central difference, averaged with the binomial weights of the next
/// smaller neighbourhood.
pub open spec fn slope_weight(radius: int, k: int) -> int {
    let d = if k < 0 {
        -k
    } else {
        k
    };
    let w: int = if d == 0 {
        0
    } else if radius == 1 {
        1
    } else if radius == 2 {
        if d == 1 {
            2
        } else {
            1
        }
    } else {
        if d == 1 {
            5
        } else if d == 2 {
            4
        } else {
            1
        }
    };
    if k < 0 {
        -w
    } else {
        w
    }
}

/// `v` moved to the nearest index of a line of `len` samples.
pub open spec fn clamp_index(v: int, len: int) -> int {
    if v < 0 {
        0
    } else if v >= len {
        len - 1
    } else {
        v
    }
}

/// The sample at `(x, y)`, with the rim of the frame repeated outward.
pub open spec fn sample(frame: Grid<u8>, x: int, y: int) -> int {
    frame.at(clamp_index(x, frame.width as int), clamp_index(y, frame.height as int)) as int
}

/// The terms of the horizontal derivative at `(x, y)`, by position in the
/// neighbourhood counted from its top left corner.
pub open spec fn slope_x_terms(frame: Grid<u8>, radius: int, x: int, y: int) -> spec_fn(
    int,
    int,
) -> int {
    |a: int, b: int|
        slope_weight(radius, a - radius) * smooth_weight(radius, b - radius) * sample(
            frame,
            x + a - radius,
            y + b - radius,
        )
}

/// The terms of the vertical derivative at `(x, y)`, by position in the
/// neighbourhood counted from its top left corner.
pub open spec fn slope_y_terms(frame: Grid<u8>, radius: int, x: int, y: int) -> spec_fn(
    int,
    int,
) -> int {
    |a: int, b: int|
        smooth_weight(radius, a - radius) * slope_weight(radius, b - radius) * sample(
            frame,
            x + a - radius,
            y + b - radius,
        )
}

/// Horizontal derivative of the intensity at `(x, y)`.
pub open spec fn slope_x(frame: Grid<u8>, radius: int, x: int, y: int) -> int {
    total(slope_x_terms(frame, radius, x, y), 2 * radius + 1, 2 * radius + 1)
}

/// Vertical derivative of the intensity at `(x, y)`.
pub open spec fn slope_y(frame: Grid<u8>, radius: int, x: int, y: int) -> int {
    total(slope_y_terms(frame, radius, x, y), 2 * radius + 1, 2 * radius + 1)
}

/// Absolute value.
pub open spec fn magnitude_of(v: int) -> int {
    if v < 0 {
        -v
    } else {
        v
    }
}

/// Strength of the gradient at `(x, y)`: the two derivatives, each taken
/// without its sign, added up.
pub open spec fn gradient(frame: Grid<u8>, aperture: Aperture, x: int, y: int) -> int {
    magnitude_of(slope_x(frame, aperture.spec_radius(), x, y)) + magnitude_of(
        slope_y(frame, aperture.spec_radius(), x, y),
    )
}

/// Largest size that one term of a derivative can have.
pub const TERM_LIMIT: i64 = 25_500;

/// Computes the averaging weight `k` steps from the centre.
fn smooth_at(radius: i64, k: i64) -> (w: i64)
    requires
        1 <= radius <= 3,
        -radius <= k <= radius,
    ensures
        w == smooth_weight(radius as int, k as int),
        1 <= w <= 20,
{
    let d: i64 = if k < 0 {
        -k
    } else {
        k
    };
    if radius == 1 {
        if d == 0 {
            2
        } else {
            1
        }
    } else if radius == 2 {
        if d == 0 {
            6
        } else if d == 1 {
            4
        } else {
            1
        }
    } else {
        if d == 0 {
            20
        } else if d == 1 {
            15
        } else if d == 2 {
            6
        } else {
            1
        }
    }
}

/// Computes the differencing weight `k` steps from the centre.
fn slope_at(radius: i64, k: i64) -> (w: i64)
    requires
        1 <= radius <= 3,
        -radius <= k <= radius,
    ensures
        w == slope_weight(radius as int, k as int),
        -5 <= w <= 5,
{
    let d: i64 = if k < 0 {
        -k
    } else {
        k
    };
    let w: i64 = if d == 0 {
        0
    } else if radius == 1 {
        1
    } else if radius == 2 {
        if d == 1 {
            2
        } else {
            1
        }
    } else {
        if d == 1 {
            5
        } else if d == 2 {
            4
        } else {
            1
        }
    };
    if k < 0 {
        -w
    } else {
        w
    }
}

/// Reads the sample at `(x, y)`, with the rim of the frame repeated outward.
fn sample_at(frame: &Frame, x: i64, y: i64) -> (s: i64)
    requires
        frame@.width > 0,
        frame@.height > 0,
    ensures
        s == sample(frame@, x as int, y as int),
        0 <= s <= 255,
{
    let width = frame.width();
    let height = frame.height();
    let cx: u32 = if x < 0 {
        0
    } else if x >= width as i64 {
        width - 1
    } else {
        x as u32
    };
    let cy: u32 = if y < 0 {
        0
    } else if y >= height as i64 {
        height - 1
    } else {
        y as u32
    };
    frame.pixel(cx, cy) as i64
}

/// Every term of a derivative stays within `TERM_LIMIT`.
proof fn lemma_terms_bounded(frame: Grid<u8>, radius: int, x: int, y: int)
    requires
        1 <= radius <= 3,
    ensures
        forall|a: int, b: int|
            0 <= a < 2 * radius + 1 && 0 <= b < 2 * radius + 1 ==> -TERM_LIMIT
                <= #[trigger] slope_x_terms(frame, radius, x, y)(a, b) <= TERM_LIMIT,
        forall|a: int, b: int|
            0 <= a < 2 * radius + 1 && 0 <= b < 2 * radius + 1 ==> -TERM_LIMIT
                <= #[trigger] slope_y_terms(frame, radius, x, y)(a, b) <= TERM_LIMIT,
{
    assert forall|a: int, b: int|
        0 <= a < 2 * radius + 1 && 0 <= b < 2 * radius + 1 implies -TERM_LIMIT
        <= #[trigger] slope_x_terms(frame, radius, x, y)(a, b) <= TERM_LIMIT by {
        let p = slope_weight(radius, a - radius);
        let q = smooth_weight(radius, b - radius);
        let s = sample(frame, x + a - radius, y + b - radius);
        assert(-25_500 <= p * q * s <= 25_500) by (nonlinear_arith)
            requires
                -5 <= p <= 5,
                1 <= q <= 20,
                0 <= s <= 255,
        ;
    }
    assert forall|a: int, b: int|
        0 <= a < 2 * radius + 1 && 0 <= b < 2 * radius + 1 implies -TERM_LIMIT
        <= #[trigger] slope_y_terms(frame, radius, x, y)(a, b) <= TERM_LIMIT by {
        let p = smooth_weight(radius, a - radius);
        let q = slope_weight(radius, b - radius);
        let s = sample(frame, x + a - radius, y + b - radius);
        assert(-25_500 <= p * q * s <= 25_500) by (nonlinear_arith)
            requires
                1 <= p <= 20,
                -5 <= q <= 5,
                0 <= s <= 255,
        ;
    }
}

/// Computes the strength of the gradient at a position of the frame.
pub(crate) fn gradient_at(frame: &Frame, aperture: Aperture, x: u32, y: u32) -> (g: u32)
    requires
        frame@.contains(x as int, y as int),
    ensures
        g == gradient(frame@, aperture, x as int, y as int),
{
    let radius = aperture.radius();
    let side: i64 = 2 * radius + 1;
    let ghost along = slope_x_terms(frame@, radius as int, x as int, y as int);
    let ghost across = slope_y_terms(frame@, radius as int, x as int, y as int);
    proof {
        lemma_terms_bounded(frame@, radius as int, x as int, y as int);
    }
    let mut gx: i64 = 0;
    let mut gy: i64 = 0;
    let mut b: i64 = 0;
    while b < side
        invariant
            0 <= b <= side,
            1 <= radius <= 3,
            side == 2 * radius + 1,
            frame@.contains(x as int, y as int),
            along == slope_x_terms(frame@, radius as int, x as int, y as int),
            across == slope_y_terms(frame@, radius as int, x as int, y as int),
            forall|a: int, b: int|
                0 <= a < 2 * radius + 1 && 0 <= b < 2 * radius + 1 ==> -TERM_LIMIT
                    <= #[trigger] along(a, b) <= TERM_LIMIT,
            forall|a: int, b: int|
                0 <= a < 2 * radius + 1 && 0 <= b < 2 * radius + 1 ==> -TERM_LIMIT
                    <= #[trigger] across(a, b) <= TERM_LIMIT,
            gx == total(along, side as int, b as int),
            gy == total(across, side as int, b as int),
        decreases side - b,
    {
        let mut a: i64 = 0;
        while a < side
            invariant
                0 <= b < side,
                0 <= a <= side,
                1 <= radius <= 3,
                side == 2 * radius + 1,
                frame@.contains(x as int, y as int),
                along == slope_x_terms(frame@, radius as int, x as int, y as int),
                across == slope_y_terms(frame@, radius as int, x as int, y as int),
                forall|a: int, b: int|
                    0 <= a < 2 * radius + 1 && 0 <= b < 2 * radius + 1 ==> -TERM_LIMIT
                        <= #[trigger] along(a, b) <= TERM_LIMIT,
                forall|a: int, b: int|
                    0 <= a < 2 * radius + 1 && 0 <= b < 2 * radius + 1 ==> -TERM_LIMIT
                        <= #[trigger] across(a, b) <= TERM_LIMIT,
                gx == total(along, side as int, b as int) + row_total(along, b as int, a as int),
                gy == total(across, side as int, b as int) + row_total(
                    across,
                    b as int,
                    a as int,
                ),
            decreases side - a,
        {
            let s = sample_at(frame, x as i64 + a - radius, y as i64 + b - radius);
            let p = slope_at(radius, a - radius);
            let q = smooth_at(radius, b - radius);
            let u = smooth_at(radius, a - radius);
            let v = slope_at(radius, b - radius);
            proof {
                lemma_total_bound(along, side as int, b as int, TERM_LIMIT as int);
                lemma_row_total_bound(along, b as int, a as int, TERM_LIMIT as int);
                lemma_total_bound(across, side as int, b as int, TERM_LIMIT as int);
                lemma_row_total_bound(across, b as int, a as int, TERM_LIMIT as int);
                assert(side * b <= 42) by (nonlinear_arith)
                    requires
                        0 <= b < side,
                        side <= 7,
                ;
                assert(-100 <= p * q <= 100 && -100 <= u * v <= 100) by (nonlinear_arith)
                    requires
                        -5 <= p <= 5,
                        1 <= q <= 20,
                        1 <= u <= 20,
                        -5 <= v <= 5,
                ;
                assert(-25_500 <= p * q * s <= 25_500 && -25_500 <= u * v * s <= 25_500)
                    by (nonlinear_arith)
                    requires
                        -100 <= p * q <= 100,
                        -100 <= u * v <= 100,
                        0 <= s <= 255,
                ;
                assert(TERM_LIMIT * (side * b) <= 25_500 * 42) by (nonlinear_arith)
                    requires
                        0 <= side * b <= 42,
                ;
                assert(TERM_LIMIT * a <= 25_500 * 7) by (nonlinear_arith)
                    requires
                        0 <= a <= 7,
                ;
                assert(along(a as int, b as int) == p * q * s);
                assert(across(a as int, b as int) == u * v * s);
            }
            gx = gx + p * q * s;
            gy = gy + u * v * s;
            a = a + 1;
        }
        b = b + 1;
    }
    proof {
        lemma_total_bound(along, side as int, side as int, TERM_LIMIT as int);
        lemma_total_bound(across, side as int, side as int, TERM_LIMIT as int);
        assert(side * side <= 49) by (nonlinear_arith)
            requires
                0 <= side <= 7,
        ;
        assert(TERM_LIMIT * (side * side) <= 25_500 * 49) by (nonlinear_arith)
            requires
                0 <= side * side <= 49,
        ;
    }
    let ax: i64 = if gx < 0 {
        -gx
    } else {
        gx
    };
    let ay: i64 = if gy < 0 {
        -gy
    } else {
        gy
    };
    (ax + ay) as u32
}

} // verus!
