use vstd::prelude::*;
use crate::error::DetectionError;
use crate::frame::{Frame, Region};
use crate::grid::Grid;
use crate::tally::{tally, row_tally, lemma_tally_bound, lemma_row_tally_bound, lemma_tally_none, lemma_tally_all};

verus! {

/// Smallest per-sample difference that counts as a change, as shipped.
pub const DEFAULT_PIXEL_THRESHOLD: u8 = 50;

/// Number of changed samples that a splash has to exceed, as shipped.
pub const DEFAULT_COUNT_THRESHOLD: u64 = 250;

/// Thresholds of the splash detector.
#[derive(Debug, Clone, Copy, PartialEq, Eq, Structural)]
pub struct SplashConfig {
    /// A sample changed when it differs by at least this much.
    pub pixel_threshold: u8,
    /// A splash is reported when more samples than this changed.
    pub count_threshold: u64,
}

impl SplashConfig {
    /// The thresholds the detector ships with.
    pub fn standard() -> (c: SplashConfig)
        ensures
            c.pixel_threshold == DEFAULT_PIXEL_THRESHOLD,
            c.count_threshold == DEFAULT_COUNT_THRESHOLD,
    {
        SplashConfig {
            pixel_threshold: DEFAULT_PIXEL_THRESHOLD,
            count_threshold: DEFAULT_COUNT_THRESHOLD,
        }
    }
}

impl Default for SplashConfig {
    fn default() -> (c: SplashConfig)
        ensures
            c.pixel_threshold == DEFAULT_PIXEL_THRESHOLD,
            c.count_threshold == DEFAULT_COUNT_THRESHOLD,
    {
        SplashConfig::standard()
    }
}

/// What one comparison of two frames found.
#[derive(Debug, Clone, Copy, PartialEq, Eq, Structural)]
pub struct SplashEvidence {
    /// Number of samples of the region that changed.
    pub changed: u64,
    /// The count that `changed` was held against.
    pub threshold: u64,
}

impl SplashEvidence {
    /// A splash is a count strictly above the threshold.
    pub open spec fn spec_is_splash(&self) -> bool {
        self.changed > self.threshold
    }

    /// Tells whether the evidence amounts to a splash.
    #[verifier::when_used_as_spec(spec_is_splash)]
    pub fn is_splash(&self) -> (r: bool)
        ensures
            r == (self.changed > self.threshold),
    {
        self.changed > self.threshold
    }
}

/// Absolute difference of two samples.
pub open spec fn sample_distance(a: u8, b: u8) -> int {
    if a >= b {
        a - b
    } else {
        b - a
    }
}

/// The sample at `(x, y)` differs between the two grids by at least `limit`.
pub open spec fn differs(prev: Grid<u8>, cur: Grid<u8>, limit: int, x: int, y: int) -> bool {
    sample_distance(prev.at(x, y), cur.at(x, y)) >= limit
}

/// The changed positions of a region, in coordinates relative to its origin.
pub open spec fn change_mask(prev: Grid<u8>, cur: Grid<u8>, region: Region, limit: int) -> spec_fn(
    int,
    int,
) -> bool {
    |i: int, j: int| differs(prev, cur, limit, region.x + i, region.y + j)
}

/// Number of positions of `region` at which the two grids differ by at least `limit`.
pub open spec fn changed_count(prev: Grid<u8>, cur: Grid<u8>, region: Region, limit: int) -> nat {
    tally(change_mask(prev, cur, region, limit), region.width as int, region.height as int)
}

/// The reason why two grids and a region cannot be compared, if there is one.
pub open spec fn comparison_fault(prev: Grid<u8>, cur: Grid<u8>, region: Region) -> Option<
    DetectionError,
> {
    if prev.width != cur.width || prev.height != cur.height {
        Some(DetectionError::FrameSizeMismatch)
    } else if !region.inside(prev.width, prev.height) {
        Some(DetectionError::RegionOutsideFrame)
    } else {
        None
    }
}

/// Compares two frames inside `region` and counts the samples that changed.
///
/// Fails when the frames differ in size, and otherwise when the region
/// reaches outside them. The count is exact, and the evidence carries the
/// configured count threshold.
pub fn detect_splash(prev: &Frame, cur: &Frame, region: Region, config: &SplashConfig) -> (r:
    Result<SplashEvidence, DetectionError>)
    ensures
        match r {
            Ok(evidence) => comparison_fault(prev@, cur@, region) is None && evidence.changed
                == changed_count(prev@, cur@, region, config.pixel_threshold as int)
                && evidence.changed <= region.spec_area() && evidence.threshold
                == config.count_threshold,
            Err(e) => comparison_fault(prev@, cur@, region) == Some(e),
        },
{
    let width = prev.width();
    let height = prev.height();
    if width != cur.width() || height != cur.height() {
        return Err(DetectionError::FrameSizeMismatch);
    }
    if !region.fits_within(width, height) {
        return Err(DetectionError::RegionOutsideFrame);
    }
    let limit = config.pixel_threshold;
    let ghost mask = change_mask(prev@, cur@, region, limit as int);
    let mut changed: u64 = 0;
    let mut j: u32 = 0;
    while j < region.height
        invariant
            j <= region.height,
            region.inside(width as nat, height as nat),
            prev@.width == width && cur@.width == width,
            prev@.height == height && cur@.height == height,
            mask == change_mask(prev@, cur@, region, limit as int),
            changed == tally(mask, region.width as int, j as int),
        decreases region.height - j,
    {
        let mut i: u32 = 0;
        while i < region.width
            invariant
                j < region.height,
                i <= region.width,
                region.inside(width as nat, height as nat),
                prev@.width == width && cur@.width == width,
                prev@.height == height && cur@.height == height,
                mask == change_mask(prev@, cur@, region, limit as int),
                changed == tally(mask, region.width as int, j as int) + row_tally(
                    mask,
                    j as int,
                    i as int,
                ),
            decreases region.width - i,
        {
            let a = prev.pixel(region.x + i, region.y + j);
            let b = cur.pixel(region.x + i, region.y + j);
            let distance: u8 = if a >= b {
                a - b
            } else {
                b - a
            };
            proof {
                lemma_tally_bound(mask, region.width as int, j as int);
                lemma_row_tally_bound(mask, j as int, i as int);
                assert(region.width * j + i < u64::MAX) by (nonlinear_arith)
                    requires
                        region.width <= u32::MAX,
                        j < u32::MAX,
                        i < u32::MAX,
                ;
                assert(mask(i as int, j as int) == (distance >= limit));
            }
            if distance >= limit {
                changed = changed + 1;
            }
            i = i + 1;
        }
        j = j + 1;
    }
    proof {
        lemma_tally_bound(mask, region.width as int, region.height as int);
    }
    Ok(SplashEvidence { changed, threshold: config.count_threshold })
}

/// Two identical frames show no change, whatever the region, as long as a
/// change needs a difference of at least one.
pub proof fn lemma_identical_frames_show_nothing(frame: Grid<u8>, region: Region, limit: int)
    requires
        limit >= 1,
    ensures
        changed_count(frame, frame, region, limit) == 0,
{
    lemma_tally_none(
        change_mask(frame, frame, region, limit),
        region.width as int,
        region.height as int,
    );
}

/// When every sample of the region moved by at least the limit, the count
/// is the area of the region.
pub proof fn lemma_flipped_region_counts_fully(
    prev: Grid<u8>,
    cur: Grid<u8>,
    region: Region,
    limit: int,
)
    requires
        forall|x: int, y: int|
            region.x <= x < region.x + region.width && region.y <= y < region.y + region.height
                ==> #[trigger] differs(prev, cur, limit, x, y),
    ensures
        changed_count(prev, cur, region, limit) == region.spec_area(),
{
    let mask = change_mask(prev, cur, region, limit);
    assert forall|i: int, j: int| 0 <= i < region.width && 0 <= j < region.height implies #[trigger] mask(
        i,
        j,
    ) by {
        assert(differs(prev, cur, limit, region.x + i, region.y + j));
    }
    lemma_tally_all(mask, region.width as int, region.height as int);
}

} // verus!
