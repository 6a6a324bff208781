use vstd::prelude::*;
use crate::error::DetectionError;
use crate::grid::{Grid, lemma_offset_in_range};

verus! {

/// An axis-aligned rectangle in frame coordinates.
#[derive(Debug, Clone, Copy, PartialEq, Eq, Structural)]
pub struct Region {
    /// Column of the left edge.
    pub x: u32,
    /// Row of the top edge.
    pub y: u32,
    /// Number of columns covered.
    pub width: u32,
    /// Number of rows covered.
    pub height: u32,
}

impl Region {
    /// The rectangle lies fully inside a grid of the given dimensions.
    pub open spec fn inside(self, width: nat, height: nat) -> bool {
        self.x + self.width <= width && self.y + self.height <= height
    }

    /// Number of positions covered by the rectangle.
    pub open spec fn spec_area(self) -> nat {
        (self.width * self.height) as nat
    }

    /// Makes the rectangle with the given origin and dimensions.
    pub fn new(x: u32, y: u32, width: u32, height: u32) -> (r: Region)
        ensures
            r == (Region { x, y, width, height }),
    {
        Region { x, y, width, height }
    }

    /// Tells whether the rectangle lies fully inside a `width` by `height` grid.
    pub fn fits_within(&self, width: u32, height: u32) -> (r: bool)
        ensures
            r == self.inside(width as nat, height as nat),
    {
        self.x <= width && self.width <= width - self.x && self.y <= height && self.height
            <= height - self.y
    }

    /// Number of positions covered by the rectangle.
    #[verifier::when_used_as_spec(spec_area_u64)]
    pub fn area(&self) -> (r: u64)
        ensures
            r == self.spec_area(),
    {
        assert(self.width * self.height <= u32::MAX * u32::MAX) by (nonlinear_arith)
            requires
                self.width <= u32::MAX,
                self.height <= u32::MAX,
        ;
        (self.width as u64) * (self.height as u64)
    }

    /// `area` as it reads in specifications.
    pub open spec fn spec_area_u64(&self) -> u64 {
        (self.width * self.height) as u64
    }
}

/// A grayscale image: one intensity sample per position, stored row by row,
/// together with the logical sequence number of its capture.
#[derive(Debug)]
pub struct Frame {
    width: u32,
    height: u32,
    pixels: Vec<u8>,
    stamp: u64,
}

impl View for Frame {
    type V = Grid<u8>;

    closed spec fn view(&self) -> Grid<u8> {
        Grid { width: self.width as nat, height: self.height as nat, cells: self.pixels@ }
    }
}

impl Frame {
    #[verifier::type_invariant]
    spec fn inv(self) -> bool {
        self.pixels@.len() == self.width * self.height
    }

    /// Logical capture time of the frame, used only for sequencing.
    pub closed spec fn spec_stamp(&self) -> u64 {
        self.stamp
    }

    /// Builds a frame from a row-major sample buffer.
    ///
    /// Fails exactly when the buffer does not hold `width * height` samples.
    pub fn new(width: u32, height: u32, pixels: Vec<u8>, stamp: u64) -> (r: Result<
        Frame,
        DetectionError,
    >)
        ensures
            r is Ok <==> pixels@.len() == width * height,
            r is Ok ==> r->Ok_0@ == (Grid {
                width: width as nat,
                height: height as nat,
                cells: pixels@,
            }) && r->Ok_0.spec_stamp() == stamp,
            r is Err ==> r->Err_0 == DetectionError::BufferSizeMismatch,
    {
        assert(width * height <= u32::MAX * u32::MAX) by (nonlinear_arith)
            requires
                width <= u32::MAX,
                height <= u32::MAX,
        ;
        let area: u64 = (width as u64) * (height as u64);
        if pixels.len() as u64 == area {
            Ok(Frame { width, height, pixels, stamp })
        } else {
            Err(DetectionError::BufferSizeMismatch)
        }
    }

    /// Number of columns.
    pub fn width(&self) -> (w: u32)
        ensures
            w == self@.width,
            self@.wf(),
    {
        proof {
            use_type_invariant(self);
        }
        self.width
    }

    /// Number of rows.
    pub fn height(&self) -> (h: u32)
        ensures
            h == self@.height,
            self@.wf(),
    {
        proof {
            use_type_invariant(self);
        }
        self.height
    }

    /// Logical capture time of the frame.
    #[verifier::when_used_as_spec(spec_stamp)]
    pub fn stamp(&self) -> (s: u64)
        ensures
            s == self.spec_stamp(),
    {
        self.stamp
    }

    /// The sample at `(x, y)`, or `None` outside the frame.
    pub fn get(&self, x: u32, y: u32) -> (r: Option<u8>)
        ensures
            r == if self@.contains(x as int, y as int) {
                Some(self@.at(x as int, y as int))
            } else {
                None
            },
    {
        if x < self.width && y < self.height {
            Some(self.pixel(x, y))
        } else {
            None
        }
    }

    /// The samples of the frame, row by row.
    pub(crate) fn samples(&self) -> (s: &Vec<u8>)
        ensures
            s@ == self@.cells,
    {
        &self.pixels
    }

    /// The sample at a position known to lie inside the frame.
    pub(crate) fn pixel(&self, x: u32, y: u32) -> (p: u8)
        requires
            self@.contains(x as int, y as int),
        ensures
            p == self@.at(x as int, y as int),
    {
        let len = self.pixels.len();
        proof {
            use_type_invariant(self);
            lemma_offset_in_range(self.width as int, self.height as int, x as int, y as int);
            assert(y * self.width + x < len);
        }
        self.pixels[(y as usize) * (self.width as usize) + (x as usize)]
    }
}

} // verus!
