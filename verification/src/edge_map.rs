use vstd::prelude::*;
use crate::error::DetectionError;
use crate::frame::Frame;
use crate::grid::{Grid, lemma_offset_in_range};

verus! {

/// A binary image: each position either lies on an edge or does not.
///
/// Live frames and templates are both matched in this form, so that the
/// correlation compares shapes and not intensities.
#[derive(Debug)]
pub struct EdgeMap {
    width: u32,
    height: u32,
    cells: Vec<bool>,
}

impl View for EdgeMap {
    type V = Grid<bool>;

    closed spec fn view(&self) -> Grid<bool> {
        Grid { width: self.width as nat, height: self.height as nat, cells: self.cells@ }
    }
}

impl EdgeMap {
    #[verifier::type_invariant]
    spec fn inv(self) -> bool {
        self.cells@.len() == self.width * self.height
    }

    /// Builds an edge map from a row-major buffer of flags.
    ///
    /// Fails exactly when the buffer does not hold `width * height` flags.
    pub fn new(width: u32, height: u32, cells: Vec<bool>) -> (r: Result<EdgeMap, DetectionError>)
        ensures
            r is Ok <==> cells@.len() == width * height,
            r is Ok ==> r->Ok_0@ == (Grid {
                width: width as nat,
                height: height as nat,
                cells: cells@,
            }),
            r is Err ==> r->Err_0 == DetectionError::BufferSizeMismatch,
    {
        assert(width * height <= u32::MAX * u32::MAX) by (nonlinear_arith)
            requires
                width <= u32::MAX,
                height <= u32::MAX,
        ;
        let area: u64 = (width as u64) * (height as u64);
        if cells.len() as u64 == area {
            Ok(EdgeMap { width, height, cells })
        } else {
            Err(DetectionError::BufferSizeMismatch)
        }
    }

    /// Builds an edge map from a buffer known to hold one flag per position.
    pub(crate) fn from_cells(width: u32, height: u32, cells: Vec<bool>) -> (map: EdgeMap)
        requires
            cells@.len() == width * height,
        ensures
            map@ == (Grid { width: width as nat, height: height as nat, cells: cells@ }),
    {
        EdgeMap { width, height, cells }
    }

    /// Reads an edge map out of an image in which every sample other than
    /// zero marks an edge.
    pub fn from_frame(frame: &Frame) -> (map: EdgeMap)
        ensures
            map@.width == frame@.width,
            map@.height == frame@.height,
            map@.wf(),
            forall|x: int, y: int|
                frame@.contains(x, y) ==> #[trigger] map@.at(x, y) == (frame@.at(x, y) != 0),
    {
        let width = frame.width();
        let height = frame.height();
        let samples = frame.samples();
        let mut cells: Vec<bool> = Vec::new();
        let mut k: usize = 0;
        while k < samples.len()
            invariant
                k <= samples@.len(),
                cells@.len() == k,
                forall|n: int| 0 <= n < k ==> #[trigger] cells@[n] == (samples@[n] != 0),
            decreases samples@.len() - k,
        {
            cells.push(samples[k] != 0);
            k = k + 1;
        }
        proof {
            assert forall|x: int, y: int| frame@.contains(x, y) implies #[trigger] cells@[y * width
                + x] == (frame@.at(x, y) != 0) by {
                lemma_offset_in_range(width as int, height as int, x, y);
            }
        }
        EdgeMap { width, height, cells }
    }

    /// Number of columns.
    pub fn width(&self) -> (w: u32)
        ensures
            w == self@.width,
            self@.wf(),
    {
        proof {
            use_type_invariant(self);
        }
        self.width
    }

    /// Number of rows.
    pub fn height(&self) -> (h: u32)
        ensures
            h == self@.height,
            self@.wf(),
    {
        proof {
            use_type_invariant(self);
        }
        self.height
    }

    /// The flag at `(x, y)`, or `None` outside the map.
    pub fn get(&self, x: u32, y: u32) -> (r: Option<bool>)
        ensures
            r == if self@.contains(x as int, y as int) {
                Some(self@.at(x as int, y as int))
            } else {
                None
            },
    {
        if x < self.width && y < self.height {
            Some(self.cell(x, y))
        } else {
            None
        }
    }

    /// Tells whether two maps have the same dimensions and the same flags.
    pub fn same_as(&self, other: &EdgeMap) -> (r: bool)
        ensures
            r == (self@ == other@),
    {
        proof {
            use_type_invariant(self);
            use_type_invariant(other);
        }
        if self.width != other.width || self.height != other.height {
            return false;
        }
        let mut k: usize = 0;
        while k < self.cells.len()
            invariant
                k <= self.cells@.len(),
                self.cells@.len() == other.cells@.len(),
                forall|n: int| 0 <= n < k ==> self.cells@[n] == other.cells@[n],
            decreases self.cells@.len() - k,
        {
            if self.cells[k] != other.cells[k] {
                return false;
            }
            k = k + 1;
        }
        assert(self.cells@ =~= other.cells@);
        true
    }

    /// The flag at a position known to lie inside the map.
    pub(crate) fn cell(&self, x: u32, y: u32) -> (c: bool)
        requires
            self@.contains(x as int, y as int),
        ensures
            c == self@.at(x as int, y as int),
    {
        let len = self.cells.len();
        proof {
            use_type_invariant(self);
            lemma_offset_in_range(self.width as int, self.height as int, x as int, y as int);
            assert(y * self.width + x < len);
        }
        self.cells[(y as usize) * (self.width as usize) + (x as usize)]
    }
}

} // verus!
