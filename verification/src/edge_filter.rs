use vstd::prelude::*;
use crate::edge_map::EdgeMap;
use crate::frame::Frame;
use crate::gradient::{Aperture, gradient, gradient_at};
use crate::grid::{
    Grid, offset_of, precedes, lemma_offset_in_range, lemma_offset_injective,
    lemma_offset_monotone, lemma_offset_unfolds,
};
use crate::tally::{clear_count, lemma_clear_count_set};

verus! {

/// Lower gradient threshold, as shipped.
pub const DEFAULT_LOW_THRESHOLD: u32 = 50;

/// Upper gradient threshold, as shipped.
pub const DEFAULT_HIGH_THRESHOLD: u32 = 100;

/// Settings of the edge filter.
#[derive(Debug, Clone, Copy, PartialEq, Eq, Structural)]
pub struct EdgeConfig {
    /// A gradient above this may continue an edge.
    pub low: u32,
    /// A gradient above this starts an edge.
    pub high: u32,
    /// Neighbourhood that the gradient is taken over.
    pub aperture: Aperture,
}

impl EdgeConfig {
    /// The settings the filter ships with.
    pub fn standard() -> (c: EdgeConfig)
        ensures
            c.low == DEFAULT_LOW_THRESHOLD,
            c.high == DEFAULT_HIGH_THRESHOLD,
            c.aperture == Aperture::Three,
    {
        EdgeConfig {
            low: DEFAULT_LOW_THRESHOLD,
            high: DEFAULT_HIGH_THRESHOLD,
            aperture: Aperture::Three,
        }
    }
}

impl Default for EdgeConfig {
    fn default() -> (c: EdgeConfig)
        ensures
            c.low == DEFAULT_LOW_THRESHOLD,
            c.high == DEFAULT_HIGH_THRESHOLD,
            c.aperture == Aperture::Three,
    {
        EdgeConfig::standard()
    }
}

/// The gradient at `(x, y)` is above the lower threshold.
pub open spec fn is_weak(frame: Grid<u8>, config: EdgeConfig, x: int, y: int) -> bool {
    gradient(frame, config.aperture, x, y) > config.low
}

/// The gradient at `(x, y)` is above the upper threshold.
pub open spec fn is_strong(frame: Grid<u8>, config: EdgeConfig, x: int, y: int) -> bool {
    gradient(frame, config.aperture, x, y) > config.high
}

/// The two positions are neighbours: side by side, one above the other,
/// or corner to corner.
pub open spec fn touches(x1: int, y1: int, x2: int, y2: int) -> bool {
    x1 - 1 <= x2 <= x1 + 1 && y1 - 1 <= y2 <= y1 + 1 && (x1 != x2 || y1 != y2)
}

/// `path` runs inside the frame from neighbour to neighbour and ends on a
/// position above the upper threshold; every position before the end is
/// above the lower threshold.
pub open spec fn is_trail(frame: Grid<u8>, config: EdgeConfig, path: Seq<(int, int)>) -> bool {
    &&& path.len() > 0
    &&& forall|k: int| 0 <= k < path.len() ==> frame.contains((#[trigger] path[k]).0, path[k].1)
    &&& is_strong(frame, config, path.last().0, path.last().1)
    &&& forall|k: int|
        0 <= k < path.len() - 1 ==> is_weak(frame, config, (#[trigger] path[k]).0, path[k].1)
            && touches(path[k].0, path[k].1, path[k + 1].0, path[k + 1].1)
}

/// `(x, y)` lies on an edge: it is above the upper threshold itself, or it
/// is above the lower one and connected, through positions above the lower
/// one, to a position above the upper one.
pub open spec fn is_edge(frame: Grid<u8>, config: EdgeConfig, x: int, y: int) -> bool {
    exists|path: Seq<(int, int)>| #[trigger] is_trail(frame, config, path) && path[0] == (x, y)
}

/// `map` is the edge map of `frame` under `config`.
pub open spec fn is_edge_map_of(map: Grid<bool>, frame: Grid<u8>, config: EdgeConfig) -> bool {
    &&& map.width == frame.width
    &&& map.height == frame.height
    &&& map.wf()
    &&& forall|x: int, y: int|
        frame.contains(x, y) ==> #[trigger] map.at(x, y) == is_edge(frame, config, x, y)
}

/// A buffer of flags, read as a grid of the dimensions of `frame`.
spec fn flags(cells: Seq<bool>, frame: Grid<u8>) -> Grid<bool> {
    Grid { width: frame.width, height: frame.height, cells }
}

/// `(x, y)` waits on the stack.
spec fn pending(stack: Seq<(u32, u32)>, x: int, y: int) -> bool {
    exists|k: int| 0 <= k < stack.len() && (#[trigger] stack[k]).0 == x && stack[k].1 == y
}

/// Every neighbour of `(x, y)` that may continue an edge is marked.
spec fn settled(marks: Grid<bool>, frame: Grid<u8>, config: EdgeConfig, x: int, y: int) -> bool {
    forall|nx: int, ny: int|
        frame.contains(nx, ny) && touches(x, y, nx, ny) && is_weak(frame, config, nx, ny)
            ==> #[trigger] marks.at(nx, ny)
}

/// What holds while the edges are traced: the marks are edges, they hold
/// every position above the upper threshold, and each marked position is
/// settled, waits on the stack, or is the one being worked on.
spec fn tracing(
    frame: Grid<u8>,
    config: EdgeConfig,
    weak: Seq<bool>,
    marks: Seq<bool>,
    stack: Seq<(u32, u32)>,
    current: Option<(int, int)>,
) -> bool {
    let m = flags(marks, frame);
    let w = flags(weak, frame);
    &&& frame.wf()
    &&& weak.len() == frame.cells.len()
    &&& marks.len() == frame.cells.len()
    &&& forall|x: int, y: int|
        frame.contains(x, y) ==> #[trigger] w.at(x, y) == is_weak(frame, config, x, y)
    &&& forall|k: int|
        0 <= k < stack.len() ==> frame.contains((#[trigger] stack[k]).0 as int, stack[k].1 as int)
            && m.at(stack[k].0 as int, stack[k].1 as int)
    &&& forall|x: int, y: int|
        frame.contains(x, y) && #[trigger] m.at(x, y) ==> is_edge(frame, config, x, y)
    &&& forall|x: int, y: int|
        frame.contains(x, y) && is_strong(frame, config, x, y) ==> #[trigger] m.at(x, y)
    &&& forall|x: int, y: int|
        frame.contains(x, y) && #[trigger] m.at(x, y) ==> settled(m, frame, config, x, y)
            || pending(stack, x, y) || current == Some((x, y))
}

/// A position above the upper threshold is an edge by itself.
proof fn lemma_seed_is_edge(frame: Grid<u8>, config: EdgeConfig, x: int, y: int)
    requires
        frame.contains(x, y),
        is_strong(frame, config, x, y),
    ensures
        is_edge(frame, config, x, y),
{
    let path = seq![(x, y)];
    assert(path[0] == (x, y));
    assert(is_trail(frame, config, path));
}

/// A position above the lower threshold that touches an edge is an edge.
proof fn lemma_neighbour_is_edge(
    frame: Grid<u8>,
    config: EdgeConfig,
    x: int,
    y: int,
    nx: int,
    ny: int,
)
    requires
        is_edge(frame, config, x, y),
        frame.contains(nx, ny),
        is_weak(frame, config, nx, ny),
        touches(nx, ny, x, y),
    ensures
        is_edge(frame, config, nx, ny),
{
    let tail = choose|path: Seq<(int, int)>| #[trigger]
        is_trail(frame, config, path) && path[0] == (x, y);
    let path = seq![(nx, ny)] + tail;
    assert(path[0] == (nx, ny));
    assert(path.last() == tail.last());
    assert forall|k: int| 0 <= k < path.len() implies frame.contains(
        (#[trigger] path[k]).0,
        path[k].1,
    ) by {
        if k > 0 {
            assert(path[k] == tail[k - 1]);
        }
    }
    assert forall|k: int| 0 <= k < path.len() - 1 implies is_weak(
        frame,
        config,
        (#[trigger] path[k]).0,
        path[k].1,
    ) && touches(path[k].0, path[k].1, path[k + 1].0, path[k + 1].1) by {
        assert(path[k + 1] == tail[k]);
        if k > 0 {
            assert(path[k] == tail[k - 1]);
        }
    }
    assert(is_trail(frame, config, path));
}

/// Once every marked position is settled, the marks hold every position
/// of every trail.
proof fn lemma_trail_is_marked(
    frame: Grid<u8>,
    config: EdgeConfig,
    marks: Grid<bool>,
    path: Seq<(int, int)>,
    k: int,
)
    requires
        is_trail(frame, config, path),
        0 <= k < path.len(),
        forall|x: int, y: int|
            frame.contains(x, y) && is_strong(frame, config, x, y) ==> #[trigger] marks.at(x, y),
        forall|x: int, y: int|
            frame.contains(x, y) && #[trigger] marks.at(x, y) ==> settled(
                marks,
                frame,
                config,
                x,
                y,
            ),
    ensures
        marks.at(path[k].0, path[k].1),
    decreases path.len() - k,
{
    if k < path.len() - 1 {
        lemma_trail_is_marked(frame, config, marks, path, k + 1);
        let next = path[k + 1];
        let here = path[k];
        assert(frame.contains(next.0, next.1));
        assert(settled(marks, frame, config, next.0, next.1));
        assert(touches(next.0, next.1, here.0, here.1));
    }
}

/// What holds while the gradients are graded, row by row, up to but not
/// including `(x, y)`: both buffers hold the grades of the positions
/// passed, and the stack holds the passed positions above the upper
/// threshold.
spec fn graded(
    frame: Grid<u8>,
    config: EdgeConfig,
    weak: Seq<bool>,
    marks: Seq<bool>,
    stack: Seq<(u32, u32)>,
    x: int,
    y: int,
) -> bool {
    let m = flags(marks, frame);
    let w = flags(weak, frame);
    &&& weak.len() == offset_of(frame.width as int, x, y)
    &&& marks.len() == weak.len()
    &&& forall|i: int, j: int|
        0 <= i < frame.width && 0 <= j && precedes(i, j, x, y) ==> #[trigger] w.at(i, j)
            == is_weak(frame, config, i, j)
    &&& forall|i: int, j: int|
        0 <= i < frame.width && 0 <= j && precedes(i, j, x, y) ==> #[trigger] m.at(i, j)
            == is_strong(frame, config, i, j)
    &&& forall|i: int, j: int|
        0 <= i < frame.width && 0 <= j && precedes(i, j, x, y) && #[trigger] m.at(i, j)
            ==> pending(stack, i, j)
    &&& forall|k: int|
        0 <= k < stack.len() ==> frame.contains((#[trigger] stack[k]).0 as int, stack[k].1 as int)
            && precedes(stack[k].0 as int, stack[k].1 as int, x, y) && is_strong(
            frame,
            config,
            stack[k].0 as int,
            stack[k].1 as int,
        )
}

/// Grading one more position keeps the buffers in step.
proof fn lemma_graded_step(
    frame: Grid<u8>,
    config: EdgeConfig,
    weak: Seq<bool>,
    marks: Seq<bool>,
    stack: Seq<(u32, u32)>,
    col: u32,
    row: u32,
)
    requires
        graded(frame, config, weak, marks, stack, col as int, row as int),
        frame.contains(col as int, row as int),
    ensures
        graded(
            frame,
            config,
            weak.push(is_weak(frame, config, col as int, row as int)),
            marks.push(is_strong(frame, config, col as int, row as int)),
            if is_strong(frame, config, col as int, row as int) {
                stack.push((col, row))
            } else {
                stack
            },
            col + 1,
            row as int,
        ),
{
    let x = col as int;
    let y = row as int;
    let width = frame.width as int;
    let weak2 = weak.push(is_weak(frame, config, x, y));
    let marks2 = marks.push(is_strong(frame, config, x, y));
    let stack2 = if is_strong(frame, config, x, y) {
        stack.push((col, row))
    } else {
        stack
    };
    assert forall|i: int, j: int| 0 <= i < width && 0 <= j && precedes(i, j, x, y) implies offset_of(
        width,
        i,
        j,
    ) < weak.len() && offset_of(width, i, j) >= 0 by {
        lemma_offset_monotone(width, i, j, x, y);
    }
    assert forall|i: int, j: int|
        0 <= i < width && 0 <= j && precedes(i, j, x + 1, y) implies #[trigger] flags(
        weak2,
        frame,
    ).at(i, j) == is_weak(frame, config, i, j) by {
        if precedes(i, j, x, y) {
            lemma_offset_monotone(width, i, j, x, y);
            assert(flags(weak, frame).at(i, j) == is_weak(frame, config, i, j));
        }
    }
    assert forall|i: int, j: int|
        0 <= i < width && 0 <= j && precedes(i, j, x + 1, y) implies #[trigger] flags(
        marks2,
        frame,
    ).at(i, j) == is_strong(frame, config, i, j) by {
        if precedes(i, j, x, y) {
            lemma_offset_monotone(width, i, j, x, y);
            assert(flags(marks, frame).at(i, j) == is_strong(frame, config, i, j));
        }
    }
    assert forall|i: int, j: int|
        0 <= i < width && 0 <= j && precedes(i, j, x + 1, y) && #[trigger] flags(
            marks2,
            frame,
        ).at(i, j) implies pending(stack2, i, j) by {
        if precedes(i, j, x, y) {
            lemma_offset_monotone(width, i, j, x, y);
            assert(flags(marks, frame).at(i, j));
            let k = choose|k: int|
                0 <= k < stack.len() && (#[trigger] stack[k]).0 == i && stack[k].1 == j;
            assert(stack2[k] == stack[k]);
        } else {
            assert(stack2[stack.len() as int] == (col, row));
        }
    }
    assert forall|k: int| 0 <= k < stack2.len() implies frame.contains(
        (#[trigger] stack2[k]).0 as int,
        stack2[k].1 as int,
    ) && precedes(stack2[k].0 as int, stack2[k].1 as int, x + 1, y) && is_strong(
        frame,
        config,
        stack2[k].0 as int,
        stack2[k].1 as int,
    ) by {
        if k < stack.len() {
            assert(stack2[k] == stack[k]);
        }
    }
}

/// Past the end of a row, the grading stands at the start of the next.
proof fn lemma_graded_row(
    frame: Grid<u8>,
    config: EdgeConfig,
    weak: Seq<bool>,
    marks: Seq<bool>,
    stack: Seq<(u32, u32)>,
    y: int,
)
    requires
        graded(frame, config, weak, marks, stack, frame.width as int, y),
    ensures
        graded(frame, config, weak, marks, stack, 0, y + 1),
{
    let width = frame.width as int;
    assert(y * width + width == (y + 1) * width + 0) by (nonlinear_arith);
}

/// Once every row is graded, the tracing can start.
proof fn lemma_graded_all(
    frame: Grid<u8>,
    config: EdgeConfig,
    weak: Seq<bool>,
    marks: Seq<bool>,
    stack: Seq<(u32, u32)>,
)
    requires
        frame.wf(),
        graded(frame, config, weak, marks, stack, 0, frame.height as int),
    ensures
        tracing(frame, config, weak, marks, stack, None),
{
    let width = frame.width as int;
    let height = frame.height as int;
    assert(height * width == width * height) by (nonlinear_arith);
    let m = flags(marks, frame);
    assert forall|x: int, y: int| frame.contains(x, y) && #[trigger] m.at(x, y) implies is_edge(
        frame,
        config,
        x,
        y,
    ) by {
        lemma_seed_is_edge(frame, config, x, y);
    }
    assert forall|k: int| 0 <= k < stack.len() implies frame.contains(
        (#[trigger] stack[k]).0 as int,
        stack[k].1 as int,
    ) && m.at(stack[k].0 as int, stack[k].1 as int) by {
        let i = stack[k].0 as int;
        let j = stack[k].1 as int;
        assert(precedes(i, j, 0, height));
        assert(m.at(i, j) == is_strong(frame, config, i, j));
    }
}

/// Grades every position of the frame: whether its gradient may continue
/// an edge, and whether it starts one. The positions that start one are
/// marked and put on the stack.
fn grade(frame: &Frame, config: &EdgeConfig) -> (r: (Vec<bool>, Vec<bool>, Vec<(u32, u32)>))
    ensures
        tracing(frame@, *config, r.0@, r.1@, r.2@, None),
{
    let width = frame.width();
    let height = frame.height();
    let mut weak: Vec<bool> = Vec::new();
    let mut marks: Vec<bool> = Vec::new();
    let mut stack: Vec<(u32, u32)> = Vec::new();
    let mut y: u32 = 0;
    while y < height
        invariant
            y <= height,
            frame@.width == width,
            frame@.height == height,
            frame@.wf(),
            graded(frame@, *config, weak@, marks@, stack@, 0, y as int),
        decreases height - y,
    {
        let mut x: u32 = 0;
        while x < width
            invariant
                y < height,
                x <= width,
                frame@.width == width,
                frame@.height == height,
                frame@.wf(),
                graded(frame@, *config, weak@, marks@, stack@, x as int, y as int),
            decreases width - x,
        {
            let g = gradient_at(frame, config.aperture, x, y);
            proof {
                lemma_graded_step(frame@, *config, weak@, marks@, stack@, x, y);
            }
            weak.push(g > config.low);
            marks.push(g > config.high);
            if g > config.high {
                stack.push((x, y));
            }
            x = x + 1;
        }
        proof {
            lemma_graded_row(frame@, *config, weak@, marks@, stack@, y as int);
        }
        y = y + 1;
    }
    proof {
        lemma_graded_all(frame@, *config, weak@, marks@, stack@);
    }
    (weak, marks, stack)
}

/// The marks of `before` are marks of `after`.
spec fn grows(before: Seq<bool>, after: Seq<bool>, frame: Grid<u8>) -> bool {
    forall|x: int, y: int|
        frame.contains(x, y) && #[trigger] flags(before, frame).at(x, y) ==> flags(
            after,
            frame,
        ).at(x, y)
}

/// Marking a neighbour of the position being worked on, and putting it on
/// the stack, keeps the tracing in order.
proof fn lemma_mark_neighbour(
    frame: Grid<u8>,
    config: EdgeConfig,
    weak: Seq<bool>,
    marks: Seq<bool>,
    stack: Seq<(u32, u32)>,
    cx: int,
    cy: int,
    col: u32,
    row: u32,
)
    requires
        tracing(frame, config, weak, marks, stack, Some((cx, cy))),
        frame.contains(cx, cy),
        flags(marks, frame).at(cx, cy),
        frame.contains(col as int, row as int),
        touches(cx, cy, col as int, row as int),
        flags(weak, frame).at(col as int, row as int),
        !flags(marks, frame).at(col as int, row as int),
    ensures
        ({
            let index = offset_of(frame.width as int, col as int, row as int);
            let marks2 = marks.update(index, true);
            &&& 0 <= index < marks.len()
            &&& tracing(frame, config, weak, marks2, stack.push((col, row)), Some((cx, cy)))
            &&& grows(marks, marks2, frame)
            &&& flags(marks2, frame).at(col as int, row as int)
            &&& clear_count(marks2) < clear_count(marks)
        }),
{
    let nx = col as int;
    let ny = row as int;
    let width = frame.width as int;
    let index = offset_of(width, nx, ny);
    let marks2 = marks.update(index, true);
    let stack2 = stack.push((col, row));
    let m = flags(marks, frame);
    let m2 = flags(marks2, frame);
    lemma_offset_in_range(width, frame.height as int, nx, ny);
    lemma_clear_count_set(marks, index);
    assert forall|x: int, y: int| frame.contains(x, y) implies #[trigger] m2.at(x, y) == (m.at(
        x,
        y,
    ) || (x == nx && y == ny)) by {
        lemma_offset_in_range(width, frame.height as int, x, y);
        if offset_of(width, x, y) == index {
            lemma_offset_injective(width, x, y, nx, ny);
        }
    }
    lemma_neighbour_is_edge(frame, config, cx, cy, nx, ny);
    assert forall|k: int| 0 <= k < stack2.len() implies frame.contains(
        (#[trigger] stack2[k]).0 as int,
        stack2[k].1 as int,
    ) && m2.at(stack2[k].0 as int, stack2[k].1 as int) by {
        if k < stack.len() {
            assert(stack2[k] == stack[k]);
            assert(m.at(stack[k].0 as int, stack[k].1 as int));
        }
    }
    assert forall|x: int, y: int| frame.contains(x, y) && #[trigger] m2.at(x, y) implies settled(
        m2,
        frame,
        config,
        x,
        y,
    ) || pending(stack2, x, y) || Some((cx, cy)) == Some((x, y)) by {
        if x == nx && y == ny {
            assert(stack2[stack.len() as int] == (col, row));
        } else {
            assert(m.at(x, y));
            if settled(m, frame, config, x, y) {
                assert forall|ax: int, ay: int|
                    frame.contains(ax, ay) && touches(x, y, ax, ay) && is_weak(
                        frame,
                        config,
                        ax,
                        ay,
                    ) implies #[trigger] m2.at(ax, ay) by {
                    assert(m.at(ax, ay));
                }
            } else if pending(stack, x, y) {
                let k = choose|k: int|
                    0 <= k < stack.len() && (#[trigger] stack[k]).0 == x && stack[k].1 == y;
                assert(stack2[k] == stack[k]);
            }
        }
    }
}

/// Looks at one neighbour of the position being worked on: when it lies
/// inside the frame, may continue an edge and is not marked yet, it is
/// marked and put on the stack.
fn visit(
    frame: &Frame,
    config: &EdgeConfig,
    weak: &Vec<bool>,
    marks: &mut Vec<bool>,
    stack: &mut Vec<(u32, u32)>,
    cx: u32,
    cy: u32,
    nx: i64,
    ny: i64,
)
    requires
        tracing(frame@, *config, weak@, old(marks)@, old(stack)@, Some((cx as int, cy as int))),
        frame@.contains(cx as int, cy as int),
        flags(old(marks)@, frame@).at(cx as int, cy as int),
        touches(cx as int, cy as int, nx as int, ny as int),
    ensures
        tracing(frame@, *config, weak@, final(marks)@, final(stack)@, Some((cx as int, cy as int))),
        grows(old(marks)@, final(marks)@, frame@),
        frame@.contains(nx as int, ny as int) && is_weak(frame@, *config, nx as int, ny as int)
            ==> flags(final(marks)@, frame@).at(nx as int, ny as int),
        clear_count(final(marks)@) < clear_count(old(marks)@) || (final(marks)@ == old(marks)@
            && final(stack)@ == old(stack)@),
{
    let width = frame.width();
    let height = frame.height();
    if nx < 0 || ny < 0 || nx >= width as i64 || ny >= height as i64 {
        return ;
    }
    let col = nx as u32;
    let row = ny as u32;
    let len = weak.len();
    proof {
        lemma_offset_in_range(width as int, height as int, nx as int, ny as int);
        assert(row * width + col < len);
    }
    let index = (row as usize) * (width as usize) + (col as usize);
    assert(flags(weak@, frame@).at(nx as int, ny as int) == weak@[index as int]);
    assert(flags(marks@, frame@).at(nx as int, ny as int) == marks@[index as int]);
    if !weak[index] || marks[index] {
        return ;
    }
    proof {
        lemma_mark_neighbour(
            frame@,
            *config,
            weak@,
            marks@,
            stack@,
            cx as int,
            cy as int,
            col,
            row,
        );
    }
    marks.set(index, true);
    stack.push((col, row));
}

/// After every neighbour of a marked position was looked at, the position
/// is settled and the tracing can go on with the stack.
proof fn lemma_position_done(
    frame: Grid<u8>,
    config: EdgeConfig,
    weak: Seq<bool>,
    marks: Seq<bool>,
    stack: Seq<(u32, u32)>,
    cx: int,
    cy: int,
)
    requires
        tracing(frame, config, weak, marks, stack, Some((cx, cy))),
        settled(flags(marks, frame), frame, config, cx, cy),
    ensures
        tracing(frame, config, weak, marks, stack, None),
{
}

/// Taking the last position off the stack makes it the one being worked on.
proof fn lemma_position_taken(
    frame: Grid<u8>,
    config: EdgeConfig,
    weak: Seq<bool>,
    marks: Seq<bool>,
    stack: Seq<(u32, u32)>,
)
    requires
        tracing(frame, config, weak, marks, stack, None),
        stack.len() > 0,
    ensures
        tracing(
            frame,
            config,
            weak,
            marks,
            stack.drop_last(),
            Some((stack.last().0 as int, stack.last().1 as int)),
        ),
        frame.contains(stack.last().0 as int, stack.last().1 as int),
        flags(marks, frame).at(stack.last().0 as int, stack.last().1 as int),
{
    let rest = stack.drop_last();
    let top = stack.last();
    let m = flags(marks, frame);
    assert(stack[stack.len() - 1] == top);
    assert forall|k: int| 0 <= k < rest.len() implies frame.contains(
        (#[trigger] rest[k]).0 as int,
        rest[k].1 as int,
    ) && m.at(rest[k].0 as int, rest[k].1 as int) by {
        assert(rest[k] == stack[k]);
    }
    assert forall|x: int, y: int| frame.contains(x, y) && #[trigger] m.at(x, y) implies settled(
        m,
        frame,
        config,
        x,
        y,
    ) || pending(rest, x, y) || Some((top.0 as int, top.1 as int)) == Some((x, y)) by {
        if !settled(m, frame, config, x, y) {
            let k = choose|k: int|
                0 <= k < stack.len() && (#[trigger] stack[k]).0 == x && stack[k].1 == y;
            if k < rest.len() {
                assert(rest[k] == stack[k]);
            }
        }
    }
}

/// Follows the edges from the positions on the stack until none is left.
fn trace(
    frame: &Frame,
    config: &EdgeConfig,
    weak: &Vec<bool>,
    marks: &mut Vec<bool>,
    stack: &mut Vec<(u32, u32)>,
)
    requires
        tracing(frame@, *config, weak@, old(marks)@, old(stack)@, None),
    ensures
        tracing(frame@, *config, weak@, final(marks)@, final(stack)@, None),
        final(stack)@.len() == 0,
{
    while stack.len() > 0
        invariant
            tracing(frame@, *config, weak@, marks@, stack@, None),
        decreases clear_count(marks@), stack@.len(),
    {
        proof {
            lemma_position_taken(frame@, *config, weak@, marks@, stack@);
        }
        let ghost marks0 = marks@;
        let top = stack.pop();
        let (cx, cy) = match top {
            Some(position) => position,
            None => (0, 0),
        };
        let ghost stack0 = stack@;
        let x = cx as i64;
        let y = cy as i64;
        visit(frame, config, weak, marks, stack, cx, cy, x - 1, y - 1);
        let ghost marks1 = marks@;
        visit(frame, config, weak, marks, stack, cx, cy, x, y - 1);
        let ghost marks2 = marks@;
        visit(frame, config, weak, marks, stack, cx, cy, x + 1, y - 1);
        let ghost marks3 = marks@;
        visit(frame, config, weak, marks, stack, cx, cy, x - 1, y);
        let ghost marks4 = marks@;
        visit(frame, config, weak, marks, stack, cx, cy, x + 1, y);
        let ghost marks5 = marks@;
        visit(frame, config, weak, marks, stack, cx, cy, x - 1, y + 1);
        let ghost marks6 = marks@;
        visit(frame, config, weak, marks, stack, cx, cy, x, y + 1);
        let ghost marks7 = marks@;
        visit(frame, config, weak, marks, stack, cx, cy, x + 1, y + 1);
        proof {
            let m = flags(marks@, frame@);
            assert forall|nx: int, ny: int|
                frame@.contains(nx, ny) && touches(cx as int, cy as int, nx, ny) && is_weak(
                    frame@,
                    *config,
                    nx,
                    ny,
                ) implies #[trigger] m.at(nx, ny) by {
                if nx == x - 1 && ny == y - 1 {
                    assert(flags(marks1, frame@).at(nx, ny));
                    assert(flags(marks2, frame@).at(nx, ny));
                    assert(flags(marks3, frame@).at(nx, ny));
                    assert(flags(marks4, frame@).at(nx, ny));
                    assert(flags(marks5, frame@).at(nx, ny));
                    assert(flags(marks6, frame@).at(nx, ny));
                    assert(flags(marks7, frame@).at(nx, ny));
                } else if nx == x && ny == y - 1 {
                    assert(flags(marks2, frame@).at(nx, ny));
                    assert(flags(marks3, frame@).at(nx, ny));
                    assert(flags(marks4, frame@).at(nx, ny));
                    assert(flags(marks5, frame@).at(nx, ny));
                    assert(flags(marks6, frame@).at(nx, ny));
                    assert(flags(marks7, frame@).at(nx, ny));
                } else if nx == x + 1 && ny == y - 1 {
                    assert(flags(marks3, frame@).at(nx, ny));
                    assert(flags(marks4, frame@).at(nx, ny));
                    assert(flags(marks5, frame@).at(nx, ny));
                    assert(flags(marks6, frame@).at(nx, ny));
                    assert(flags(marks7, frame@).at(nx, ny));
                } else if nx == x - 1 && ny == y {
                    assert(flags(marks4, frame@).at(nx, ny));
                    assert(flags(marks5, frame@).at(nx, ny));
                    assert(flags(marks6, frame@).at(nx, ny));
                    assert(flags(marks7, frame@).at(nx, ny));
                } else if nx == x + 1 && ny == y {
                    assert(flags(marks5, frame@).at(nx, ny));
                    assert(flags(marks6, frame@).at(nx, ny));
                    assert(flags(marks7, frame@).at(nx, ny));
                } else if nx == x - 1 && ny == y + 1 {
                    assert(flags(marks6, frame@).at(nx, ny));
                    assert(flags(marks7, frame@).at(nx, ny));
                } else if nx == x && ny == y + 1 {
                    assert(flags(marks7, frame@).at(nx, ny));
                }
            }
            lemma_position_done(frame@, *config, weak@, marks@, stack@, cx as int, cy as int);
        }
    }
}

/// Turns a grayscale frame into its edge map.
///
/// A position is an edge when its gradient is above the upper threshold,
/// or above the lower one and linked through such positions to one above
/// the upper. The map has the dimensions of the frame, and is the same
/// whenever the frame and the settings are.
pub fn detect_edges(frame: &Frame, config: &EdgeConfig) -> (map: EdgeMap)
    ensures
        is_edge_map_of(map@, frame@, *config),
{
    let width = frame.width();
    let height = frame.height();
    let graded = grade(frame, config);
    let weak = graded.0;
    let mut marks = graded.1;
    let mut stack = graded.2;
    trace(frame, config, &weak, &mut marks, &mut stack);
    proof {
        let m = flags(marks@, frame@);
        assert forall|x: int, y: int| frame@.contains(x, y) implies #[trigger] m.at(x, y)
            == is_edge(frame@, *config, x, y) by {
            if is_edge(frame@, *config, x, y) {
                let path = choose|path: Seq<(int, int)>| #[trigger]
                    is_trail(frame@, *config, path) && path[0] == (x, y);
                assert forall|a: int, b: int| frame@.contains(a, b) && #[trigger] m.at(
                    a,
                    b,
                ) implies settled(m, frame@, *config, a, b) by {
                    assert(!pending(stack@, a, b));
                }
                lemma_trail_is_marked(frame@, *config, m, path, 0);
            }
        }
    }
    EdgeMap::from_cells(width, height, marks)
}

/// The edge map of a frame is determined by the frame and the settings:
/// two maps that both are the edge map of one frame under one
/// configuration are equal.
pub proof fn lemma_edge_map_is_unique(
    first: Grid<bool>,
    second: Grid<bool>,
    frame: Grid<u8>,
    config: EdgeConfig,
)
    requires
        frame.wf(),
        is_edge_map_of(first, frame, config),
        is_edge_map_of(second, frame, config),
    ensures
        first == second,
{
    assert forall|k: int| 0 <= k < first.cells.len() implies first.cells[k] == second.cells[k] by {
        lemma_offset_unfolds(frame.width as int, frame.height as int, k);
        let x = k % (frame.width as int);
        let y = k / (frame.width as int);
        assert(first.at(x, y) == is_edge(frame, config, x, y));
        assert(second.at(x, y) == is_edge(frame, config, x, y));
    }
    assert(first.cells =~= second.cells);
}

} // verus!
