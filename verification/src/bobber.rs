use vstd::prelude::*;
use crate::edge_filter::{EdgeConfig, detect_edges, is_edge_map_of};
use crate::edge_map::EdgeMap;
use crate::error::DetectionError;
use crate::frame::{Frame, Region};
use crate::grid::Grid;
use crate::locator::{
    MatchResult, SCORE_SCALE, is_best_match, is_score_ppm, locate, match_fault, rating,
};

verus! {

/// Vertical correction, in pixels, that the shipped configuration adds to
/// the pointer target to make up for the decoration of the window.
pub const DEFAULT_POINTER_OFFSET_Y: i32 = 69;

/// Correction that is added to a pointer target, in pixels.
#[derive(Debug, Clone, Copy, PartialEq, Eq, Structural)]
pub struct PointerOffset {
    /// Added to the column.
    pub dx: i32,
    /// Added to the row.
    pub dy: i32,
}

impl PointerOffset {
    /// The correction that the shipped configuration uses.
    pub fn standard() -> (o: PointerOffset)
        ensures
            o.dx == 0,
            o.dy == DEFAULT_POINTER_OFFSET_Y,
    {
        PointerOffset { dx: 0, dy: DEFAULT_POINTER_OFFSET_Y }
    }
}

/// `found` is where the template matches the edges of the frame best.
pub open spec fn is_bobber_match(
    frame: Grid<u8>,
    tpl: Grid<bool>,
    config: EdgeConfig,
    found: MatchResult,
) -> bool {
    exists|edges: Grid<bool>| #[trigger]
        is_edge_map_of(edges, frame, config) && is_best_match(
            edges,
            tpl,
            found.x as int,
            found.y as int,
        ) && is_score_ppm(
            found.score_ppm as int,
            rating(edges, tpl, found.x as int, found.y as int),
        )
}

/// The reason why the first of the templates cannot be matched against a
/// frame, if there is one.
pub open spec fn bobber_fault(frame: Grid<u8>, templates: Seq<EdgeMap>) -> Option<DetectionError> {
    if templates.len() == 0 {
        Some(DetectionError::EmptyTemplateSet)
    } else {
        match_fault(frame.width, frame.height, templates[0]@)
    }
}

/// Filters the edges of a frame and finds the window that matches the
/// template best.
pub fn locate_in_frame(frame: &Frame, template: &EdgeMap, config: &EdgeConfig) -> (r: Result<
    MatchResult,
    DetectionError,
>)
    ensures
        match r {
            Ok(found) => match_fault(frame@.width, frame@.height, template@) is None
                && is_bobber_match(frame@, template@, *config, found) && found.spec_region(
                template@.width as u32,
                template@.height as u32,
            ).inside(frame@.width, frame@.height) && -SCORE_SCALE <= found.score_ppm
                <= SCORE_SCALE,
            Err(e) => match_fault(frame@.width, frame@.height, template@) == Some(e),
        },
{
    let edges = detect_edges(frame, config);
    let width = template.width();
    let height = template.height();
    locate(&edges, template)
}

/// Finds the bobber in a frame: the window whose edges match the first of
/// the templates best.
///
/// Fails when there is no template, and otherwise exactly when the first
/// template is wider or taller than the frame. The match lies inside the
/// frame, and its score within minus one and one.
pub fn find_bobber(frame: &Frame, templates: &Vec<EdgeMap>, config: &EdgeConfig) -> (r: Result<
    MatchResult,
    DetectionError,
>)
    ensures
        match r {
            Ok(found) => bobber_fault(frame@, templates@) is None && is_bobber_match(
                frame@,
                templates@[0]@,
                *config,
                found,
            ) && found.spec_region(
                templates@[0]@.width as u32,
                templates@[0]@.height as u32,
            ).inside(frame@.width, frame@.height) && -SCORE_SCALE <= found.score_ppm
                <= SCORE_SCALE,
            Err(e) => bobber_fault(frame@, templates@) == Some(e),
        },
{
    if templates.len() == 0 {
        return Err(DetectionError::EmptyTemplateSet);
    }
    locate_in_frame(frame, &templates[0], config)
}

/// The point in the middle of a region, moved by an offset.
pub open spec fn aim_of(region: Region, offset: PointerOffset) -> (int, int) {
    (region.x + region.width / 2 + offset.dx, region.y + region.height / 2 + offset.dy)
}

/// Computes where to put the pointer for a region: its centre, moved by
/// the offset.
pub fn aim_point(region: Region, offset: PointerOffset) -> (p: (i64, i64))
    ensures
        (p.0 as int, p.1 as int) == aim_of(region, offset),
{
    let x: i64 = region.x as i64 + (region.width / 2) as i64 + offset.dx as i64;
    let y: i64 = region.y as i64 + (region.height / 2) as i64 + offset.dy as i64;
    (x, y)
}

} // verus!
