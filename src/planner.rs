//! The coverage planner: from a polygon and a swath width to the path.
use crate::crossing::{crossings, line_crossings, pair_crossings, pair_up};
use crate::geometry::{PathPoint, Point, Ratio, Segment};
use crate::order::{sort_by_value, sort_ratios};
use crate::polygon::{
    bounding_box,
    bounds_of,
    close_ring,
    closed,
    horizontal_for,
    sweeps_horizontally,
    PlanError,
};
use crate::stitch::{stitch, stitched};
use crate::swath::{ceil_div, lemma_lines_increasing, lemma_swath_count, line_offsets, swath_lines};
use vstd::prelude::*;

verus! {

/// The swath width used where the caller names none, in the caller's unit.
pub const DEFAULT_SWATH_WIDTH: u32 = 10;

/// The segments on one line: its crossings sorted by value and paired.
pub open spec fn segments_on_line(ring: Seq<Point>, horizontal: bool, h: int) -> Seq<Segment> {
    pair_up(sort_by_value(crossings(ring, horizontal, h)), horizontal, h)
}

/// The segments on each line in turn.
pub open spec fn segments_on_lines(ring: Seq<Point>, horizontal: bool, lines: Seq<int>) -> Seq<
    Segment,
>
    decreases lines.len(),
{
    if lines.len() == 0 {
        seq![]
    } else {
        segments_on_lines(ring, horizontal, lines.drop_last()) + segments_on_line(
            ring,
            horizontal,
            lines.last(),
        )
    }
}

/// Whether the swaths over a polygon run horizontally.
pub open spec fn plan_horizontal(points: Seq<Point>) -> bool {
    horizontal_for(bounds_of(closed(points)))
}

/// The doubled offsets of the swath lines over a polygon, across the
/// chosen sweep.
pub open spec fn plan_lines(points: Seq<Point>, width: int) -> Seq<int> {
    let b = bounds_of(closed(points));
    if horizontal_for(b) {
        line_offsets(b.min_y as int, b.max_y as int, width)
    } else {
        line_offsets(b.min_x as int, b.max_x as int, width)
    }
}

/// The coverage path over a polygon of at least three vertices.
pub open spec fn plan_path(points: Seq<Point>, width: int) -> Seq<PathPoint> {
    let ring = closed(points);
    stitched(segments_on_lines(ring, plan_horizontal(points), plan_lines(points, width)))
}

/// The segments on one swath line of a closed ring.
pub fn line_segments(ring: &Vec<Point>, horizontal: bool, line: i64) -> (r: Vec<Segment>)
    requires
        ring@.len() >= 1,
    ensures
        r@ == segments_on_line(ring@, horizontal, line as int),
{
    let found = line_crossings(ring, horizontal, line);
    let sorted = sort_ratios(&found);
    pair_crossings(&sorted, horizontal, line)
}

/// Plans the boustrophedon coverage path of a polygon for swaths of the
/// given width. Fails with `InvalidPolygon` on fewer than three vertices;
/// otherwise the path is `plan_path` of the vertices, a function of the
/// input alone.
pub fn compute_shortest_path(points: &Vec<Point>, width: u32) -> (r: Result<
    Vec<PathPoint>,
    PlanError,
>)
    requires
        width > 0,
    ensures
        r is Err <==> points@.len() < 3,
        r is Err ==> r == Err::<Vec<PathPoint>, PlanError>(PlanError::InvalidPolygon),
        r matches Ok(path) ==> path@ == plan_path(points@, width as int),
{
    let ring = match close_ring(points) {
        Ok(ring) => ring,
        Err(e) => return Err(e),
    };
    let b = bounding_box(&ring);
    let horizontal = sweeps_horizontally(&b);
    proof {
        lemma_bounds_ordered(ring@);
    }
    let lines = if horizontal {
        swath_lines(b.min_y, b.max_y, width)
    } else {
        swath_lines(b.min_x, b.max_x, width)
    };
    let ghost spec_lines = plan_lines(points@, width as int);
    // Lines are visited in increasing order, so the segments come out in the
    // order of their lines (lemma_plan_segments_in_line_order) and need no
    // further sort before stitching.
    let mut segments: Vec<Segment> = Vec::new();
    let mut i: usize = 0;
    while i < lines.len()
        invariant
            ring@.len() >= 3,
            lines@.len() == spec_lines.len(),
            forall|j: int| 0 <= j < lines@.len() ==> lines@[j] as int == #[trigger] spec_lines[j],
            i <= lines@.len(),
            segments@ == segments_on_lines(ring@, horizontal, spec_lines.subrange(0, i as int)),
        decreases lines@.len() - i,
    {
        let mut part = line_segments(&ring, horizontal, lines[i]);
        proof {
            let pre = spec_lines.subrange(0, i as int + 1);
            assert(pre.drop_last() == spec_lines.subrange(0, i as int));
            assert(pre.last() == lines@[i as int] as int);
        }
        segments.append(&mut part);
        i = i + 1;
    }
    assert(spec_lines.subrange(0, spec_lines.len() as int) == spec_lines);
    Ok(stitch(&segments))
}

/// The bounds of a non-empty sequence are ordered.
proof fn lemma_bounds_ordered(s: Seq<Point>)
    requires
        s.len() >= 1,
    ensures
        bounds_of(s).min_x <= bounds_of(s).max_x,
        bounds_of(s).min_y <= bounds_of(s).max_y,
{
    crate::polygon::lemma_extremes_in_range(s, true);
    crate::polygon::lemma_extremes_in_range(s, false);
}

/// The extent of the polygon across the sweep: its height when the swaths
/// run horizontally, else its width.
pub open spec fn extent_across(points: Seq<Point>) -> int {
    let b = bounds_of(closed(points));
    if horizontal_for(b) {
        b.max_y - b.min_y
    } else {
        b.max_x - b.min_x
    }
}

/// A polygon whose extents both exceed the swath width gets one line more
/// than the number of widths, rounded up, in its extent across the sweep
/// less one width, and no line passes the far bound less half a width.
pub proof fn lemma_plan_line_count(points: Seq<Point>, width: int)
    requires
        points.len() >= 3,
        width > 0,
        bounds_of(closed(points)).max_x - bounds_of(closed(points)).min_x > width,
        bounds_of(closed(points)).max_y - bounds_of(closed(points)).min_y > width,
    ensures
        plan_lines(points, width).len() == ceil_div(extent_across(points) - width, width) + 1,
{
    let b = bounds_of(closed(points));
    if horizontal_for(b) {
        lemma_swath_count(b.min_y as int, b.max_y as int, width);
    } else {
        lemma_swath_count(b.min_x as int, b.max_x as int, width);
    }
}

/// The position of a segment across the sweep: the line it lies on.
pub open spec fn line_position(seg: Segment, horizontal: bool) -> Ratio {
    if horizontal {
        seg.start.y
    } else {
        seg.start.x
    }
}

/// Every segment lies on one of the lines, between the first and the last.
proof fn lemma_positions_within(ring: Seq<Point>, horizontal: bool, lines: Seq<int>)
    requires
        forall|l: int| 0 <= l < lines.len() ==> -0x1_0000_0000_0000 <= #[trigger] lines[l] <= 0x1_0000_0000_0000,
        forall|i: int, j: int| 0 <= i < j < lines.len() ==> #[trigger] lines[i] < #[trigger] lines[j],
    ensures
        forall|i: int|
            0 <= i < segments_on_lines(ring, horizontal, lines).len() ==> {
                let p = line_position(#[trigger] segments_on_lines(ring, horizontal, lines)[i], horizontal);
                &&& p.den == 2
                &&& lines[0] <= p.num <= lines.last()
            },
    decreases lines.len(),
{
    if lines.len() > 0 {
        let pre = lines.drop_last();
        lemma_positions_within(ring, horizontal, pre);
        let segs = segments_on_lines(ring, horizontal, lines);
        let old_segs = segments_on_lines(ring, horizontal, pre);
        let part = segments_on_line(ring, horizontal, lines.last());
        assert forall|i: int| 0 <= i < segs.len() implies {
            let p = line_position(#[trigger] segs[i], horizontal);
            &&& p.den == 2
            &&& lines[0] <= p.num <= lines.last()
        } by {
            if i < old_segs.len() {
                assert(segs[i] == old_segs[i]);
                if pre.len() > 1 {
                    assert(lines[0] < lines[pre.len() - 1]);
                }
                assert(pre.len() > 0);
                assert(pre.last() <= lines.last());
            } else {
                assert(segs[i] == part[i - old_segs.len()]);
                if lines.len() > 1 {
                    assert(lines[0] < lines[lines.len() - 1]);
                }
            }
        }
    }
}

/// Over strictly increasing lines, the segments come in the order of
/// their lines.
proof fn lemma_segments_ordered(ring: Seq<Point>, horizontal: bool, lines: Seq<int>)
    requires
        forall|l: int| 0 <= l < lines.len() ==> -0x1_0000_0000_0000 <= #[trigger] lines[l] <= 0x1_0000_0000_0000,
        forall|i: int, j: int| 0 <= i < j < lines.len() ==> #[trigger] lines[i] < #[trigger] lines[j],
    ensures
        forall|i: int, j: int|
            0 <= i < j < segments_on_lines(ring, horizontal, lines).len() ==> line_position(
                #[trigger] segments_on_lines(ring, horizontal, lines)[i],
                horizontal,
            ).le(line_position(#[trigger] segments_on_lines(ring, horizontal, lines)[j], horizontal)),
    decreases lines.len(),
{
    if lines.len() > 0 {
        let pre = lines.drop_last();
        lemma_segments_ordered(ring, horizontal, pre);
        lemma_positions_within(ring, horizontal, pre);
        lemma_positions_within(ring, horizontal, lines);
        let segs = segments_on_lines(ring, horizontal, lines);
        let old_segs = segments_on_lines(ring, horizontal, pre);
        let part = segments_on_line(ring, horizontal, lines.last());
        assert forall|i: int, j: int| 0 <= i < j < segs.len() implies line_position(
            #[trigger] segs[i],
            horizontal,
        ).le(line_position(#[trigger] segs[j], horizontal)) by {
            let pi = line_position(segs[i], horizontal);
            let pj = line_position(segs[j], horizontal);
            if j < old_segs.len() {
                assert(segs[i] == old_segs[i]);
                assert(segs[j] == old_segs[j]);
            } else if i < old_segs.len() {
                assert(segs[i] == old_segs[i]);
                assert(segs[j] == part[j - old_segs.len()]);
                assert(pre.len() > 0);
                assert(pre.last() < lines.last());
                assert(pj.num == lines.last());
            } else {
                assert(segs[i] == part[i - old_segs.len()]);
                assert(segs[j] == part[j - old_segs.len()]);
            }
        }
    }
}

/// The planned segments come in the order of their swath lines, so sorting
/// them stably by line position would leave them as they are.
pub proof fn lemma_plan_segments_in_line_order(points: Seq<Point>, width: int)
    requires
        points.len() >= 3,
        0 < width <= u32::MAX,
    ensures
        ({
            let segs = segments_on_lines(closed(points), plan_horizontal(points), plan_lines(points, width));
            forall|i: int, j: int|
                0 <= i < j < segs.len() ==> line_position(#[trigger] segs[i], plan_horizontal(points)).le(
                    line_position(#[trigger] segs[j], plan_horizontal(points)),
                )
        }),
{
    let ring = closed(points);
    let b = bounds_of(ring);
    crate::polygon::lemma_extremes_in_range(ring, true);
    crate::polygon::lemma_extremes_in_range(ring, false);
    let lines = plan_lines(points, width);
    if horizontal_for(b) {
        lemma_lines_increasing(b.min_y as int, b.max_y as int, width);
    } else {
        lemma_lines_increasing(b.min_x as int, b.max_x as int, width);
    }
    assert forall|l: int| 0 <= l < lines.len() implies -0x1_0000_0000_0000 <= #[trigger] lines[l]
        <= 0x1_0000_0000_0000 by {}
    lemma_segments_ordered(ring, plan_horizontal(points), lines);
}

} // verus!
