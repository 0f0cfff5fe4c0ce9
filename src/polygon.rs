//! Closing the polygon ring, its bounding box, and the sweep orientation.
use crate::geometry::{coord, Point};
use vstd::prelude::*;

verus! {

/// Why a polygon was refused.
#[derive(Clone, Copy, Debug, PartialEq, Eq, Structural)]
pub enum PlanError {
    /// Fewer than three vertices were supplied.
    InvalidPolygon,
}

/// The ring with its first vertex repeated at the end, unless it already
/// ends where it starts.
pub open spec fn closed(s: Seq<Point>) -> Seq<Point> {
    if s[0] == s[s.len() - 1] {
        s
    } else {
        s.push(s[0])
    }
}

/// The smallest coordinate along the chosen axis over a non-empty sequence.
pub open spec fn lo_of(s: Seq<Point>, x_axis: bool) -> int
    decreases s.len(),
{
    if s.len() <= 1 {
        coord(s[0], x_axis)
    } else {
        let rest = lo_of(s.drop_last(), x_axis);
        let c = coord(s.last(), x_axis);
        if c < rest {
            c
        } else {
            rest
        }
    }
}

/// The largest coordinate along the chosen axis over a non-empty sequence.
pub open spec fn hi_of(s: Seq<Point>, x_axis: bool) -> int
    decreases s.len(),
{
    if s.len() <= 1 {
        coord(s[0], x_axis)
    } else {
        let rest = hi_of(s.drop_last(), x_axis);
        let c = coord(s.last(), x_axis);
        if c > rest {
            c
        } else {
            rest
        }
    }
}

/// The axis-aligned bounding box of a vertex sequence.
#[derive(Clone, Copy, Debug, PartialEq, Eq, Structural)]
pub struct Bounds {
    pub min_x: i32,
    pub max_x: i32,
    pub min_y: i32,
    pub max_y: i32,
}

pub open spec fn bounds_of(s: Seq<Point>) -> Bounds {
    Bounds {
        min_x: lo_of(s, true) as i32,
        max_x: hi_of(s, true) as i32,
        min_y: lo_of(s, false) as i32,
        max_y: hi_of(s, false) as i32,
    }
}

/// Swaths run along x (constant-y lines) when the box is at least as wide
/// as it is tall.
pub open spec fn horizontal_for(b: Bounds) -> bool {
    b.max_x - b.min_x >= b.max_y - b.min_y
}

/// The extremes along an axis are ordered and fit in `i32`.
pub proof fn lemma_extremes_in_range(s: Seq<Point>, x_axis: bool)
    requires
        s.len() >= 1,
    ensures
        i32::MIN <= lo_of(s, x_axis) <= hi_of(s, x_axis) <= i32::MAX,
    decreases s.len(),
{
    if s.len() > 1 {
        lemma_extremes_in_range(s.drop_last(), x_axis);
    }
}

/// Closes an open ring by appending its first vertex; refuses fewer than
/// three vertices. The result always ends where it starts.
pub fn close_ring(points: &Vec<Point>) -> (r: Result<Vec<Point>, PlanError>)
    ensures
        r is Err <==> points@.len() < 3,
        r is Err ==> r == Err::<Vec<Point>, PlanError>(PlanError::InvalidPolygon),
        r matches Ok(ring) ==> {
            &&& ring@ == closed(points@)
            &&& ring@.len() >= 3
            &&& ring@[0] == ring@[ring@.len() - 1]
        },
{
    if points.len() < 3 {
        return Err(PlanError::InvalidPolygon);
    }
    let mut ring: Vec<Point> = Vec::new();
    let mut i: usize = 0;
    while i < points.len()
        invariant
            i <= points@.len(),
            ring@ == points@.subrange(0, i as int),
        decreases points@.len() - i,
    {
        ring.push(points[i]);
        i = i + 1;
    }
    assert(ring@ == points@);
    let first = points[0];
    if first != points[points.len() - 1] {
        ring.push(first);
    }
    Ok(ring)
}

/// The bounding box of a non-empty vertex sequence.
pub fn bounding_box(ring: &Vec<Point>) -> (b: Bounds)
    requires
        ring@.len() >= 1,
    ensures
        b == bounds_of(ring@),
{
    let mut b = Bounds { min_x: ring[0].x, max_x: ring[0].x, min_y: ring[0].y, max_y: ring[0].y };
    let mut i: usize = 1;
    while i < ring.len()
        invariant
            1 <= i <= ring@.len(),
            b == bounds_of(ring@.subrange(0, i as int)),
        decreases ring@.len() - i,
    {
        let p = ring[i];
        proof {
            let pre = ring@.subrange(0, i as int + 1);
            assert(pre.drop_last() == ring@.subrange(0, i as int));
            lemma_extremes_in_range(ring@.subrange(0, i as int), true);
            lemma_extremes_in_range(ring@.subrange(0, i as int), false);
        }
        if p.x < b.min_x {
            b.min_x = p.x;
        }
        if p.x > b.max_x {
            b.max_x = p.x;
        }
        if p.y < b.min_y {
            b.min_y = p.y;
        }
        if p.y > b.max_y {
            b.max_y = p.y;
        }
        i = i + 1;
    }
    assert(ring@.subrange(0, ring@.len() as int) == ring@);
    b
}

/// Whether swaths over the box run horizontally; ties favour horizontal.
pub fn sweeps_horizontally(b: &Bounds) -> (r: bool)
    ensures
        r == horizontal_for(*b),
{
    (b.max_x as i64 - b.min_x as i64) >= (b.max_y as i64 - b.min_y as i64)
}

} // verus!
