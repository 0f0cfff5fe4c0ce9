//! Crossings of a swath line with the polygon boundary, and their pairing
//! into segments.
use crate::geometry::{coord, PathPoint, Point, Ratio, Segment};
use vstd::prelude::*;

verus! {

/// Edge `p1 -> p2` is crossed by the line at doubled offset `h`: it is not
/// parallel to the line, and `h / 2` lies in the half-open span of its
/// endpoints across the line, closed at the lower end.
pub open spec fn edge_hit(p1: Point, p2: Point, horizontal: bool, h: int) -> bool {
    let c1 = coord(p1, !horizontal);
    let c2 = coord(p2, !horizontal);
    c1 != c2 && ((2 * c1 <= h && h < 2 * c2) || (2 * c2 <= h && h < 2 * c1))
}

/// Where the line at doubled offset `h` meets edge `p1 -> p2`, as a
/// coordinate along the line: `o1 + t * (o2 - o1)` with
/// `t = (h / 2 - c1) / (c2 - c1)`, over a positive denominator.
pub open spec fn crossing_at(p1: Point, p2: Point, horizontal: bool, h: int) -> Ratio {
    let c1 = coord(p1, !horizontal);
    let c2 = coord(p2, !horizontal);
    let o1 = coord(p1, horizontal);
    let o2 = coord(p2, horizontal);
    let num = 2 * o1 * (c2 - c1) + (h - 2 * c1) * (o2 - o1);
    let den = 2 * (c2 - c1);
    if den > 0 {
        Ratio { num: num as i128, den: den as i128 }
    } else {
        Ratio { num: (-num) as i128, den: (-den) as i128 }
    }
}

/// The crossings of the line with the first `n` edges of the ring, in edge
/// order; edge `i` runs from vertex `i` to vertex `i + 1`.
pub open spec fn crossings_upto(ring: Seq<Point>, horizontal: bool, h: int, n: int) -> Seq<Ratio>
    decreases n,
{
    if n <= 0 {
        seq![]
    } else {
        let prev = crossings_upto(ring, horizontal, h, n - 1);
        if edge_hit(ring[n - 1], ring[n], horizontal, h) {
            prev.push(crossing_at(ring[n - 1], ring[n], horizontal, h))
        } else {
            prev
        }
    }
}

/// The crossings of the line with every edge of a closed ring.
pub open spec fn crossings(ring: Seq<Point>, horizontal: bool, h: int) -> Seq<Ratio> {
    crossings_upto(ring, horizontal, h, ring.len() - 1)
}

/// The point at coordinate `o` along the line at doubled offset `h`.
pub open spec fn on_line(horizontal: bool, h: int, o: Ratio) -> PathPoint {
    if horizontal {
        PathPoint { x: o, y: Ratio::half(h) }
    } else {
        PathPoint { x: Ratio::half(h), y: o }
    }
}

/// Consecutive coordinates paired into segments on the line; an unpaired
/// last one is dropped.
pub open spec fn pair_up(s: Seq<Ratio>, horizontal: bool, h: int) -> Seq<Segment> {
    Seq::new(
        s.len() / 2,
        |k: int|
            Segment { start: on_line(horizontal, h, s[2 * k]), end: on_line(horizontal, h, s[2 * k + 1]) },
    )
}

/// The crossing of one edge with the line, if the edge is crossed.
pub fn edge_crossing(p1: Point, p2: Point, horizontal: bool, line: i64) -> (r: Option<Ratio>)
    ensures
        r is Some <==> edge_hit(p1, p2, horizontal, line as int),
        r matches Some(x) ==> x == crossing_at(p1, p2, horizontal, line as int) && x.wf(),
{
    let (c1, c2, o1, o2) = if horizontal {
        (p1.y as i128, p2.y as i128, p1.x as i128, p2.x as i128)
    } else {
        (p1.x as i128, p2.x as i128, p1.y as i128, p2.y as i128)
    };
    let h = line as i128;
    if c1 == c2 {
        // parallel to the line: no crossing
        return None;
    }
    if !((2 * c1 <= h && h < 2 * c2) || (2 * c2 <= h && h < 2 * c1)) {
        return None;
    }
    let dc = c2 - c1;
    let t = h - 2 * c1;
    let dv = o2 - o1;
    proof {
        let (o1i, dci, ti, dvi) = (o1 as int, dc as int, t as int, dv as int);
        assert(-0x1_0000_0000_0000_0000 <= 2 * o1i * dci <= 0x1_0000_0000_0000_0000)
            by (nonlinear_arith)
            requires
                -0x8000_0000 <= o1i <= 0x8000_0000,
                -0x1_0000_0000 <= dci <= 0x1_0000_0000,
        ;
        assert(-0x4_0000_0000_0000_0000 <= ti * dvi <= 0x4_0000_0000_0000_0000) by (nonlinear_arith)
            requires
                -0x2_0000_0000 <= ti <= 0x2_0000_0000,
                -0x2_0000_0000 <= dvi <= 0x2_0000_0000,
        ;
    }
    let num = 2 * o1 * dc + t * dv;
    let den = 2 * dc;
    if den > 0 {
        Some(Ratio { num, den })
    } else {
        Some(Ratio { num: -num, den: -den })
    }
}

/// The crossings of the line at doubled offset `line` with every edge of
/// the ring, in edge order.
pub fn line_crossings(ring: &Vec<Point>, horizontal: bool, line: i64) -> (r: Vec<Ratio>)
    requires
        ring@.len() >= 1,
    ensures
        r@ == crossings(ring@, horizontal, line as int),
        forall|i: int| 0 <= i < r@.len() ==> (#[trigger] r@[i]).wf(),
{
    let mut found: Vec<Ratio> = Vec::new();
    let mut i: usize = 0;
    let edges: usize = ring.len() - 1;
    while i < edges
        invariant
            ring@.len() >= 1,
            edges == ring@.len() - 1,
            i <= edges,
            found@ == crossings_upto(ring@, horizontal, line as int, i as int),
            forall|j: int| 0 <= j < found@.len() ==> (#[trigger] found@[j]).wf(),
        decreases ring@.len() - i,
    {
        match edge_crossing(ring[i], ring[i + 1], horizontal, line) {
            Some(x) => found.push(x),
            None => {},
        }
        i = i + 1;
    }
    found
}

/// Pairs sorted coordinates on the line into segments.
pub fn pair_crossings(sorted: &Vec<Ratio>, horizontal: bool, line: i64) -> (r: Vec<Segment>)
    ensures
        r@ == pair_up(sorted@, horizontal, line as int),
{
    let half = Ratio { num: line as i128, den: 2 };
    let mut segments: Vec<Segment> = Vec::new();
    let mut k: usize = 0;
    while k < sorted.len() / 2
        invariant
            half == Ratio::half(line as int),
            k <= sorted@.len() / 2,
            segments@ == pair_up(sorted@, horizontal, line as int).subrange(0, k as int),
        decreases sorted@.len() / 2 - k,
    {
        let a = sorted[2 * k];
        let b = sorted[2 * k + 1];
        let seg = if horizontal {
            Segment { start: PathPoint { x: a, y: half }, end: PathPoint { x: b, y: half } }
        } else {
            Segment { start: PathPoint { x: half, y: a }, end: PathPoint { x: half, y: b } }
        };
        segments.push(seg);
        k = k + 1;
        assert(segments@ == pair_up(sorted@, horizontal, line as int).subrange(0, k as int));
    }
    segments
}

} // verus!
