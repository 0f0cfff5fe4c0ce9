//! Stitching segments into one back-and-forth path.
use crate::geometry::{PathPoint, Segment};
use vstd::prelude::*;

verus! {

/// The two endpoints of segment number `i` in travel order: odd-numbered
/// segments are travelled backwards.
pub open spec fn travel(seg: Segment, i: int) -> Seq<PathPoint> {
    if i % 2 == 1 {
        seq![seg.end, seg.start]
    } else {
        seq![seg.start, seg.end]
    }
}

/// The boustrophedon path through the segments in their order.
pub open spec fn stitched(segs: Seq<Segment>) -> Seq<PathPoint>
    decreases segs.len(),
{
    if segs.len() == 0 {
        seq![]
    } else {
        stitched(segs.drop_last()) + travel(segs.last(), segs.len() - 1)
    }
}

/// The path holds two points per segment, and points `2i` and `2i + 1` are
/// the two endpoints of segment `i`: from start to end for even `i`, from
/// end to start for odd `i`. No step of the path mixes endpoints of two
/// segments.
pub proof fn lemma_stitch_alternates(segs: Seq<Segment>)
    ensures
        stitched(segs).len() == 2 * segs.len(),
        forall|i: int|
            0 <= i < segs.len() ==> {
                &&& i % 2 == 0 ==> stitched(segs)[2 * i] == (#[trigger] segs[i]).start
                    && stitched(segs)[2 * i + 1] == segs[i].end
                &&& i % 2 == 1 ==> stitched(segs)[2 * i] == segs[i].end && stitched(segs)[2 * i
                    + 1] == segs[i].start
            },
    decreases segs.len(),
{
    if segs.len() > 0 {
        let p = segs.drop_last();
        lemma_stitch_alternates(p);
        assert forall|i: int| 0 <= i < p.len() implies #[trigger] segs[i] == p[i] by {}
    }
}

/// Lays the segments end to end, reversing every second one.
pub fn stitch(segments: &Vec<Segment>) -> (path: Vec<PathPoint>)
    ensures
        path@ == stitched(segments@),
{
    let mut path: Vec<PathPoint> = Vec::new();
    let mut i: usize = 0;
    while i < segments.len()
        invariant
            i <= segments@.len(),
            path@ == stitched(segments@.subrange(0, i as int)),
        decreases segments@.len() - i,
    {
        let seg = segments[i];
        proof {
            let pre = segments@.subrange(0, i as int + 1);
            assert(pre.drop_last() == segments@.subrange(0, i as int));
        }
        if i % 2 == 1 {
            path.push(seg.end);
            path.push(seg.start);
        } else {
            path.push(seg.start);
            path.push(seg.end);
        }
        i = i + 1;
    }
    assert(segments@.subrange(0, segments@.len() as int) == segments@);
    path
}

} // verus!
