//! What a renderer draws from a snapshot: one line segment between each pair
//! of neighbouring points, each with its place on a linear brightness ramp.

use vstd::prelude::*;
use crate::point::SamplePoint;

verus! {

/// One line of the trace.
///
/// The line is drawn at `step / steps` of the base colour, so brightness
/// rises in equal steps from the oldest line to the newest.
#[derive(Clone, Copy, Debug, PartialEq, Eq, Structural)]
pub struct Segment {
    /// The older end of the line.
    pub from: SamplePoint,
    /// The newer end of the line.
    pub to: SamplePoint,
    /// How many ramp steps have been taken when this line is drawn.
    pub step: usize,
    /// The number of ramp steps that make up the full base colour: the
    /// number of points in the snapshot.
    pub steps: usize,
}

/// The lines drawn for `points`: none for fewer than two points, otherwise
/// line `i` joins point `i` to point `i + 1` at step `i + 1` of a ramp with
/// as many steps as there are points.
pub open spec fn segments_of(points: Seq<SamplePoint>) -> Seq<Segment> {
    if points.len() < 2 {
        Seq::empty()
    } else {
        Seq::new(
            (points.len() - 1) as nat,
            |i: int|
                Segment {
                    from: points[i],
                    to: points[i + 1],
                    step: (i + 1) as usize,
                    steps: points.len() as usize,
                },
        )
    }
}

/// Plans the lines for a snapshot, oldest first.
pub fn plan_segments(points: &[SamplePoint]) -> (plan: Vec<Segment>)
    ensures
        plan@ == segments_of(points@),
{
    let n: usize = points.len();
    let mut plan: Vec<Segment> = Vec::new();
    if n < 2 {
        return plan;
    }
    let mut i: usize = 0;
    while i < n - 1
        invariant
            n == points@.len(),
            n >= 2,
            i <= n - 1,
            plan@ == segments_of(points@).take(i as int),
        decreases n - 1 - i,
    {
        plan.push(Segment { from: points[i], to: points[i + 1], step: i + 1, steps: n });
        assert(plan@ =~= segments_of(points@).take(i + 1));
        i += 1;
    }
    assert(plan@ =~= segments_of(points@));
    plan
}

/// A snapshot of fewer than two points yields no line; one of `n >= 2`
/// points yields exactly `n - 1`.
pub proof fn lemma_segment_count(points: Seq<SamplePoint>)
    ensures
        points.len() < 2 ==> segments_of(points).len() == 0,
        points.len() >= 2 ==> segments_of(points).len() == points.len() - 1,
{
}

/// Neighbouring lines share an end point: the trace is one connected line
/// through the points in their order.
pub proof fn lemma_segments_connected(points: Seq<SamplePoint>, i: int)
    requires
        0 <= i,
        i + 1 < segments_of(points).len(),
    ensures
        segments_of(points)[i].to == segments_of(points)[i + 1].from,
        segments_of(points)[i].from == points[i],
        segments_of(points)[i].to == points[i + 1],
{
}

/// Brightness strictly increases along the trace: all lines share one ramp
/// length, a later line stands at a later step, and no step lies outside
/// the ramp.
pub proof fn lemma_intensity_increases(points: Seq<SamplePoint>, i: int, j: int)
    requires
        points.len() <= usize::MAX,
        0 <= i < j < segments_of(points).len(),
    ensures
        segments_of(points)[i].steps == segments_of(points)[j].steps,
        segments_of(points)[i].steps == points.len(),
        0 < segments_of(points)[i].step < segments_of(points)[j].step,
        segments_of(points)[j].step < segments_of(points)[j].steps,
{
}

} // verus!
