//! The sliding window as mathematics: what a bounded history holds after
//! points arrive, stated over sequences, and the laws that follow.

use vstd::prelude::*;
use crate::point::SamplePoint;

verus! {

/// The newest `k` items of `s`, in their order; all of `s` if it has no more
/// than `k`.
pub open spec fn latest(s: Seq<SamplePoint>, k: nat) -> Seq<SamplePoint> {
    if s.len() <= k {
        s
    } else {
        s.subrange(s.len() - k, s.len() as int)
    }
}

/// The contents after one push into a buffer of capacity `k` holding `s`.
pub open spec fn pushed(s: Seq<SamplePoint>, point: SamplePoint, k: nat) -> Seq<SamplePoint> {
    latest(s.push(point), k)
}

/// The contents after pushing every item of `points`, first to last, one at
/// a time, into a buffer of capacity `k` holding `s`.
pub open spec fn pushed_all(s: Seq<SamplePoint>, points: Seq<SamplePoint>, k: nat) -> Seq<
    SamplePoint,
>
    decreases points.len(),
{
    if points.len() == 0 {
        s
    } else {
        pushed(pushed_all(s, points.drop_last(), k), points.last(), k)
    }
}

/// The points carried by a run of interleaved channel values: items `2i` and
/// `2i + 1` form point `i`. A trailing value without a partner is left out.
pub open spec fn paired(data: Seq<u32>) -> Seq<SamplePoint> {
    Seq::new((data.len() / 2) as nat, |i: int| SamplePoint { x: data[2 * i], y: data[2 * i + 1] })
}

/// The points carried by two channel runs: item `i` of each forms point `i`,
/// as far as the shorter run goes.
pub open spec fn zipped(left: Seq<u32>, right: Seq<u32>) -> Seq<SamplePoint> {
    Seq::new(
        if left.len() <= right.len() { left.len() } else { right.len() },
        |i: int| SamplePoint { x: left[i], y: right[i] },
    )
}

/// Trimming to the newest `k` before a push changes nothing: the window
/// after the push is the same as if nothing had been discarded earlier.
pub proof fn lemma_latest_absorbs_push(s: Seq<SamplePoint>, point: SamplePoint, k: nat)
    ensures
        latest(latest(s, k).push(point), k) == latest(s.push(point), k),
{
    assert(latest(latest(s, k).push(point), k) =~= latest(s.push(point), k));
}

/// The window never holds more than `k` items, and holds exactly `k` once
/// that many are on offer.
pub proof fn lemma_latest_len(s: Seq<SamplePoint>, k: nat)
    ensures
        latest(s, k).len() == if s.len() <= k { s.len() } else { k },
{
}

/// Pushing the items of a batch one at a time leaves the same contents as
/// appending the whole batch and then keeping the newest `k`.
pub proof fn lemma_repeated_push_is_batch(s: Seq<SamplePoint>, points: Seq<SamplePoint>, k: nat)
    requires
        s.len() <= k,
    ensures
        pushed_all(s, points, k) == latest(s + points, k),
    decreases points.len(),
{
    if points.len() == 0 {
        assert(s + points =~= s);
    } else {
        let front = points.drop_last();
        lemma_repeated_push_is_batch(s, front, k);
        lemma_latest_absorbs_push(s + front, points.last(), k);
        assert((s + front).push(points.last()) =~= s + points);
    }
}

/// However many points are pushed, the contents never exceed the capacity.
pub proof fn lemma_pushes_stay_bounded(s: Seq<SamplePoint>, points: Seq<SamplePoint>, k: nat)
    requires
        s.len() <= k,
    ensures
        pushed_all(s, points, k).len() <= k,
{
    lemma_repeated_push_is_batch(s, points, k);
}

/// First in, first out: once at least `k` points have been pushed, the
/// contents are exactly the last `k` of them, in the order they were pushed.
pub proof fn lemma_fifo_keeps_newest(s: Seq<SamplePoint>, points: Seq<SamplePoint>, k: nat)
    requires
        s.len() <= k,
        points.len() >= k,
    ensures
        pushed_all(s, points, k) == points.subrange(points.len() - k, points.len() as int),
{
    lemma_repeated_push_is_batch(s, points, k);
    assert(latest(s + points, k) =~= points.subrange(points.len() - k, points.len() as int));
}

/// With capacity zero the contents stay empty whatever is pushed.
pub proof fn lemma_zero_capacity_stays_empty(s: Seq<SamplePoint>, points: Seq<SamplePoint>)
    requires
        s.len() == 0,
    ensures
        pushed_all(s, points, 0) == Seq::<SamplePoint>::empty(),
{
    lemma_repeated_push_is_batch(s, points, 0);
    assert(latest(s + points, 0) =~= Seq::<SamplePoint>::empty());
}

} // verus!
