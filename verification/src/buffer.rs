//! The scope buffer: a sliding window over the most recent sample points.
//!
//! The buffer is modelled as a sequence of points, oldest first. Every
//! operation is described through the window functions of [`crate::window`].

use std::collections::VecDeque;
use vstd::prelude::*;
use crate::point::SamplePoint;
use crate::window::{latest, paired, pushed, pushed_all, zipped};
use crate::window::lemma_repeated_push_is_batch;

verus! {

/// Number of points the display keeps when nothing else is configured.
pub const MAX_NUM_SAMPLES: usize = 2_000;

/// Why a buffer could not be configured.
#[derive(Clone, Copy, Debug, PartialEq, Eq, Structural)]
pub enum ConfigError {
    /// The requested capacity is below zero.
    NegativeCapacity,
}

/// A bounded first-in, first-out history of sample points.
pub struct ScopeBuffer {
    samples: VecDeque<SamplePoint>,
    capacity: usize,
}

impl ScopeBuffer {
    /// The retained points, oldest first.
    pub closed spec fn view(&self) -> Seq<SamplePoint> {
        self.samples@
    }

    /// The bound on the number of retained points, fixed at construction.
    pub closed spec fn spec_capacity(&self) -> nat {
        self.capacity as nat
    }

    /// The buffer never holds more points than its capacity.
    pub open spec fn wf(&self) -> bool {
        self@.len() <= self.spec_capacity()
    }

    /// An empty buffer that retains at most `capacity` points.
    pub fn new(capacity: usize) -> (buffer: ScopeBuffer)
        ensures
            buffer.wf(),
            buffer@ == Seq::<SamplePoint>::empty(),
            buffer.spec_capacity() == capacity,
    {
        ScopeBuffer { samples: VecDeque::new(), capacity }
    }

    /// An empty buffer from a configured capacity, which is refused when it
    /// is negative. A capacity of zero is accepted: such a buffer stays
    /// empty.
    pub fn try_new(capacity: isize) -> (outcome: Result<ScopeBuffer, ConfigError>)
        ensures
            capacity < 0 <==> outcome == Err::<ScopeBuffer, ConfigError>(
                ConfigError::NegativeCapacity,
            ),
            capacity >= 0 <==> outcome is Ok,
            outcome matches Ok(buffer) ==> {
                &&& buffer.wf()
                &&& buffer@ == Seq::<SamplePoint>::empty()
                &&& buffer.spec_capacity() == capacity
            },
    {
        if capacity < 0 {
            Err(ConfigError::NegativeCapacity)
        } else {
            Ok(ScopeBuffer::new(capacity as usize))
        }
    }

    /// The bound on the number of retained points.
    pub fn capacity(&self) -> (capacity: usize)
        ensures
            capacity == self.spec_capacity(),
    {
        self.capacity
    }

    /// The number of retained points.
    pub fn len(&self) -> (len: usize)
        requires
            self.wf(),
        ensures
            len == self@.len(),
            len <= self.spec_capacity(),
    {
        self.samples.len()
    }

    /// Appends `point` as the newest item, then discards the oldest items
    /// until no more than the capacity remain.
    pub fn push(&mut self, point: SamplePoint)
        requires
            old(self).wf(),
        ensures
            final(self).wf(),
            final(self).spec_capacity() == old(self).spec_capacity(),
            final(self)@ == pushed(old(self)@, point, old(self).spec_capacity()),
    {
        self.samples.push_back(point);
        let ghost grown = self.samples@;
        while self.samples.len() > self.capacity
            invariant
                self.capacity == old(self).capacity,
                grown == old(self)@.push(point),
                self.samples@.len() <= grown.len(),
                self.samples@.len() >= self.capacity || self.samples@.len() == grown.len(),
                self.samples@ =~= grown.subrange(
                    grown.len() - self.samples@.len(),
                    grown.len() as int,
                ),
            decreases self.samples@.len(),
        {
            self.samples.pop_front();
        }
        assert(self.samples@ =~= latest(grown, self.capacity as nat));
    }

    /// Pushes every item of `points`, first to last, as [`ScopeBuffer::push`]
    /// would one at a time.
    pub fn push_batch(&mut self, points: &[SamplePoint])
        requires
            old(self).wf(),
        ensures
            final(self).wf(),
            final(self).spec_capacity() == old(self).spec_capacity(),
            final(self)@ == pushed_all(old(self)@, points@, old(self).spec_capacity()),
            final(self)@ == latest(old(self)@ + points@, old(self).spec_capacity()),
    {
        let n: usize = points.len();
        let mut i: usize = 0;
        while i < n
            invariant
                n == points@.len(),
                i <= n,
                self.wf(),
                self.spec_capacity() == old(self).spec_capacity(),
                self@ == pushed_all(old(self)@, points@.take(i as int), old(self).spec_capacity()),
            decreases n - i,
        {
            self.push(points[i]);
            proof {
                assert(points@.take(i + 1).drop_last() =~= points@.take(i as int));
            }
            i += 1;
        }
        proof {
            assert(points@.take(n as int) =~= points@);
            lemma_repeated_push_is_batch(old(self)@, points@, old(self).spec_capacity());
        }
    }

    /// Pull delivery: walks `data` in groups of two interleaved channel
    /// values and pushes each group as one point. A trailing value without a
    /// partner is ignored.
    pub fn push_interleaved(&mut self, data: &[u32])
        requires
            old(self).wf(),
        ensures
            final(self).wf(),
            final(self).spec_capacity() == old(self).spec_capacity(),
            final(self)@ == pushed_all(old(self)@, paired(data@), old(self).spec_capacity()),
            final(self)@ == latest(old(self)@ + paired(data@), old(self).spec_capacity()),
    {
        let len: usize = data.len();
        let groups: usize = len / 2;
        let mut i: usize = 0;
        while i < groups
            invariant
                len == data@.len(),
                groups == len / 2,
                i <= groups,
                self.wf(),
                self.spec_capacity() == old(self).spec_capacity(),
                self@ == pushed_all(
                    old(self)@,
                    paired(data@).take(i as int),
                    old(self).spec_capacity(),
                ),
            decreases groups - i,
        {
            let point = SamplePoint::new(data[2 * i], data[2 * i + 1]);
            self.push(point);
            proof {
                assert(paired(data@).take(i + 1).drop_last() =~= paired(data@).take(i as int));
            }
            i += 1;
        }
        proof {
            assert(paired(data@).take(groups as int) =~= paired(data@));
            lemma_repeated_push_is_batch(old(self)@, paired(data@), old(self).spec_capacity());
        }
    }

    /// Callback delivery: pushes item `i` of `left` with item `i` of `right`
    /// as one point, for every `i` that both runs have.
    pub fn push_zipped(&mut self, left: &[u32], right: &[u32])
        requires
            old(self).wf(),
        ensures
            final(self).wf(),
            final(self).spec_capacity() == old(self).spec_capacity(),
            final(self)@ == pushed_all(
                old(self)@,
                zipped(left@, right@),
                old(self).spec_capacity(),
            ),
            final(self)@ == latest(
                old(self)@ + zipped(left@, right@),
                old(self).spec_capacity(),
            ),
    {
        let n: usize = if left.len() <= right.len() { left.len() } else { right.len() };
        let mut i: usize = 0;
        while i < n
            invariant
                n <= left@.len(),
                n <= right@.len(),
                n == left@.len() || n == right@.len(),
                i <= n,
                self.wf(),
                self.spec_capacity() == old(self).spec_capacity(),
                self@ == pushed_all(
                    old(self)@,
                    zipped(left@, right@).take(i as int),
                    old(self).spec_capacity(),
                ),
            decreases n - i,
        {
            let point = SamplePoint::new(left[i], right[i]);
            self.push(point);
            proof {
                assert(zipped(left@, right@).take(i + 1).drop_last() =~= zipped(
                    left@,
                    right@,
                ).take(i as int));
            }
            i += 1;
        }
        proof {
            assert(zipped(left@, right@).take(n as int) =~= zipped(left@, right@));
            lemma_repeated_push_is_batch(
                old(self)@,
                zipped(left@, right@),
                old(self).spec_capacity(),
            );
        }
    }

    /// The retained points, oldest first, as they stand at this moment.
    pub fn snapshot(&self) -> (points: Vec<SamplePoint>)
        requires
            self.wf(),
        ensures
            points@ == self@,
            points@.len() <= self.spec_capacity(),
    {
        let n: usize = self.samples.len();
        let mut points: Vec<SamplePoint> = Vec::with_capacity(n);
        let mut i: usize = 0;
        while i < n
            invariant
                n == self.samples@.len(),
                i <= n,
                points@ == self.samples@.take(i as int),
            decreases n - i,
        {
            points.push(self.samples[i]);
            i += 1;
        }
        points
    }
}

/// Reading is repeatable: two snapshots of one buffer with no push between
/// them hold the same points in the same order.
pub proof fn lemma_snapshot_repeatable(
    buffer: ScopeBuffer,
    first: Seq<SamplePoint>,
    second: Seq<SamplePoint>,
)
    requires
        first == buffer@,
        second == buffer@,
    ensures
        first == second,
{
}

} // verus!
