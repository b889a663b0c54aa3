//! The rolling window of line metrics that stream analytics works on.
//!
//! The statistics over the window (z-score, error entropy) are floating point
//! and are computed by the caller.
use vstd::prelude::*;
use std::collections::VecDeque;

verus! {

broadcast use vstd::std_specs::vecdeque::group_vec_dequeue_axioms;

/// A line length as the analytics interface takes it: clamped to `i32::MAX`.
pub open spec fn clamped_length(length: usize) -> i32 {
    if length <= i32::MAX as usize {
        length as i32
    } else {
        i32::MAX
    }
}

/// The last `cap` elements of a sequence, or all of them when there are fewer.
pub open spec fn newest(s: Seq<i32>, cap: int) -> Seq<i32> {
    if s.len() > cap {
        s.subrange(s.len() - cap, s.len() as int)
    } else {
        s
    }
}

/// The number of error-level samples: the flags that are not zero.
pub open spec fn error_total(s: Seq<i32>) -> nat
    decreases s.len(),
{
    if s.len() == 0 {
        0
    } else {
        error_total(s.drop_last()) + if s.last() != 0 {
            1nat
        } else {
            0nat
        }
    }
}

/// A window of `n` samples, `errors` of them error-level, shows an error spike
/// when it is not empty and at least half its samples are error-level.
pub open spec fn error_spike(n: nat, errors: nat) -> bool {
    n > 0 && 2 * errors >= n
}

proof fn lemma_error_total_bound(s: Seq<i32>)
    ensures
        error_total(s) <= s.len(),
    decreases s.len(),
{
    if s.len() > 0 {
        lemma_error_total_bound(s.drop_last());
    }
}

/// The metrics of the most recent lines: their lengths and whether each was
/// error-level (1) or not (0).
#[derive(Debug)]
pub struct MetricWindow {
    capacity: usize,
    lengths: VecDeque<i32>,
    errors: VecDeque<i32>,
}

impl MetricWindow {
    pub closed spec fn spec_capacity(&self) -> usize {
        self.capacity
    }

    /// The lengths in the window, oldest first.
    pub closed spec fn spec_lengths(&self) -> Seq<i32> {
        self.lengths@
    }

    /// The error flags in the window, oldest first.
    pub closed spec fn spec_errors(&self) -> Seq<i32> {
        self.errors@
    }

    /// As many flags as lengths, at most `capacity` of them, and room for at least two.
    pub closed spec fn wf(&self) -> bool {
        &&& self.lengths@.len() == self.errors@.len()
        &&& self.lengths@.len() <= self.capacity
        &&& self.capacity >= 2
    }

    /// An empty window of `capacity` samples, at least two.
    pub fn new(capacity: usize) -> (w: Self)
        ensures
            w.wf(),
            w.spec_capacity() == if capacity < 2 {
                2
            } else {
                capacity
            },
            w.spec_lengths().len() == 0,
            w.spec_errors().len() == 0,
    {
        let capacity = if capacity < 2 {
            2
        } else {
            capacity
        };
        MetricWindow {
            capacity,
            lengths: VecDeque::with_capacity(capacity),
            errors: VecDeque::with_capacity(capacity),
        }
    }

    /// Adds the metrics of a line, dropping the oldest when the window is full.
    pub fn push(&mut self, length: usize, is_error: bool)
        requires
            old(self).wf(),
        ensures
            final(self).wf(),
            final(self).spec_capacity() == old(self).spec_capacity(),
            final(self).spec_lengths() == newest(
                old(self).spec_lengths().push(clamped_length(length)),
                old(self).spec_capacity() as int,
            ),
            final(self).spec_errors() == newest(
                old(self).spec_errors().push(if is_error {
                    1i32
                } else {
                    0i32
                }),
                old(self).spec_capacity() as int,
            ),
    {
        if self.lengths.len() == self.capacity {
            self.lengths.pop_front();
            self.errors.pop_front();
        }
        let value: i32 = if length <= 2147483647 {
            length as i32
        } else {
            2147483647
        };
        self.lengths.push_back(value);
        self.errors.push_back(if is_error {
            1
        } else {
            0
        });
        proof {
            let cap = old(self).capacity as int;
            let ol = old(self).lengths@;
            let oe = old(self).errors@;
            if ol.len() == cap {
                assert(self.lengths@ =~= newest(ol.push(clamped_length(length)), cap));
                assert(self.errors@ =~= newest(oe.push(if is_error {
                    1i32
                } else {
                    0i32
                }), cap));
            }
        }
    }

    /// The lengths in the window, oldest first.
    pub fn lengths(&self) -> (v: Vec<i32>)
        ensures
            v@ == self.spec_lengths(),
    {
        let mut v: Vec<i32> = Vec::new();
        let mut i: usize = 0;
        while i < self.lengths.len()
            invariant
                i <= self.lengths@.len(),
                v@ == self.lengths@.subrange(0, i as int),
            decreases self.lengths@.len() - i,
        {
            v.push(self.lengths[i]);
            assert(v@ =~= self.lengths@.subrange(0, i + 1));
            i = i + 1;
        }
        assert(v@ =~= self.lengths@);
        v
    }

    /// The error flags in the window, oldest first.
    pub fn errors(&self) -> (v: Vec<i32>)
        ensures
            v@ == self.spec_errors(),
    {
        let mut v: Vec<i32> = Vec::new();
        let mut i: usize = 0;
        while i < self.errors.len()
            invariant
                i <= self.errors@.len(),
                v@ == self.errors@.subrange(0, i as int),
            decreases self.errors@.len() - i,
        {
            v.push(self.errors[i]);
            assert(v@ =~= self.errors@.subrange(0, i + 1));
            i = i + 1;
        }
        assert(v@ =~= self.errors@);
        v
    }

    /// The number of samples in the window.
    pub fn len(&self) -> (n: usize)
        ensures
            n == self.spec_lengths().len(),
    {
        self.lengths.len()
    }

    /// The number of error-level samples in the window.
    pub fn error_count(&self) -> (n: usize)
        ensures
            n == error_total(self.spec_errors()),
    {
        let mut n: usize = 0;
        let mut i: usize = 0;
        while i < self.errors.len()
            invariant
                i <= self.errors@.len(),
                n == error_total(self.errors@.subrange(0, i as int)),
                n <= i,
            decreases self.errors@.len() - i,
        {
            assert(self.errors@.subrange(0, i + 1).drop_last() =~= self.errors@.subrange(0, i as int));
            if self.errors[i] != 0 {
                n = n + 1;
            }
            i = i + 1;
        }
        assert(self.errors@.subrange(0, i as int) =~= self.errors@);
        n
    }

    /// Whether the window shows an error spike: it is not empty and at least
    /// half of its samples are error-level.
    pub fn has_error_spike(&self) -> (b: bool)
        requires
            self.wf(),
        ensures
            b == error_spike(self.spec_lengths().len(), error_total(self.spec_errors())),
    {
        let count = self.lengths.len();
        let errors = self.error_count();
        proof {
            lemma_error_total_bound(self.errors@);
        }
        count > 0 && errors >= count - errors
    }
}

/// The window holds the newest samples: after any pushes it keeps the last
/// `capacity` of all the lengths pushed, oldest first.
pub proof fn law_window_keeps_newest(s: Seq<i32>, x: i32, cap: int)
    requires
        cap >= 1,
    ensures
        newest(newest(s, cap).push(x), cap) == newest(s.push(x), cap),
{
    assert(newest(newest(s, cap).push(x), cap) =~= newest(s.push(x), cap));
}

} // verus!
