use vstd::prelude::*;
use vstd::relations::{sorted_by, total_ordering};
use crate::codec::Temperature;
use std::collections::VecDeque;

verus! {

broadcast use vstd::seq_lib::group_to_multiset_ensures;

/// The last `n` elements of `s`, or all of them when there are fewer.
pub open spec fn trailing(s: Seq<u32>, n: nat) -> Seq<u32> {
    if s.len() <= n {
        s
    } else {
        s.subrange(s.len() - n, s.len() as int)
    }
}

pub open spec fn sum(s: Seq<u32>) -> int
    decreases s.len(),
{
    if s.len() == 0 {
        0
    } else {
        sum(s.drop_last()) + s.last()
    }
}

/// Arithmetic mean, truncated.
pub open spec fn mean(s: Seq<u32>) -> int {
    sum(s) / (s.len() as int)
}

/// The ascending order on readings.
pub open spec fn ascending() -> spec_fn(u32, u32) -> bool {
    |a: u32, b: u32| a <= b
}

/// The element at index `len / 2` of the ascending sort: for an even length the upper one
/// of the two middle elements.
pub open spec fn median(s: Seq<u32>) -> u32 {
    s.sort_by(ascending())[(s.len() / 2) as int]
}

/// The readings of a stream of temperatures, in tenths of a degree.
pub open spec fn readings(s: Seq<Temperature>) -> Seq<u32> {
    s.map_values(|t: Temperature| t.decidegrees)
}

pub proof fn lemma_ascending_total()
    ensures
        total_ordering(ascending()),
{
}

proof fn lemma_trailing_push(s: Seq<u32>, v: u32, n: nat)
    requires
        n >= 1,
    ensures
        trailing(trailing(s, n).push(v), n) == trailing(s.push(v), n),
{
    assert(trailing(trailing(s, n).push(v), n) =~= trailing(s.push(v), n));
}

proof fn lemma_sum_prefix(s: Seq<u32>, i: int)
    requires
        0 <= i < s.len(),
    ensures
        sum(s.subrange(0, i + 1)) == sum(s.subrange(0, i)) + s[i],
{
    assert(s.subrange(0, i + 1).drop_last() =~= s.subrange(0, i));
}

/// Adds `value` to a window of at most `n` readings, dropping the oldest when it is full.
fn slide(buf: &mut VecDeque<u32>, value: u32, n: usize)
    requires
        n >= 1,
        old(buf)@.len() <= n,
    ensures
        final(buf)@ == trailing(old(buf)@.push(value), n as nat),
        1 <= final(buf)@.len() <= n,
{
    buf.push_back(value);
    if buf.len() > n {
        buf.pop_front();
    }
    assert(buf@ =~= trailing(old(buf)@.push(value), n as nat));
}

/// Mean of a non-empty window.
fn window_mean(buf: &VecDeque<u32>) -> (r: u32)
    requires
        buf@.len() >= 1,
    ensures
        r == mean(buf@),
{
    let mut total: u128 = 0;
    let mut i: usize = 0;
    while i < buf.len()
        invariant
            i <= buf@.len(),
            total == sum(buf@.subrange(0, i as int)),
            total <= i * 0xffff_ffffu128,
        decreases buf@.len() - i,
    {
        proof {
            lemma_sum_prefix(buf@, i as int);
        }
        total = total + buf[i] as u128;
        i = i + 1;
    }
    assert(buf@.subrange(0, i as int) =~= buf@);
    let len = buf.len() as u128;
    proof {
        assert(total / len <= 0xffff_ffffu128) by (nonlinear_arith)
            requires total <= len * 0xffff_ffffu128, len >= 1;
    }
    (total / len) as u32
}

/// Smooths a stream of temperatures by the mean of a trailing window.
pub struct MovingAverage {
    window_size: usize,
    buf: VecDeque<u32>,
}

impl MovingAverage {
    /// The window never holds more than its capacity, which is at least one.
    pub closed spec fn wf(self) -> bool {
        self.window_size >= 1 && self.buf@.len() <= self.window_size
    }

    /// The readings in the window, oldest first.
    pub closed spec fn window(self) -> Seq<u32> {
        self.buf@
    }

    /// How many readings the window keeps.
    pub closed spec fn capacity(self) -> nat {
        self.window_size as nat
    }

    pub fn new(window_size: usize) -> (r: MovingAverage)
        requires
            window_size >= 1,
        ensures
            r.window() == Seq::<u32>::empty(),
            r.capacity() == window_size,
            r.wf(),
    {
        MovingAverage { window_size, buf: VecDeque::new() }
    }

    /// Takes the next temperature and returns the mean of the window.
    pub fn next(&mut self, value: Temperature) -> (r: Temperature)
        requires
            old(self).wf(),
        ensures
            final(self).wf(),
            final(self).capacity() == old(self).capacity(),
            final(self).window().len() >= 1,
            final(self).window() == trailing(old(self).window().push(value.decidegrees), old(self).capacity()),
            r.decidegrees == mean(final(self).window()),
    {
        let n = self.window_size;
        slide(&mut self.buf, value.decidegrees, n);
        Temperature { decidegrees: window_mean(&self.buf) }
    }
}

/// Smooths a stream of temperatures by the median of a trailing window.
pub struct MovingMedian {
    window_size: usize,
    buf: VecDeque<u32>,
}

/// Inserts `x` into an ascending vector, keeping it ascending.
fn insert_sorted(t: &mut Vec<u32>, x: u32)
    requires
        sorted_by(old(t)@, ascending()),
    ensures
        sorted_by(final(t)@, ascending()),
        final(t)@.to_multiset() == old(t)@.to_multiset().insert(x),
{
    let mut pos: usize = 0;
    while pos < t.len() && t[pos] <= x
        invariant
            pos <= t@.len(),
            t@ == old(t)@,
            forall|k: int| 0 <= k < pos ==> t@[k] <= x,
        decreases t@.len() - pos,
    {
        pos = pos + 1;
    }
    proof {
        assert forall|k: int| pos <= k < t@.len() implies t@[k] > x by {
            assert(ascending()(t@[pos as int], t@[k]));
        }
    }
    let ghost before = t@;
    t.insert(pos, x);
    proof {
        assert forall|i: int, j: int| 0 <= i < j < t@.len() implies #[trigger] ascending()(t@[i], t@[j]) by {
            if j < pos {
                assert(ascending()(before[i], before[j]));
            } else if i > pos {
                assert(ascending()(before[i - 1], before[j - 1]));
            } else if i < pos && j > pos {
                assert(before[i] <= x);
            }
        }
    }
}

/// An ascending copy of `s`.
fn sorted_copy(s: &VecDeque<u32>) -> (r: Vec<u32>)
    ensures
        sorted_by(r@, ascending()),
        r@.to_multiset() == s@.to_multiset(),
{
    let mut t: Vec<u32> = Vec::new();
    let mut i: usize = 0;
    while i < s.len()
        invariant
            i <= s@.len(),
            sorted_by(t@, ascending()),
            t@.to_multiset() == s@.subrange(0, i as int).to_multiset(),
        decreases s@.len() - i,
    {
        insert_sorted(&mut t, s[i]);
        proof {
            assert(s@.subrange(0, i + 1) =~= s@.subrange(0, i as int).push(s@[i as int]));
        }
        i = i + 1;
    }
    assert(s@.subrange(0, i as int) =~= s@);
    t
}

/// Median of a non-empty window.
fn window_median(buf: &VecDeque<u32>) -> (r: u32)
    requires
        buf@.len() >= 1,
    ensures
        r == median(buf@),
{
    let t = sorted_copy(buf);
    proof {
        lemma_ascending_total();
        buf@.lemma_sort_by_ensures(ascending());
        vstd::seq_lib::lemma_sorted_unique(t@, buf@.sort_by(ascending()), ascending());
        vstd::seq_lib::to_multiset_len(t@);
        vstd::seq_lib::to_multiset_len(buf@);
    }
    t[t.len() / 2]
}

impl MovingMedian {
    /// The window never holds more than its capacity, which is at least one.
    pub closed spec fn wf(self) -> bool {
        self.window_size >= 1 && self.buf@.len() <= self.window_size
    }

    /// The readings in the window, oldest first.
    pub closed spec fn window(self) -> Seq<u32> {
        self.buf@
    }

    /// How many readings the window keeps.
    pub closed spec fn capacity(self) -> nat {
        self.window_size as nat
    }

    pub fn new(window_size: usize) -> (r: MovingMedian)
        requires
            window_size >= 1,
        ensures
            r.window() == Seq::<u32>::empty(),
            r.capacity() == window_size,
            r.wf(),
    {
        MovingMedian { window_size, buf: VecDeque::new() }
    }

    /// Takes the next temperature and returns the median of the window.
    pub fn next(&mut self, value: Temperature) -> (r: Temperature)
        requires
            old(self).wf(),
        ensures
            final(self).wf(),
            final(self).capacity() == old(self).capacity(),
            final(self).window().len() >= 1,
            final(self).window() == trailing(old(self).window().push(value.decidegrees), old(self).capacity()),
            r.decidegrees == median(final(self).window()),
    {
        let n = self.window_size;
        slide(&mut self.buf, value.decidegrees, n);
        Temperature { decidegrees: window_median(&self.buf) }
    }
}

/// The smoothed stream that a window of `n` readings gives: one output per input, the
/// window at each position holding the readings up to it.
pub open spec fn smoothed_average(s: Seq<u32>, n: nat) -> Seq<int> {
    Seq::new(s.len(), |i: int| mean(trailing(s.take(i + 1), n)))
}

/// Like `smoothed_average`, with the median of each window.
pub open spec fn smoothed_median(s: Seq<u32>, n: nat) -> Seq<int> {
    Seq::new(s.len(), |i: int| median(trailing(s.take(i + 1), n)) as int)
}

proof fn lemma_readings_step(values: Seq<Temperature>, i: int)
    requires
        0 <= i < values.len(),
    ensures
        readings(values).take(i + 1) == readings(values).take(i).push(values[i].decidegrees),
{
    assert(readings(values).take(i + 1) =~= readings(values).take(i).push(values[i].decidegrees));
}

/// Smooths a whole stream of temperatures by the mean of a trailing window.
pub fn smooth_by_average(values: &Vec<Temperature>, window_size: usize) -> (r: Vec<Temperature>)
    requires
        window_size >= 1,
    ensures
        r@.len() == values@.len(),
        forall|i: int|
            0 <= i < r@.len() ==> r@[i].decidegrees == #[trigger] smoothed_average(
                readings(values@),
                window_size as nat,
            )[i],
{
    let mut f = MovingAverage::new(window_size);
    let mut out: Vec<Temperature> = Vec::new();
    let mut i: usize = 0;
    while i < values.len()
        invariant
            i <= values@.len(),
            f.wf(),
            f.capacity() == window_size,
            f.window() == trailing(readings(values@).take(i as int), window_size as nat),
            out@.len() == i,
            window_size >= 1,
            forall|k: int|
                0 <= k < i ==> out@[k].decidegrees == #[trigger] smoothed_average(
                    readings(values@),
                    window_size as nat,
                )[k],
        decreases values@.len() - i,
    {
        let t = f.next(values[i]);
        proof {
            lemma_readings_step(values@, i as int);
            lemma_trailing_push(readings(values@).take(i as int), values@[i as int].decidegrees, window_size as nat);
        }
        out.push(t);
        i = i + 1;
    }
    out
}

/// Smooths a whole stream of temperatures by the median of a trailing window.
pub fn smooth_by_median(values: &Vec<Temperature>, window_size: usize) -> (r: Vec<Temperature>)
    requires
        window_size >= 1,
    ensures
        r@.len() == values@.len(),
        forall|i: int|
            0 <= i < r@.len() ==> r@[i].decidegrees == #[trigger] smoothed_median(
                readings(values@),
                window_size as nat,
            )[i],
{
    let mut f = MovingMedian::new(window_size);
    let mut out: Vec<Temperature> = Vec::new();
    let mut i: usize = 0;
    while i < values.len()
        invariant
            i <= values@.len(),
            f.wf(),
            f.capacity() == window_size,
            f.window() == trailing(readings(values@).take(i as int), window_size as nat),
            out@.len() == i,
            window_size >= 1,
            forall|k: int|
                0 <= k < i ==> out@[k].decidegrees == #[trigger] smoothed_median(
                    readings(values@),
                    window_size as nat,
                )[k],
        decreases values@.len() - i,
    {
        let t = f.next(values[i]);
        proof {
            lemma_readings_step(values@, i as int);
            lemma_trailing_push(readings(values@).take(i as int), values@[i as int].decidegrees, window_size as nat);
        }
        out.push(t);
        i = i + 1;
    }
    out
}

/// Smoothing of a stream by a moving average.
pub trait MovingAverageIteratorExt: Sized {
    fn moving_average(self, window_size: usize) -> Vec<Temperature>
        requires
            window_size >= 1,
    ;
}

impl MovingAverageIteratorExt for Vec<Temperature> {
    fn moving_average(self, window_size: usize) -> (r: Vec<Temperature>)
        ensures
            r@.len() == self@.len(),
            forall|i: int|
                0 <= i < r@.len() ==> r@[i].decidegrees == #[trigger] smoothed_average(
                    readings(self@),
                    window_size as nat,
                )[i],
    {
        smooth_by_average(&self, window_size)
    }
}

/// Smoothing of a stream by a moving median.
pub trait MovingMedianIteratorExt: Sized {
    fn moving_median(self, window_size: usize) -> Vec<Temperature>
        requires
            window_size >= 1,
    ;
}

impl MovingMedianIteratorExt for Vec<Temperature> {
    fn moving_median(self, window_size: usize) -> (r: Vec<Temperature>)
        ensures
            r@.len() == self@.len(),
            forall|i: int|
                0 <= i < r@.len() ==> r@[i].decidegrees == #[trigger] smoothed_median(
                    readings(self@),
                    window_size as nat,
                )[i],
    {
        smooth_by_median(&self, window_size)
    }
}

} // verus!
