use vstd::prelude::*;
use crate::codec::Temperature;
use crate::filter::{mean, median, trailing, MovingAverage, MovingMedian};

verus! {

/// The reading that a cycle works on: the temperature read, in tenths of a degree, or the
/// hottest one there is when the read failed.
pub open spec fn sample_of(reading: Option<u8>) -> u32 {
    match reading {
        Some(d) => (d * 10) as u32,
        None => u32::MAX,
    }
}

/// How the temperature curve is smoothed before a policy sees it.
pub enum Smoothing {
    Raw,
    Average(MovingAverage),
    Median(MovingMedian),
}

/// The part of the control loop that decides: from each telemetry read, successful or not,
/// the temperature that the policy gets.
pub struct ControlLoop {
    pub smoothing: Smoothing,
}

impl ControlLoop {
    pub open spec fn wf(self) -> bool {
        match self.smoothing {
            Smoothing::Raw => true,
            Smoothing::Average(f) => f.wf(),
            Smoothing::Median(f) => f.wf(),
        }
    }

    /// The readings the smoothing keeps, oldest first: none for a raw curve.
    pub open spec fn window(self) -> Seq<u32> {
        match self.smoothing {
            Smoothing::Raw => Seq::empty(),
            Smoothing::Average(f) => f.window(),
            Smoothing::Median(f) => f.window(),
        }
    }

    /// How many readings the smoothing keeps.
    pub open spec fn capacity(self) -> nat {
        match self.smoothing {
            Smoothing::Raw => 0,
            Smoothing::Average(f) => f.capacity(),
            Smoothing::Median(f) => f.capacity(),
        }
    }

    /// The temperature a cycle hands to the policy, given its window after the reading.
    pub open spec fn smoothed(self, window: Seq<u32>, sample: u32) -> int {
        match self.smoothing {
            Smoothing::Raw => sample as int,
            Smoothing::Average(_) => mean(window),
            Smoothing::Median(_) => median(window) as int,
        }
    }

    /// A loop that smooths by the mean of the last `backlog` readings.
    pub fn with_moving_average(backlog: usize) -> (r: ControlLoop)
        requires
            backlog >= 1,
        ensures
            r.wf(),
            r.smoothing is Average,
            r.window() == Seq::<u32>::empty(),
            r.capacity() == backlog,
    {
        ControlLoop { smoothing: Smoothing::Average(MovingAverage::new(backlog)) }
    }

    /// A loop that smooths by the median of the last `backlog` readings.
    pub fn with_moving_median(backlog: usize) -> (r: ControlLoop)
        requires
            backlog >= 1,
        ensures
            r.wf(),
            r.smoothing is Median,
            r.window() == Seq::<u32>::empty(),
            r.capacity() == backlog,
    {
        ControlLoop { smoothing: Smoothing::Median(MovingMedian::new(backlog)) }
    }

    /// A loop that hands each reading on unchanged.
    pub fn raw() -> (r: ControlLoop)
        ensures
            r.wf(),
            r.smoothing is Raw,
    {
        ControlLoop { smoothing: Smoothing::Raw }
    }

    /// One cycle: takes the result of a telemetry read (`None` when it failed) and returns
    /// the temperature for the policy. A failed read counts as the hottest temperature.
    pub fn next_temperature(&mut self, reading: Option<u8>) -> (r: Temperature)
        requires
            old(self).wf(),
        ensures
            final(self).wf(),
            final(self).capacity() == old(self).capacity(),
            old(self).smoothing is Raw ==> final(self).smoothing is Raw,
            old(self).smoothing is Average ==> final(self).smoothing is Average,
            old(self).smoothing is Median ==> final(self).smoothing is Median,
            !(old(self).smoothing is Raw) ==> final(self).window() == trailing(
                old(self).window().push(sample_of(reading)),
                old(self).capacity(),
            ),
            r.decidegrees == old(self).smoothed(final(self).window(), sample_of(reading)),
    {
        let sample = match reading {
            Some(d) => Temperature::from_degrees_celsius(d),
            None => Temperature::max(),
        };
        match &mut self.smoothing {
            Smoothing::Raw => sample,
            Smoothing::Average(f) => f.next(sample),
            Smoothing::Median(f) => f.next(sample),
        }
    }
}

/// Drops a result whose error was already reported.
pub trait ResultExt {
    fn ignore(self);
}

impl<T, E> ResultExt for Result<T, E> {
    fn ignore(self) {
    }
}

/// A failed read does not stop the loop: the cycle after it still takes a fresh reading,
/// which enters the window as read, behind the worst-case stand-in of the failure.
pub proof fn lemma_failed_read_contained(window: Seq<u32>, capacity: nat, d: u8)
    requires
        capacity >= 2,
        window.len() <= capacity,
    ensures
        sample_of(None) == u32::MAX,
        ({
            let w1 = trailing(window.push(sample_of(None)), capacity);
            let w2 = trailing(w1.push(sample_of(Some(d))), capacity);
            &&& w1.last() == u32::MAX
            &&& w2.last() == d as int * 10
            &&& w2[w2.len() - 2] == u32::MAX
            &&& w2.len() <= capacity
        }),
{
}

} // verus!
