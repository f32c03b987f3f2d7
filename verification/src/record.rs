//! The records that the aggregator emits.

use vstd::prelude::*;

verus! {

/// A named count taken during a cycle.
#[derive(Debug, Clone, Copy, PartialEq, Eq, Structural)]
pub struct Counter {
    pub line: u32,
    pub n: usize,
}

/// A duration as a share of a reference duration, kept as the two lengths so
/// that nothing is lost to rounding: `part` is `part / whole * 100` percent of
/// `whole`, and no percent at all of a reference of zero.
#[derive(Debug, Clone, Copy, PartialEq, Eq, Structural)]
pub struct Percent {
    pub part: u64,
    pub whole: u64,
}

impl Percent {
    /// The share in hundredths of a percent, rounded down.
    pub open spec fn hundredths(self) -> nat {
        if self.whole == 0 {
            0
        } else {
            (self.part as nat * 10000) / (self.whole as nat)
        }
    }

    /// The share in hundredths of a percent, rounded down; zero against a
    /// reference of zero.
    pub fn basis_points(&self) -> (points: u128)
        ensures
            points == self.hundredths(),
    {
        if self.whole == 0 {
            0
        } else {
            let scaled: u128 = self.part as u128 * 10000;
            scaled / self.whole as u128
        }
    }
}

/// The durations of a ranked list, each with its share of `base`.
pub open spec fn shares(list: Seq<u64>, base: u64) -> Seq<(u64, Percent)> {
    Seq::new(list.len(), |i: int| (list[i], Percent { part: list[i], whole: base }))
}

/// Where one checkpoint stands after a reading: its longest durations and its
/// running average, each in nanoseconds and as a share of the overall average
/// before the reading.
#[derive(Debug, PartialEq, Eq)]
pub struct LineTiming {
    pub line_number: u32,
    pub top_durations: Vec<(u64, Percent)>,
    pub average_of_line: (u64, Percent),
}

pub struct LineTimingView {
    pub line_number: u32,
    pub top_durations: Seq<(u64, Percent)>,
    pub average_of_line: (u64, Percent),
}

impl View for LineTiming {
    type V = LineTimingView;

    open spec fn view(&self) -> LineTimingView {
        LineTimingView {
            line_number: self.line_number,
            top_durations: self.top_durations@,
            average_of_line: self.average_of_line,
        }
    }
}

/// One reading as it is emitted: a snapshot for every checkpoint of the
/// reading, and the reading's counters.
#[derive(Debug, PartialEq, Eq)]
pub struct StreamData {
    pub capture: Vec<LineTiming>,
    pub count: Vec<Counter>,
}

pub struct StreamDataView {
    pub capture: Seq<LineTimingView>,
    pub count: Seq<Counter>,
}

/// The snapshots of a list, one by one.
pub open spec fn timing_views(timings: Seq<LineTiming>) -> Seq<LineTimingView> {
    Seq::new(timings.len(), |i: int| timings[i]@)
}

impl View for StreamData {
    type V = StreamDataView;

    open spec fn view(&self) -> StreamDataView {
        StreamDataView { capture: timing_views(self.capture@), count: self.count@ }
    }
}

/// The records of a list, one by one.
pub open spec fn record_views(records: Seq<StreamData>) -> Seq<StreamDataView> {
    Seq::new(records.len(), |i: int| records[i]@)
}

/// One drained cycle on its way to the aggregator: the checkpoints with the
/// time each took, and the counters.
#[derive(Debug, PartialEq, Eq)]
pub struct TimeMsg {
    pub times: Vec<(u32, u64)>,
    pub counts: Vec<Counter>,
}

} // verus!
