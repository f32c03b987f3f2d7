//! Lightweight function timing: a fixed-capacity capture buffer on the hot
//! path, a channel that carries each drained cycle away from it, and an
//! aggregator that keeps running averages and ranked lists of the slowest
//! occurrences for every checkpoint.

pub mod buffer;
pub mod clock;
pub mod error;
pub mod lifecycle;
pub mod ranking;
pub mod record;
pub mod stats;
pub mod transport;

pub use crate::buffer::{FnTimer, FnTimerView, Spot};
pub use crate::clock::duration_to_nano;
pub use crate::error::Error;
pub use crate::lifecycle::{next_step, Phase, Step, Wake};
pub use crate::ranking::add_duration;
pub use crate::record::{Counter, LineTiming, Percent, StreamData, TimeMsg};
pub use crate::stats::{Output, Stats, StatsView};
pub use crate::transport::Collector;

use std::sync::mpsc::Receiver;
use vstd::prelude::*;

verus! {

/// How a pipeline is to be set up.
pub struct Settings {
    /// Checkpoints that one cycle may take.
    pub max_timers: usize,
    /// Counters that one cycle may take.
    pub max_counters: usize,
    /// Readings after which ranked lists are reset and records flushed.
    pub average_length: u64,
    /// Durations that a ranked list may hold.
    pub num_top: usize,
    /// Where flushed records go.
    pub output: Output,
}

/// Sets up a pipeline: the sending end of a new transport, an empty capture
/// buffer, an aggregator that has seen nothing, and the receiving end of the
/// transport, from which the aggregator's loop takes its readings.
pub fn new(settings: Settings) -> (parts: (Collector, FnTimer, Stats, Receiver<TimeMsg>))
    ensures
        parts.1.wf(),
        parts.1@ == FnTimerView::empty(settings.max_timers as nat, settings.max_counters as nat),
        parts.2.wf(),
        parts.2@ == StatsView::fresh(settings.average_length as nat, settings.num_top as nat),
        parts.2.sink() == settings.output,
{
    let Settings { max_timers, max_counters, average_length, num_top, output } = settings;
    let (tx, rx) = std::sync::mpsc::channel();
    (
        Collector::new(tx),
        FnTimer::new(max_timers, max_counters),
        Stats::new(average_length, num_top, output),
        rx,
    )
}

} // verus!
