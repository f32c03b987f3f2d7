//! The aggregator: running averages and ranked lists for every checkpoint,
//! and the queue of records that waits for the next flush.

use crate::ranking::{add_duration, lemma_top_n_bounded, lemma_top_n_sorted, sorted_desc, top_n};
use crate::record::{
    record_views, shares, timing_views, Counter, LineTiming, LineTimingView, Percent, StreamData,
    StreamDataView, TimeMsg,
};
use std::collections::HashMap;
use vstd::prelude::*;

verus! {

/// Where flushed records go.
#[derive(Debug, PartialEq, Eq)]
pub enum Output {
    /// Line-oriented text on standard output.
    Print,
    /// Records appended to the file of this name.
    JSON(String),
}

/// The durations of a reading, added up.
pub open spec fn duration_sum(times: Seq<(u32, u64)>) -> nat
    decreases times.len(),
{
    if times.len() == 0 {
        0
    } else {
        duration_sum(times.drop_last()) + times.last().1 as nat
    }
}

/// The durations that a reading holds for `line`, added up.
pub open spec fn label_sum(times: Seq<(u32, u64)>, line: u32) -> nat
    decreases times.len(),
{
    if times.len() == 0 {
        0
    } else if times.last().0 == line {
        label_sum(times.drop_last(), line) + times.last().1 as nat
    } else {
        label_sum(times.drop_last(), line)
    }
}

/// What the aggregator knows.
#[verifier::ext_equal]
pub struct StatsView {
    /// The longest durations of each checkpoint since the last reset.
    pub tops: Map<u32, Seq<u64>>,
    /// All the time ever spent at each checkpoint.
    pub totals: Map<u32, nat>,
    /// All the time ever recorded.
    pub total_time: nat,
    /// How many readings have been taken in.
    pub visits: nat,
    /// How many readings have been taken in since the last reset.
    pub count: nat,
    /// The count beyond which lists are reset and records flushed.
    pub reset_at: nat,
    /// How many durations a ranked list may hold.
    pub num_top: nat,
    /// The records that wait for the next flush, oldest first.
    pub pending: Seq<StreamDataView>,
}

impl StatsView {
    /// The aggregator before its first reading.
    pub open spec fn fresh(reset_at: nat, num_top: nat) -> StatsView {
        StatsView {
            tops: Map::empty(),
            totals: Map::empty(),
            total_time: 0,
            visits: 0,
            count: 0,
            reset_at,
            num_top,
            pending: Seq::empty(),
        }
    }

    /// All the time ever spent at `line`.
    pub open spec fn total_of(self, line: u32) -> nat {
        if self.totals.contains_key(line) {
            self.totals[line]
        } else {
            0
        }
    }

    /// The ranked list of `line`, empty until `line` is seen after a reset.
    pub open spec fn top_of(self, line: u32) -> Seq<u64> {
        if self.tops.contains_key(line) {
            self.tops[line]
        } else {
            Seq::empty()
        }
    }

    /// The overall running average: all time recorded over all readings
    /// taken in, zero before the first.
    pub open spec fn average(self) -> nat {
        if self.visits == 0 {
            0
        } else {
            self.total_time / self.visits
        }
    }

    /// The running average of `line`: all its time over all readings taken in.
    pub open spec fn average_of(self, line: u32) -> nat {
        if self.visits == 0 {
            0
        } else {
            self.total_of(line) / self.visits
        }
    }

    /// Every ranked list is in descending order and within the bound.
    pub open spec fn ranked(self) -> bool {
        forall|line: u32| #[trigger]
            self.tops.contains_key(line) ==> sorted_desc(self.tops[line]) && self.tops[line].len()
                <= self.num_top
    }

    /// The numbers fit the machine: one more reading can be counted, and the
    /// time of `times` can be added to the time recorded so far.
    pub open spec fn accepts(self, times: Seq<(u32, u64)>) -> bool {
        &&& self.visits < u64::MAX
        &&& self.total_time + duration_sum(times) <= u64::MAX
    }

    /// A reading has arrived.
    pub open spec fn visited(self) -> StatsView {
        StatsView { visits: self.visits + 1, ..self }
    }

    /// One checkpoint of a reading has been taken in: its time is added to
    /// the totals and its duration is put into the checkpoint's ranked list.
    pub open spec fn recorded(self, line: u32, duration: u64) -> StatsView {
        StatsView {
            total_time: self.total_time + duration as nat,
            totals: self.totals.insert(line, self.total_of(line) + duration as nat),
            tops: self.tops.insert(line, top_n(self.top_of(line), duration, self.num_top)),
            ..self
        }
    }

    /// The checkpoints of a reading have been taken in, one after the other.
    pub open spec fn recorded_all(self, times: Seq<(u32, u64)>) -> StatsView
        decreases times.len(),
    {
        if times.len() == 0 {
            self
        } else {
            self.recorded_all(times.drop_last()).recorded(times.last().0, times.last().1)
        }
    }

    /// Where `line` stands now, with `base` as the reference of every share.
    pub open spec fn snapshot(self, line: u32, base: u64) -> LineTimingView {
        let average = self.average_of(line) as u64;
        LineTimingView {
            line_number: line,
            top_durations: shares(self.top_of(line), base),
            average_of_line: (average, Percent { part: average, whole: base }),
        }
    }

    /// One snapshot for each checkpoint of a reading, each taken right after
    /// that checkpoint went in.
    pub open spec fn snapshots(self, times: Seq<(u32, u64)>, base: u64) -> Seq<LineTimingView> {
        Seq::new(
            times.len(),
            |i: int| self.recorded_all(times.take(i + 1)).snapshot(times[i].0, base),
        )
    }

    /// The record of a reading: the reference of every share in it is the
    /// overall average from before the reading.
    pub open spec fn record_of(self, times: Seq<(u32, u64)>, counts: Seq<Counter>) -> StreamDataView {
        StreamDataView {
            capture: self.visited().snapshots(times, self.average() as u64),
            count: counts,
        }
    }

    /// Whether the reading that comes next crosses the reset boundary.
    pub open spec fn resets(self) -> bool {
        self.count + 1 > self.reset_at
    }

    /// The aggregator after a reading. The reading is counted and recorded;
    /// its record joins the queue; then, if the cycle count has passed the
    /// threshold, the ranked lists and the queue are emptied and the cycle
    /// count starts again. Totals and the count of readings are never reset.
    pub open spec fn absorbed(self, times: Seq<(u32, u64)>, counts: Seq<Counter>) -> StatsView {
        let recorded = self.visited().recorded_all(times);
        if self.resets() {
            StatsView { tops: Map::empty(), count: 0, pending: Seq::empty(), ..recorded }
        } else {
            StatsView {
                count: self.count + 1,
                pending: self.pending.push(self.record_of(times, counts)),
                ..recorded
            }
        }
    }

    /// The records that a reading sends to the sink: nothing until the reset
    /// boundary is crossed, then the whole queue, oldest first, ending with
    /// the record of the reading itself.
    pub open spec fn flushed(self, times: Seq<(u32, u64)>, counts: Seq<Counter>) -> Seq<
        StreamDataView,
    > {
        if self.resets() {
            self.pending.push(self.record_of(times, counts))
        } else {
            Seq::empty()
        }
    }
}


/// The total of a prefix of a reading is part of the total of the reading.
pub proof fn lemma_duration_sum_prefix(times: Seq<(u32, u64)>, i: int)
    requires
        0 <= i <= times.len(),
    ensures
        duration_sum(times.take(i)) <= duration_sum(times),
    decreases times.len() - i,
{
    if i == times.len() {
        assert(times.take(i) =~= times);
    } else {
        lemma_duration_sum_prefix(times, i + 1);
        assert(times.take(i + 1).drop_last() =~= times.take(i));
    }
}

/// Taking in checkpoints changes the totals and the ranked lists, nothing else.
pub proof fn lemma_recorded_all_keeps(state: StatsView, times: Seq<(u32, u64)>)
    ensures
        state.recorded_all(times).visits == state.visits,
        state.recorded_all(times).count == state.count,
        state.recorded_all(times).reset_at == state.reset_at,
        state.recorded_all(times).num_top == state.num_top,
        state.recorded_all(times).pending == state.pending,
        state.recorded_all(times).total_time == state.total_time + duration_sum(times),
    decreases times.len(),
{
    if times.len() > 0 {
        lemma_recorded_all_keeps(state, times.drop_last());
    }
}

/// The aggregator. It alone owns the statistics: they change only when a
/// reading is handed to [`Stats::top`].
pub struct Stats {
    tops: HashMap<u32, Vec<u64>>,
    visits: u64,
    total_time: u64,
    count: u64,
    reset_at: u64,
    totals: HashMap<u32, u64>,
    output: Output,
    num_top: usize,
    pending: Vec<StreamData>,
}

impl View for Stats {
    type V = StatsView;

    closed spec fn view(&self) -> StatsView {
        StatsView {
            tops: Map::new(|line: u32| self.tops@.contains_key(line), |line: u32| self.tops@[line]@),
            totals: Map::new(
                |line: u32| self.totals@.contains_key(line),
                |line: u32| self.totals@[line] as nat,
            ),
            total_time: self.total_time as nat,
            visits: self.visits as nat,
            count: self.count as nat,
            reset_at: self.reset_at as nat,
            num_top: self.num_top as nat,
            pending: record_views(self.pending@),
        }
    }
}

impl Stats {
    /// Every ranked list is in order and within its bound, no checkpoint has
    /// more time than was recorded in all, and the cycle count has not passed
    /// the threshold.
    pub closed spec fn wf(&self) -> bool {
        &&& self@.ranked()
        &&& forall|line: u32| #[trigger]
            self.totals@.contains_key(line) ==> self.totals@[line] <= self.total_time
        &&& self.count <= self.reset_at
    }

    /// Where the records of this aggregator are to go.
    pub closed spec fn sink(&self) -> Output {
        self.output
    }

    /// In a well-formed aggregator the ranked lists are in order and bounded.
    pub proof fn lemma_wf_ranked(&self)
        requires
            self.wf(),
        ensures
            self@.ranked(),
            self@.count <= self@.reset_at,
    {
    }

    /// An aggregator that flushes once more than `reset_at` readings have
    /// come in since the last flush, keeps the `num_top` longest durations of
    /// each checkpoint, and is meant to write to `output`.
    pub fn new(reset_at: u64, num_top: usize, output: Output) -> (stats: Stats)
        ensures
            stats.wf(),
            stats@ == StatsView::fresh(reset_at as nat, num_top as nat),
            stats@.ranked(),
            stats.sink() == output,
    {
        let stats = Stats {
            tops: HashMap::new(),
            visits: 0,
            total_time: 0,
            count: 0,
            reset_at,
            totals: HashMap::new(),
            output,
            num_top,
            pending: Vec::new(),
        };
        assert(stats@.tops =~= Map::empty());
        assert(stats@.totals =~= Map::empty());
        assert(stats@.pending =~= Seq::empty());
        stats
    }

    /// Where the records of this aggregator are to go.
    pub fn output(&self) -> (output: &Output)
        ensures
            *output == self.sink(),
    {
        &self.output
    }

    /// Whether the numbers stay within the machine's range if a reading with
    /// these durations is taken in.
    pub fn can_absorb(&self, times: &Vec<(u32, u64)>) -> (ok: bool)
        ensures
            ok == self@.accepts(times@),
    {
        if self.visits == u64::MAX {
            return false;
        }
        let mut sum: u64 = self.total_time;
        let mut i: usize = 0;
        assert(times@.take(0) =~= Seq::empty());
        while i < times.len()
            invariant
                i <= times.len(),
                sum == self.total_time + duration_sum(times@.take(i as int)),
            decreases times.len() - i,
        {
            proof {
                assert(times@.take(i + 1).drop_last() =~= times@.take(i as int));
                lemma_duration_sum_prefix(times@, i + 1);
            }
            match sum.checked_add(times[i].1) {
                Some(next) => {
                    sum = next;
                },
                None => {
                    return false;
                },
            }
            i += 1;
        }
        assert(times@.take(i as int) =~= times@);
        true
    }

    /// Takes in the checkpoints of one reading, in order: counts the reading,
    /// adds each duration to the totals, puts it into its checkpoint's ranked
    /// list, and returns a snapshot of each checkpoint as it stood right after
    /// its duration went in. Every share in the snapshots is a share of the
    /// overall average as it was before the reading.
    pub fn create_line_timing(&mut self, times: &Vec<(u32, u64)>) -> (timings: Vec<LineTiming>)
        requires
            old(self).wf(),
            old(self)@.accepts(times@),
        ensures
            final(self).wf(),
            final(self)@.ranked(),
            final(self).sink() == old(self).sink(),
            final(self)@ == old(self)@.visited().recorded_all(times@),
            timing_views(timings@) == old(self)@.visited().snapshots(
                times@,
                old(self)@.average() as u64,
            ),
    {
        let ghost before = self@;
        let ghost start = self@.visited();
        let average: u64 = if self.visits == 0 {
            0
        } else {
            self.total_time / self.visits
        };
        self.visits = self.visits + 1;
        let mut timings: Vec<LineTiming> = Vec::new();
        let mut i: usize = 0;
        proof {
            assert(times@.take(0) =~= Seq::empty());
            assert(self@ =~= start);
            assert(timing_views(timings@) =~= start.snapshots(times@, average).take(0));
        }
        while i < times.len()
            invariant
                i <= times.len(),
                self.wf(),
                self.visits >= 1,
                self.output == old(self).output,
                average == before.average(),
                start == before.visited(),
                self@ == start.recorded_all(times@.take(i as int)),
                self.total_time == before.total_time + duration_sum(times@.take(i as int)),
                before.total_time + duration_sum(times@) <= u64::MAX,
                timing_views(timings@) == start.snapshots(times@, average).take(i as int),
            decreases times.len() - i,
        {
            let line: u32 = times[i].0;
            let duration: u64 = times[i].1;
            let ghost prev = self@;
            proof {
                assert(times@.take(i + 1).drop_last() =~= times@.take(i as int));
                lemma_duration_sum_prefix(times@, i + 1);
            }
            self.total_time = self.total_time + duration;
            let prior: u64 = match self.totals.get(&line) {
                Some(total) => *total,
                None => 0,
            };
            let total_of_line: u64 = prior + duration;
            self.totals.insert(line, total_of_line);
            let average_of_line: u64 = total_of_line / self.visits;
            let mut list: Vec<u64> = match self.tops.remove(&line) {
                Some(list) => list,
                None => Vec::new(),
            };
            let ghost old_list = list@;
            assert(old_list == prev.top_of(line));
            add_duration(&mut list, duration, self.num_top);
            let mut top_durations: Vec<(u64, Percent)> = Vec::new();
            let mut j: usize = 0;
            while j < list.len()
                invariant
                    j <= list.len(),
                    top_durations@ == shares(list@, average).take(j as int),
                decreases list.len() - j,
            {
                top_durations.push((list[j], Percent { part: list[j], whole: average }));
                proof {
                    assert(shares(list@, average).take(j + 1) =~= shares(list@, average).take(
                        j as int,
                    ).push(shares(list@, average)[j as int]));
                }
                j += 1;
            }
            proof {
                assert(shares(list@, average).take(j as int) =~= shares(list@, average));
            }
            let ghost new_list = list@;
            self.tops.insert(line, list);
            let timing = LineTiming {
                line_number: line,
                top_durations,
                average_of_line: (average_of_line, Percent { part: average_of_line, whole: average }),
            };
            proof {
                let next = prev.recorded(line, duration);
                assert(self@.tops =~= next.tops);
                assert(self@.totals =~= next.totals);
                assert(self@ =~= next);
                assert(self@ == start.recorded_all(times@.take(i + 1)));
                assert(self@.top_of(line) == new_list);
                assert(self@.average_of(line) == average_of_line);
                assert(timing@ == self@.snapshot(line, average));
                lemma_recorded_ranked(prev, line, duration);
            }
            let ghost earlier = timings@;
            timings.push(timing);
            proof {
                let all = start.snapshots(times@, average);
                assert(timing_views(timings@) =~= timing_views(earlier).push(timing@));
                assert(all.take(i + 1) =~= all.take(i as int).push(all[i as int]));
            }
            i += 1;
        }
        proof {
            assert(times@.take(i as int) =~= times@);
            let all = start.snapshots(times@, average);
            assert(all.take(i as int) =~= all);
        }
        timings
    }

    /// Takes in one reading and returns the records that are due at the sink.
    ///
    /// The reading is counted and recorded, and its record joins the queue.
    /// While the cycle count has not passed the threshold nothing is due.
    /// When it has, the ranked lists are emptied, the cycle count starts
    /// again, and the whole queue is due, oldest record first.
    pub fn top(&mut self, msg: TimeMsg) -> (due: Vec<StreamData>)
        requires
            old(self).wf(),
            old(self)@.accepts(msg.times@),
        ensures
            final(self).wf(),
            final(self)@.ranked(),
            final(self).sink() == old(self).sink(),
            final(self)@ == old(self)@.absorbed(msg.times@, msg.counts@),
            record_views(due@) == old(self)@.flushed(msg.times@, msg.counts@),
    {
        let ghost before = self@;
        let TimeMsg { times, counts } = msg;
        let capture = self.create_line_timing(&times);
        proof {
            lemma_recorded_all_keeps(before.visited(), times@);
        }
        let record = StreamData { capture, count: counts };
        let ghost queued = self.pending@;
        assert(record@ == before.record_of(times@, counts@));
        self.pending.push(record);
        assert(record_views(self.pending@) =~= record_views(queued).push(record@));
        if self.count >= self.reset_at {
            self.tops = HashMap::new();
            self.count = 0;
            let mut due: Vec<StreamData> = Vec::new();
            core::mem::swap(&mut self.pending, &mut due);
            proof {
                assert(self@.tops =~= Map::empty());
                assert(self@.pending =~= Seq::empty());
                assert(self@.totals =~= before.visited().recorded_all(times@).totals);
                assert(self@ =~= before.absorbed(times@, counts@));
            }
            due
        } else {
            self.count = self.count + 1;
            let due: Vec<StreamData> = Vec::new();
            proof {
                assert(self@.tops =~= before.visited().recorded_all(times@).tops);
                assert(self@.totals =~= before.visited().recorded_all(times@).totals);
                assert(self@ =~= before.absorbed(times@, counts@));
                assert(record_views(due@) =~= Seq::empty());
            }
            due
        }
    }
}

/// Taking in one checkpoint keeps every ranked list in order and bounded.
pub proof fn lemma_recorded_ranked(state: StatsView, line: u32, duration: u64)
    requires
        state.ranked(),
    ensures
        state.recorded(line, duration).ranked(),
{
    lemma_top_n_sorted(state.top_of(line), duration, state.num_top);
    lemma_top_n_bounded(state.top_of(line), duration, state.num_top);
}

/// Taking in the checkpoints of a reading keeps every ranked list in order
/// and bounded.
pub proof fn lemma_recorded_all_ranked(state: StatsView, times: Seq<(u32, u64)>)
    requires
        state.ranked(),
    ensures
        state.recorded_all(times).ranked(),
    decreases times.len(),
{
    if times.len() > 0 {
        lemma_recorded_all_ranked(state, times.drop_last());
        lemma_recorded_ranked(
            state.recorded_all(times.drop_last()),
            times.last().0,
            times.last().1,
        );
    }
}

/// No reading ever leaves a ranked list out of order or longer than the
/// bound, in the aggregator or in a snapshot that it emits.
pub proof fn lemma_absorbed_ranked(state: StatsView, times: Seq<(u32, u64)>, counts: Seq<Counter>)
    requires
        state.ranked(),
    ensures
        state.absorbed(times, counts).ranked(),
        forall|i: int|
            0 <= i < times.len() ==> {
                let list = (#[trigger] state.record_of(times, counts).capture[i]).top_durations;
                &&& list.len() <= state.num_top
                &&& forall|a: int, b: int| 0 <= a <= b < list.len() ==> list[a].0 >= list[b].0
            },
{
    lemma_recorded_all_ranked(state.visited(), times);
    lemma_recorded_all_keeps(state.visited(), times);
    let base = state.average() as u64;
    assert forall|i: int| 0 <= i < times.len() implies {
        let list = (#[trigger] state.record_of(times, counts).capture[i]).top_durations;
        &&& list.len() <= state.num_top
        &&& forall|a: int, b: int| 0 <= a <= b < list.len() ==> list[a].0 >= list[b].0
    } by {
        let at = state.visited().recorded_all(times.take(i + 1));
        lemma_recorded_all_ranked(state.visited(), times.take(i + 1));
        lemma_recorded_all_keeps(state.visited(), times.take(i + 1));
        assert(state.record_of(times, counts).capture[i] == at.snapshot(times[i].0, base));
    }
}

/// Taking in the checkpoints of a reading adds to the total of `line` the
/// durations that the reading holds for `line`, and nothing else.
pub proof fn lemma_recorded_all_totals(state: StatsView, times: Seq<(u32, u64)>, line: u32)
    ensures
        state.recorded_all(times).total_of(line) == state.total_of(line) + label_sum(times, line),
    decreases times.len(),
{
    if times.len() > 0 {
        lemma_recorded_all_totals(state, times.drop_last(), line);
    }
}

/// The durations that a run of readings holds for `line`, added up.
pub open spec fn label_sum_all(readings: Seq<(Seq<(u32, u64)>, Seq<Counter>)>, line: u32) -> nat
    decreases readings.len(),
{
    if readings.len() == 0 {
        0
    } else {
        label_sum_all(readings.drop_last(), line) + label_sum(readings.last().0, line)
    }
}

impl StatsView {
    /// The aggregator after a run of readings, taken in one after the other.
    pub open spec fn fed(self, readings: Seq<(Seq<(u32, u64)>, Seq<Counter>)>) -> StatsView
        decreases readings.len(),
    {
        if readings.len() == 0 {
            self
        } else {
            self.fed(readings.drop_last()).absorbed(readings.last().0, readings.last().1)
        }
    }
}

/// After any run of readings the aggregator has counted every reading and
/// holds, for every checkpoint, all the time that the readings held for it:
/// resets of the ranked lists along the way take nothing from either.
pub proof fn lemma_fed_totals(
    state: StatsView,
    readings: Seq<(Seq<(u32, u64)>, Seq<Counter>)>,
    line: u32,
)
    ensures
        state.fed(readings).visits == state.visits + readings.len(),
        state.fed(readings).total_of(line) == state.total_of(line) + label_sum_all(readings, line),
    decreases readings.len(),
{
    if readings.len() > 0 {
        let earlier = state.fed(readings.drop_last());
        lemma_fed_totals(state, readings.drop_last(), line);
        lemma_recorded_all_keeps(earlier.visited(), readings.last().0);
        lemma_recorded_all_totals(earlier.visited(), readings.last().0, line);
    }
}

/// The running average of a checkpoint, after any run of readings into a
/// new aggregator, is all the time that the readings held for the checkpoint
/// over the number of readings, whatever the reset threshold is.
pub proof fn lemma_running_average(
    reset_at: nat,
    num_top: nat,
    readings: Seq<(Seq<(u32, u64)>, Seq<Counter>)>,
    line: u32,
)
    requires
        readings.len() > 0,
    ensures
        StatsView::fresh(reset_at, num_top).fed(readings).average_of(line) == label_sum_all(
            readings,
            line,
        ) / readings.len(),
{
    lemma_fed_totals(StatsView::fresh(reset_at, num_top), readings, line);
}

} // verus!
