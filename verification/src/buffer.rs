//! The capture buffer: checkpoints and counters of one cycle, in fixed slots.

use crate::clock::read;
use crate::error::Error;
use crate::record::{Counter, TimeMsg};
use std::time::Instant;
use vstd::prelude::*;

verus! {

/// One checkpoint: a label and the moment it was passed, in nanoseconds on
/// the clock of the buffer that holds it.
#[derive(Debug, Clone, Copy, PartialEq, Eq, Structural)]
pub struct Spot {
    line: u32,
    when: u64,
}

impl View for Spot {
    type V = (u32, u64);

    closed spec fn view(&self) -> (u32, u64) {
        (self.line, self.when)
    }
}

impl Spot {
    /// The checkpoint `line`, passed at the time `at`.
    pub fn capture(line: u32, at: u64) -> (spot: Spot)
        ensures
            spot@ == (line, at),
    {
        Spot { line, when: at }
    }

    pub fn line(&self) -> (line: u32)
        ensures
            line == self@.0,
    {
        self.line
    }

    pub fn when(&self) -> (at: u64)
        ensures
            at == self@.1,
    {
        self.when
    }
}

/// Time from `earlier` to `later`; a clock that stepped back counts as no time.
pub open spec fn gap(earlier: u64, later: u64) -> u64 {
    if later >= earlier {
        (later - earlier) as u64
    } else {
        0
    }
}

/// What a cycle's checkpoints drain to: each label with the time since the
/// checkpoint before it, the first with no time at all.
pub open spec fn elapsed(spots: Seq<(u32, u64)>) -> Seq<(u32, u64)> {
    Seq::new(
        spots.len(),
        |i: int|
            (
                spots[i].0,
                if i == 0 {
                    0
                } else {
                    gap(spots[i - 1].1, spots[i].1)
                },
            ),
    )
}

/// What a capture buffer holds, as far as a caller can tell.
pub struct FnTimerView {
    /// Label and timestamp of each checkpoint of the cycle, in capture order.
    pub spots: Seq<(u32, u64)>,
    /// The counters of the cycle, in call order.
    pub counters: Seq<Counter>,
    /// How many checkpoints a cycle may take.
    pub max_spots: nat,
    /// How many counters a cycle may take.
    pub max_counters: nat,
}

impl FnTimerView {
    /// A buffer at the start of a cycle.
    pub open spec fn empty(max_spots: nat, max_counters: nat) -> FnTimerView {
        FnTimerView { spots: Seq::empty(), counters: Seq::empty(), max_spots, max_counters }
    }

    pub open spec fn has_spot_room(self) -> bool {
        self.spots.len() < self.max_spots
    }

    pub open spec fn has_counter_room(self) -> bool {
        self.counters.len() < self.max_counters
    }

    /// The buffer after a capture was asked for: one checkpoint more, or, if
    /// every slot was taken, the buffer as it was.
    pub open spec fn capture(self, line: u32, at: u64) -> FnTimerView {
        if self.has_spot_room() {
            FnTimerView { spots: self.spots.push((line, at)), ..self }
        } else {
            self
        }
    }

    /// The buffer after a counter was asked for: one counter more, or, if
    /// every slot was taken, the buffer as it was.
    pub open spec fn counter(self, line: u32, n: usize) -> FnTimerView {
        if self.has_counter_room() {
            FnTimerView { counters: self.counters.push(Counter { line, n }), ..self }
        } else {
            self
        }
    }

    pub open spec fn without_spots(self) -> FnTimerView {
        FnTimerView { spots: Seq::empty(), ..self }
    }

    pub open spec fn without_counters(self) -> FnTimerView {
        FnTimerView { counters: Seq::empty(), ..self }
    }
}

/// Checkpoints and counters of one cycle. Both sets of slots are allocated
/// once, so that a capture is a clock read and a slot write; draining hands
/// the cycle's readings out and leaves the slots free for the next cycle.
pub struct FnTimer {
    spots: Vec<Option<Spot>>,
    counters: Vec<Option<Counter>>,
    last_inst: Option<u64>,
    current_spot: usize,
    current_counter: usize,
    origin: Instant,
}

impl View for FnTimer {
    type V = FnTimerView;

    closed spec fn view(&self) -> FnTimerView {
        FnTimerView {
            spots: Seq::new(self.current_spot as nat, |i: int| self.spots[i].unwrap()@),
            counters: Seq::new(self.current_counter as nat, |i: int| self.counters[i].unwrap()),
            max_spots: self.spots.len() as nat,
            max_counters: self.counters.len() as nat,
        }
    }
}

impl FnTimer {
    /// Neither cursor is past its slots, every slot below a cursor is filled,
    /// and no timestamp is left over from a drain.
    pub closed spec fn wf(&self) -> bool {
        &&& self.current_spot <= self.spots.len()
        &&& self.current_counter <= self.counters.len()
        &&& forall|i: int| 0 <= i < self.current_spot ==> (#[trigger] self.spots[i]) is Some
        &&& forall|i: int| 0 <= i < self.current_counter ==> (#[trigger] self.counters[i]) is Some
        &&& self.last_inst is None
    }

    /// A buffer with room for `num_spots` checkpoints and `num_counters`
    /// counters in each cycle.
    pub fn new(num_spots: usize, num_counters: usize) -> (timer: FnTimer)
        ensures
            timer.wf(),
            timer@ == FnTimerView::empty(num_spots as nat, num_counters as nat),
    {
        let mut spots: Vec<Option<Spot>> = Vec::with_capacity(num_spots);
        let mut counters: Vec<Option<Counter>> = Vec::with_capacity(num_counters);
        for i in 0..num_spots
            invariant
                spots.len() == i,
        {
            spots.push(None);
        }
        for i in 0..num_counters
            invariant
                counters.len() == i,
        {
            counters.push(None);
        }
        let timer = FnTimer {
            spots,
            counters,
            last_inst: None,
            current_spot: 0,
            current_counter: 0,
            origin: Instant::now(),
        };
        assert(timer@.spots =~= Seq::empty());
        assert(timer@.counters =~= Seq::empty());
        timer
    }

    /// Drains the checkpoints of the cycle: each label with the time since
    /// the checkpoint before it, in capture order. The next cycle starts with
    /// every checkpoint slot free.
    pub fn make_durations(&mut self) -> (times: Vec<(u32, u64)>)
        requires
            old(self).wf(),
        ensures
            final(self).wf(),
            final(self)@ == old(self)@.without_spots(),
            times@ == elapsed(old(self)@.spots),
    {
        let ghost before = self@;
        let mut times: Vec<(u32, u64)> = Vec::new();
        let mut i: usize = 0;
        while i < self.current_spot
            invariant
                i <= self.current_spot <= self.spots.len(),
                self.current_counter <= self.counters.len(),
                forall|k: int| 0 <= k < self.current_spot ==> (#[trigger] self.spots[k]) is Some,
                forall|k: int|
                    0 <= k < self.current_counter ==> (#[trigger] self.counters[k]) is Some,
                self@ == before,
                self.last_inst == if i == 0 {
                    None
                } else {
                    Some(before.spots[i - 1].1)
                },
                times@ == elapsed(before.spots).take(i as int),
            decreases self.current_spot - i,
        {
            let slot: Option<Spot> = self.spots[i];
            if let Some(spot) = slot {
                let duration: u64 = match self.last_inst {
                    Some(last) => if spot.when >= last {
                        spot.when - last
                    } else {
                        0
                    },
                    None => 0,
                };
                times.push((spot.line, duration));
                self.last_inst = Some(spot.when);
            }
            proof {
                assert(before.spots[i as int] == self.spots[i as int].unwrap()@);
                assert(elapsed(before.spots).take(i + 1) =~= elapsed(before.spots).take(
                    i as int,
                ).push(elapsed(before.spots)[i as int]));
            }
            i += 1;
        }
        self.last_inst = None;
        self.current_spot = 0;
        proof {
            assert(elapsed(before.spots).take(i as int) =~= elapsed(before.spots));
            assert(self@.spots =~= Seq::empty());
            assert(self@.counters =~= before.counters);
        }
        times
    }

    /// Drains the counters of the cycle, in call order. The next cycle starts
    /// with every counter slot free.
    pub fn make_counts(&mut self) -> (counts: Vec<Counter>)
        requires
            old(self).wf(),
        ensures
            final(self).wf(),
            final(self)@ == old(self)@.without_counters(),
            counts@ == old(self)@.counters,
    {
        let ghost before = self@;
        let mut counts: Vec<Counter> = Vec::new();
        let mut i: usize = 0;
        while i < self.current_counter
            invariant
                i <= self.current_counter <= self.counters.len(),
                self.wf(),
                self@ == before,
                counts@ == before.counters.take(i as int),
            decreases self.current_counter - i,
        {
            let slot: Option<Counter> = self.counters[i];
            if let Some(c) = slot {
                counts.push(c);
            }
            proof {
                assert(before.counters[i as int] == self.counters[i as int].unwrap());
                assert(before.counters.take(i + 1) =~= before.counters.take(i as int).push(
                    before.counters[i as int],
                ));
            }
            i += 1;
        }
        self.current_counter = 0;
        proof {
            assert(before.counters.take(i as int) =~= before.counters);
            assert(self@.counters =~= Seq::empty());
            assert(self@.spots =~= before.spots);
        }
        counts
    }

    /// Drains the whole cycle into one reading: the checkpoints with the time
    /// each took, and the counters. The buffer is empty afterwards.
    pub fn drain(&mut self) -> (msg: TimeMsg)
        requires
            old(self).wf(),
        ensures
            final(self).wf(),
            final(self)@ == old(self)@.without_spots().without_counters(),
            msg.times@ == elapsed(old(self)@.spots),
            msg.counts@ == old(self)@.counters,
    {
        let times = self.make_durations();
        let counts = self.make_counts();
        TimeMsg { times, counts }
    }

    /// Records the checkpoint `line` as passed at the time `at`. Once the cycle has
    /// used every checkpoint slot the call fails and changes nothing.
    pub fn capture_at(&mut self, line: u32, at: u64) -> (res: Result<(), Error>)
        requires
            old(self).wf(),
        ensures
            final(self).wf(),
            final(self)@ == old(self)@.capture(line, at),
            res == if old(self)@.has_spot_room() {
                Ok::<(), Error>(())
            } else {
                Err::<(), Error>(Error::CapacityExceeded)
            },
    {
        let ghost before = self@;
        if self.current_spot >= self.spots.len() {
            return Err(Error::CapacityExceeded);
        }
        self.spots[self.current_spot] = Some(Spot { line, when: at });
        self.current_spot += 1;
        proof {
            assert(self@.spots =~= before.spots.push((line, at)));
            assert(self@.counters =~= before.counters);
        }
        Ok(())
    }

    /// Records the checkpoint `line` as passed now. Once the cycle has used
    /// every checkpoint slot the call fails and changes nothing.
    pub fn capture(&mut self, line: u32) -> (res: Result<(), Error>)
        requires
            old(self).wf(),
        ensures
            final(self).wf(),
            exists|at: u64| final(self)@ == old(self)@.capture(line, at),
            !old(self)@.has_spot_room() ==> final(self)@ == old(self)@,
            res == if old(self)@.has_spot_room() {
                Ok::<(), Error>(())
            } else {
                Err::<(), Error>(Error::CapacityExceeded)
            },
    {
        let at = read(&self.origin);
        self.capture_at(line, at)
    }

    /// Records the counter `line` with the value `n`. Once the cycle has used
    /// every counter slot the call fails and changes nothing.
    pub fn counter(&mut self, line: u32, n: usize) -> (res: Result<(), Error>)
        requires
            old(self).wf(),
        ensures
            final(self).wf(),
            final(self)@ == old(self)@.counter(line, n),
            res == if old(self)@.has_counter_room() {
                Ok::<(), Error>(())
            } else {
                Err::<(), Error>(Error::CapacityExceeded)
            },
    {
        let ghost before = self@;
        if self.current_counter >= self.counters.len() {
            return Err(Error::CapacityExceeded);
        }
        self.counters[self.current_counter] = Some(Counter { line, n });
        self.current_counter += 1;
        proof {
            assert(self@.counters =~= before.counters.push(Counter { line, n }));
            assert(self@.spots =~= before.spots);
        }
        Ok(())
    }
}

/// One call on a capture buffer within a cycle.
pub enum Call {
    Capture { line: u32, at: u64 },
    Count { line: u32, n: usize },
}

/// The checkpoints that a run of calls asks for, in call order.
pub open spec fn captures_of(calls: Seq<Call>) -> Seq<(u32, u64)>
    decreases calls.len(),
{
    if calls.len() == 0 {
        Seq::empty()
    } else {
        match calls.last() {
            Call::Capture { line, at } => captures_of(calls.drop_last()).push((line, at)),
            Call::Count { .. } => captures_of(calls.drop_last()),
        }
    }
}

/// The counters that a run of calls asks for, in call order.
pub open spec fn counts_of(calls: Seq<Call>) -> Seq<Counter>
    decreases calls.len(),
{
    if calls.len() == 0 {
        Seq::empty()
    } else {
        match calls.last() {
            Call::Capture { .. } => counts_of(calls.drop_last()),
            Call::Count { line, n } => counts_of(calls.drop_last()).push(Counter { line, n }),
        }
    }
}

impl FnTimerView {
    /// The buffer after a run of calls, made one after the other.
    pub open spec fn after(self, calls: Seq<Call>) -> FnTimerView
        decreases calls.len(),
    {
        if calls.len() == 0 {
            self
        } else {
            let before = self.after(calls.drop_last());
            match calls.last() {
                Call::Capture { line, at } => before.capture(line, at),
                Call::Count { line, n } => before.counter(line, n),
            }
        }
    }
}

/// No call changes how much a buffer can hold.
pub proof fn lemma_calls_keep_capacity(buffer: FnTimerView, calls: Seq<Call>)
    ensures
        buffer.after(calls).max_spots == buffer.max_spots,
        buffer.after(calls).max_counters == buffer.max_counters,
    decreases calls.len(),
{
    if calls.len() > 0 {
        lemma_calls_keep_capacity(buffer, calls.drop_last());
    }
}

/// Captures that fit are all held, in the order in which they were made,
/// whatever counters were taken in between and whether or not those fitted.
pub proof fn lemma_captures_in_order(buffer: FnTimerView, calls: Seq<Call>)
    requires
        buffer.spots.len() + captures_of(calls).len() <= buffer.max_spots,
    ensures
        buffer.after(calls).spots == buffer.spots + captures_of(calls),
    decreases calls.len(),
{
    if calls.len() == 0 {
        assert(buffer.spots + captures_of(calls) =~= buffer.spots);
    } else {
        let head = calls.drop_last();
        lemma_captures_in_order(buffer, head);
        lemma_calls_keep_capacity(buffer, head);
        assert(buffer.after(calls).spots =~= buffer.spots + captures_of(calls));
    }
}

/// Counters that fit are all held, in the order in which they were taken,
/// whatever captures were made in between and whether or not those fitted.
pub proof fn lemma_counters_in_order(buffer: FnTimerView, calls: Seq<Call>)
    requires
        buffer.counters.len() + counts_of(calls).len() <= buffer.max_counters,
    ensures
        buffer.after(calls).counters == buffer.counters + counts_of(calls),
    decreases calls.len(),
{
    if calls.len() == 0 {
        assert(buffer.counters + counts_of(calls) =~= buffer.counters);
    } else {
        let head = calls.drop_last();
        lemma_counters_in_order(buffer, head);
        lemma_calls_keep_capacity(buffer, head);
        assert(buffer.after(calls).counters =~= buffer.counters + counts_of(calls));
    }
}

/// A cycle of captures that fit drains to one entry for each capture, in
/// capture order and under the capture's label. The first entry has no
/// duration; every later one has the time between its capture and the one
/// before, which on a clock that does not step back is their difference.
pub proof fn lemma_cycle_drains_in_order(max_spots: nat, max_counters: nat, calls: Seq<Call>)
    requires
        captures_of(calls).len() <= max_spots,
    ensures
        ({
            let captures = captures_of(calls);
            let drained = elapsed(FnTimerView::empty(max_spots, max_counters).after(calls).spots);
            &&& drained.len() == captures.len()
            &&& forall|i: int| 0 <= i < captures.len() ==> (#[trigger] drained[i]).0 == captures[i].0
            &&& captures.len() > 0 ==> drained[0].1 == 0
            &&& forall|i: int|
                0 < i < captures.len() ==> (#[trigger] drained[i]).1 == gap(
                    captures[i - 1].1,
                    captures[i].1,
                )
            &&& forall|i: int|
                0 < i < captures.len() && captures[i - 1].1 <= captures[i].1 ==> (
                #[trigger] drained[i]).1 == captures[i].1 - captures[i - 1].1
        }),
{
    let empty = FnTimerView::empty(max_spots, max_counters);
    lemma_captures_in_order(empty, calls);
    assert(empty.spots + captures_of(calls) =~= captures_of(calls));
}

/// A cycle of counters that fit drains to those counters in call order,
/// however the calls were interleaved with captures.
pub proof fn lemma_cycle_counts_in_order(max_spots: nat, max_counters: nat, calls: Seq<Call>)
    requires
        counts_of(calls).len() <= max_counters,
    ensures
        FnTimerView::empty(max_spots, max_counters).after(calls).counters == counts_of(calls),
{
    let empty = FnTimerView::empty(max_spots, max_counters);
    lemma_counters_in_order(empty, calls);
    assert(empty.counters + counts_of(calls) =~= counts_of(calls));
}

/// A call on a full buffer leaves the buffer exactly as it was.
pub proof fn lemma_full_buffer_unchanged(buffer: FnTimerView, call: Call)
    ensures
        call is Capture && !buffer.has_spot_room() ==> buffer.after(seq![call]) == buffer,
        call is Count && !buffer.has_counter_room() ==> buffer.after(seq![call]) == buffer,
{
    assert(seq![call].drop_last() =~= Seq::<Call>::empty());
    assert(seq![call].last() == call);
    reveal_with_fuel(FnTimerView::after, 2);
}

} // verus!
