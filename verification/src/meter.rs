//! Counts accepted payments by the second, over the last ten seconds and in all.
use std::collections::VecDeque;

use vstd::prelude::*;

verus! {

/// How many seconds the rolling window covers.
pub const WINDOW_SECS: usize = 10;

/// The sum of counts.
pub open spec fn sum(counts: Seq<u64>) -> nat
    decreases counts.len(),
{
    if counts.len() == 0 {
        0
    } else {
        sum(counts.drop_last()) + counts.last() as nat
    }
}

/// The last counts, as many as the window covers.
pub open spec fn last_counts(counts: Seq<u64>) -> Seq<u64> {
    if counts.len() <= WINDOW_SECS {
        counts
    } else {
        counts.skip(counts.len() - WINDOW_SECS)
    }
}

/// The model of [`TpsMeter`].
#[verifier::ext_equal]
pub struct MeterState {
    /// The counts of the last full seconds.
    pub window: Seq<u64>,
    /// The count of the second that is not over.
    pub per_sec: u64,
    /// All payments.
    pub total: u64,
}

impl MeterState {
    /// The window is no longer than it may be, and nothing is counted that is not in the total.
    pub open spec fn well_formed(self) -> bool {
        self.window.len() <= WINDOW_SECS && sum(self.window) + self.per_sec <= self.total
    }

    /// Nothing is counted yet.
    pub open spec fn empty() -> MeterState {
        MeterState { window: Seq::empty(), per_sec: 0, total: 0 }
    }

    /// More payments are counted.
    pub open spec fn counted(self, n: u32) -> MeterState {
        MeterState {
            per_sec: (self.per_sec + n) as u64,
            total: (self.total + n) as u64,
            ..self
        }
    }

    /// The second is over.
    pub open spec fn ticked(self) -> MeterState {
        MeterState { window: last_counts(self.window.push(self.per_sec)), per_sec: 0, ..self }
    }
}

/// What is shown when a second is over.
#[derive(Clone, Copy, Debug, PartialEq, Eq, Structural)]
pub struct TpsReport {
    /// The payments of this second.
    pub per_sec: u64,
    /// The payments of the window, this second among them.
    pub window_sum: u64,
    /// The seconds of the window.
    pub window_len: usize,
    /// All payments.
    pub total: u64,
}

/// Counts payments.
pub struct TpsMeter {
    window: VecDeque<u64>,
    per_sec: u64,
    total: u64,
}

impl View for TpsMeter {
    type V = MeterState;

    closed spec fn view(&self) -> MeterState {
        MeterState { window: self.window@, per_sec: self.per_sec, total: self.total }
    }
}

impl TpsMeter {
    /// A meter that has counted nothing.
    pub fn new() -> (meter: TpsMeter)
        ensures
            meter@ == MeterState::empty(),
            meter@.well_formed(),
    {
        TpsMeter { window: VecDeque::with_capacity(WINDOW_SECS), per_sec: 0, total: 0 }
    }

    /// All payments.
    pub fn total(&self) -> (total: u64)
        ensures
            total == self@.total,
    {
        self.total
    }

    /// Counts payments.
    pub fn record(&mut self, n: u32)
        requires
            old(self)@.well_formed(),
            old(self)@.total + n <= u64::MAX,
        ensures
            final(self)@.well_formed(),
            final(self)@ == old(self)@.counted(n),
    {
        self.per_sec = self.per_sec + n as u64;
        self.total = self.total + n as u64;
    }

    /// Closes the second.
    pub fn tick(&mut self) -> (report: TpsReport)
        requires
            old(self)@.well_formed(),
        ensures
            final(self)@.well_formed(),
            final(self)@ == old(self)@.ticked(),
            report == (TpsReport {
                per_sec: old(self)@.per_sec,
                window_sum: sum(final(self)@.window) as u64,
                window_len: final(self)@.window.len() as usize,
                total: old(self)@.total,
            }),
            sum(final(self)@.window) <= u64::MAX,
            0 < report.window_len <= WINDOW_SECS,
    {
        proof {
            sum_of_push(self.window@, self.per_sec);
            last_counts_sum(self.window@.push(self.per_sec));
        }
        if self.window.len() == WINDOW_SECS {
            self.window.pop_front();
        }
        self.window.push_back(self.per_sec);
        assert(self.window@ =~= last_counts(old(self)@.window.push(self.per_sec)));
        let report = TpsReport {
            per_sec: self.per_sec,
            window_sum: self.window_sum(),
            window_len: self.window.len(),
            total: self.total,
        };
        self.per_sec = 0;
        report
    }

    fn window_sum(&self) -> (total: u64)
        requires
            sum(self@.window) <= u64::MAX,
        ensures
            total == sum(self@.window),
    {
        let ghost counts = self.window@;
        let mut total: u64 = 0;
        let mut i: usize = 0;
        while i < self.window.len()
            invariant
                counts == self.window@,
                0 <= i <= counts.len(),
                total == sum(counts.take(i as int)),
                sum(counts) <= u64::MAX,
            decreases counts.len() - i,
        {
            proof {
                assert(counts.take(i + 1).drop_last() =~= counts.take(i as int));
                sum_of_take(counts, i + 1);
            }
            total = total + self.window[i];
            i += 1;
        }
        assert(counts.take(i as int) =~= counts);
        total
    }
}

proof fn sum_of_push(counts: Seq<u64>, count: u64)
    ensures
        sum(counts.push(count)) == sum(counts) + count,
{
    assert(counts.push(count).drop_last() =~= counts);
}

proof fn sum_of_take(counts: Seq<u64>, n: int)
    requires
        0 <= n <= counts.len(),
    ensures
        sum(counts.take(n)) <= sum(counts),
    decreases counts.len(),
{
    if n < counts.len() {
        sum_of_take(counts.drop_last(), n);
        assert(counts.drop_last().take(n) =~= counts.take(n));
    } else {
        assert(counts.take(n) =~= counts);
    }
}

proof fn sum_of_skip(counts: Seq<u64>, n: int)
    requires
        0 <= n <= counts.len(),
    ensures
        sum(counts.skip(n)) <= sum(counts),
    decreases counts.len(),
{
    if n < counts.len() {
        sum_of_skip(counts.drop_last(), n);
        assert(counts.drop_last().skip(n) =~= counts.skip(n).drop_last());
    }
}

proof fn last_counts_sum(counts: Seq<u64>)
    ensures
        sum(last_counts(counts)) <= sum(counts),
        last_counts(counts).len() <= WINDOW_SECS,
{
    if counts.len() > WINDOW_SECS {
        sum_of_skip(counts, counts.len() - WINDOW_SECS);
    }
}

/// What happens to a meter.
pub enum MeterEvent {
    /// Payments are counted.
    Record(u32),
    /// A second is over.
    Tick,
}

/// The meter after the events.
pub open spec fn metered(events: Seq<MeterEvent>) -> MeterState
    decreases events.len(),
{
    if events.len() == 0 {
        MeterState::empty()
    } else {
        let before = metered(events.drop_last());
        match events.last() {
            MeterEvent::Record(n) => before.counted(n),
            MeterEvent::Tick => before.ticked(),
        }
    }
}

/// All payments of the events.
pub open spec fn payments(events: Seq<MeterEvent>) -> nat
    decreases events.len(),
{
    if events.len() == 0 {
        0
    } else {
        payments(events.drop_last()) + match events.last() {
            MeterEvent::Record(n) => n as nat,
            MeterEvent::Tick => 0,
        }
    }
}

/// The payments since the last tick of the events.
pub open spec fn payments_since_tick(events: Seq<MeterEvent>) -> nat
    decreases events.len(),
{
    if events.len() == 0 {
        0
    } else {
        match events.last() {
            MeterEvent::Record(n) => payments_since_tick(events.drop_last()) + n as nat,
            MeterEvent::Tick => 0,
        }
    }
}

/// The payments of each full second of the events.
pub open spec fn full_seconds(events: Seq<MeterEvent>) -> Seq<u64>
    decreases events.len(),
{
    if events.len() == 0 {
        Seq::empty()
    } else {
        let before = full_seconds(events.drop_last());
        match events.last() {
            MeterEvent::Record(_) => before,
            MeterEvent::Tick => before.push(payments_since_tick(events.drop_last()) as u64),
        }
    }
}

/// The total is all payments ever counted, the running count those since the last tick, and the
/// window holds the last full seconds, ten of them at most.
pub proof fn meter_counts_everything(events: Seq<MeterEvent>)
    requires
        payments(events) <= u64::MAX,
    ensures
        metered(events).well_formed(),
        metered(events).total == payments(events),
        metered(events).per_sec == payments_since_tick(events),
        metered(events).window == last_counts(full_seconds(events)),
        sum(full_seconds(events)) + payments_since_tick(events) == payments(events),
    decreases events.len(),
{
    if events.len() > 0 {
        let earlier = events.drop_last();
        meter_counts_everything(earlier);
        let before = metered(earlier);
        match events.last() {
            MeterEvent::Record(_) => {},
            MeterEvent::Tick => {
                let seconds = full_seconds(earlier);
                sum_of_push(seconds, before.per_sec);
                last_counts_sum(full_seconds(events));
                assert(last_counts(before.window.push(before.per_sec)) =~= last_counts(
                    full_seconds(events),
                ));
            },
        }
    }
}

/// One more count adds to the sum, and nothing adds up to nothing.
pub proof fn counts_add_up(counts: Seq<u64>, count: u64)
    ensures
        sum(Seq::empty()) == 0,
        sum(counts.push(count)) == sum(counts) + count,
{
    sum_of_push(counts, count);
}

/// The window is the end of the full seconds: all of them up to ten, and then the last ten, in
/// order.
pub proof fn window_is_the_last_ten_seconds(events: Seq<MeterEvent>)
    requires
        payments(events) <= u64::MAX,
    ensures
        ({
            let window = metered(events).window;
            let seconds = full_seconds(events);
            &&& window.len() == (if seconds.len() <= 10 {
                seconds.len() as int
            } else {
                10
            })
            &&& forall|i: int|
                0 <= i < window.len() ==> #[trigger] window[i] == seconds[seconds.len()
                    - window.len() + i]
        }),
{
    meter_counts_everything(events);
}

/// A tick closes the second: it becomes the newest of the window, pushes the eleventh out, and
/// leaves the total as it is.
pub proof fn tick_in_full(state: MeterState)
    requires
        state.well_formed(),
    ensures
        state.ticked().per_sec == 0,
        state.ticked().total == state.total,
        state.ticked().window == (if state.window.len() < 10 {
            state.window.push(state.per_sec)
        } else {
            state.window.skip(1).push(state.per_sec)
        }),
{
    assert(state.window.len() == 10 ==> state.ticked().window =~= state.window.skip(1).push(
        state.per_sec,
    ));
}

/// Counting adds to the second and to the total, and leaves the window as it is.
pub proof fn count_in_full(state: MeterState, n: u32)
    requires
        state.well_formed(),
        state.total + n <= u64::MAX,
    ensures
        state.counted(n).per_sec == state.per_sec + n,
        state.counted(n).total == state.total + n,
        state.counted(n).window == state.window,
{
}

} // verus!
