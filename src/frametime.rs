//! The decisions of the frametime collector: from successive vsync
//! timestamps to batches of inter-frame durations (in nanoseconds).
//!
//! The collector thread reads `fbt_info`, hands the parsed timestamp to
//! [`FrametimeCollector::step`] and performs the [`FrameStep`] it gets back.
use vstd::prelude::*;

verus! {

/// What the collector thread does after a step.
pub enum FrameStep {
    /// No newer frame yet: wait one poll interval, then read again.
    Poll,
    /// Read the timestamp again at once.
    Read,
    /// fpsgo reported itself disabled or unreadable: call the reenable hook,
    /// then read again.
    Reenable,
    /// A batch is complete: hand it to the consumer, then read again.
    Deliver(Vec<u64>),
}

/// [`FrameStep`] as seen in contracts.
pub enum FrameSignal {
    Poll,
    Read,
    Reenable,
    Deliver(Seq<u64>),
}

impl View for FrameStep {
    type V = FrameSignal;

    open spec fn view(&self) -> FrameSignal {
        match self {
            FrameStep::Poll => FrameSignal::Poll,
            FrameStep::Read => FrameSignal::Read,
            FrameStep::Reenable => FrameSignal::Reenable,
            FrameStep::Deliver(b) => FrameSignal::Deliver(b@),
        }
    }
}

/// The abstract state of a frametime collector.
pub struct FrametimeState {
    /// Samples per batch.
    pub target: nat,
    /// The timestamp the next sample is measured from, if any.
    pub base: Option<u64>,
    /// The latest timestamp accepted since the last resume.
    pub floor: u64,
    /// The partial batch.
    pub samples: Seq<u64>,
    /// For each sample, the pair of timestamps it was measured between.
    pub spans: Seq<(u64, u64)>,
}

/// Each sample is the positive difference of its span, and the spans follow
/// one another in time without overlap.
pub open spec fn spans_fit(samples: Seq<u64>, spans: Seq<(u64, u64)>) -> bool {
    &&& samples.len() == spans.len()
    &&& forall|i: int|
        0 <= i < spans.len() ==> #[trigger] spans[i].0 < spans[i].1 && samples[i] == spans[i].1
            - spans[i].0
    &&& forall|i: int, j: int| 0 <= i < j < spans.len() ==> #[trigger] spans[i].1 <= #[trigger] spans[j].0
}

/// A batch is time-ordered when its samples are the durations between
/// strictly increasing source timestamps, in order.
pub open spec fn time_ordered(batch: Seq<u64>) -> bool {
    exists|spans: Seq<(u64, u64)>| spans_fit(batch, spans)
}

impl FrametimeState {
    pub open spec fn wf(self) -> bool {
        &&& spans_fit(self.samples, self.spans)
        &&& forall|i: int| 0 <= i < self.spans.len() ==> #[trigger] self.spans[i].1 <= self.floor
        &&& self.base matches Some(b) ==> b == self.floor
        &&& (self.samples.len() < self.target || self.samples.len() == 0)
    }
}

/// A collector that samples `count` durations per batch and holds nothing yet.
pub open spec fn fresh_state(count: nat) -> FrametimeState {
    FrametimeState { target: count, base: None, floor: 0, samples: Seq::empty(), spans: Seq::empty() }
}

/// Pausing drops the partial batch and every timestamp seen.
pub open spec fn paused_state(v: FrametimeState) -> FrametimeState {
    fresh_state(v.target)
}

/// Resuming starts from nothing, with the new batch size.
pub open spec fn resumed_state(v: FrametimeState, count: nat) -> FrametimeState {
    fresh_state(count)
}

/// The partial batch once the sample from `b` to `s` is added, if there is
/// room for it.
pub open spec fn filled(v: FrametimeState, b: u64, s: u64) -> Seq<u64> {
    if v.samples.len() < v.target {
        v.samples.push((s - b) as u64)
    } else {
        v.samples
    }
}

pub open spec fn filled_spans(v: FrametimeState, b: u64, s: u64) -> Seq<(u64, u64)> {
    if v.samples.len() < v.target {
        v.spans.push((b, s))
    } else {
        v.spans
    }
}

/// The state after a reading of the timestamp (none: fpsgo disabled or the
/// snapshot unreadable).
pub open spec fn stepped(v: FrametimeState, reading: Option<u64>) -> FrametimeState {
    match reading {
        None => FrametimeState { base: None, ..v },
        Some(s) => match v.base {
            None => if s >= v.floor {
                FrametimeState { base: Some(s), floor: s, ..v }
            } else {
                v
            },
            Some(b) => if s <= b {
                v
            } else if filled(v, b, s).len() >= v.target {
                FrametimeState {
                    base: Some(s),
                    floor: s,
                    samples: Seq::empty(),
                    spans: Seq::empty(),
                    ..v
                }
            } else {
                FrametimeState {
                    base: Some(s),
                    floor: s,
                    samples: filled(v, b, s),
                    spans: filled_spans(v, b, s),
                    ..v
                }
            },
        },
    }
}

/// What the thread is told to do after that reading.
pub open spec fn step_signal(v: FrametimeState, reading: Option<u64>) -> FrameSignal {
    match reading {
        None => FrameSignal::Reenable,
        Some(s) => match v.base {
            None => if s >= v.floor {
                FrameSignal::Read
            } else {
                FrameSignal::Poll
            },
            Some(b) => if s <= b {
                FrameSignal::Poll
            } else if filled(v, b, s).len() >= v.target {
                FrameSignal::Deliver(filled(v, b, s))
            } else {
                FrameSignal::Read
            },
        },
    }
}

/// Every step keeps the collector well formed: at most one partial batch,
/// shorter than the batch size, made of time-ordered samples.
pub proof fn lemma_step_wf(v: FrametimeState, reading: Option<u64>)
    requires
        v.wf(),
    ensures
        stepped(v, reading).wf(),
{
    if let Some(s) = reading {
        if let Some(b) = v.base {
            if s > b && v.samples.len() < v.target {
                let w = stepped(v, reading);
                let sp = filled_spans(v, b, s);
                assert(sp.last() == (b, s));
                assert forall|i: int, j: int| 0 <= i < j < sp.len() implies #[trigger] sp[i].1
                    <= #[trigger] sp[j].0 by {
                    if j == sp.len() - 1 {
                        assert(sp[i] == v.spans[i]);
                    } else {
                        assert(sp[i] == v.spans[i] && sp[j] == v.spans[j]);
                    }
                }
                assert forall|i: int| 0 <= i < sp.len() implies #[trigger] sp[i].0 < sp[i].1
                    && filled(v, b, s)[i] == sp[i].1 - sp[i].0 by {
                    if i < v.spans.len() {
                        assert(sp[i] == v.spans[i]);
                    }
                }
            }
        }
    }
}

/// Every batch a well-formed collector delivers holds exactly the requested
/// number of samples and is time-ordered.
pub proof fn lemma_delivered_batch_ordered(v: FrametimeState, reading: Option<u64>)
    requires
        v.wf(),
    ensures
        step_signal(v, reading) matches FrameSignal::Deliver(batch) ==> batch.len() == v.target
            && time_ordered(batch),
{
    if let Some(s) = reading {
        if let Some(b) = v.base {
            if s > b {
                let sp = filled_spans(v, b, s);
                let f = filled(v, b, s);
                if v.samples.len() < v.target {
                    assert(sp.last() == (b, s));
                    assert forall|i: int, j: int| 0 <= i < j < sp.len() implies #[trigger] sp[i].1
                        <= #[trigger] sp[j].0 by {
                        if j == sp.len() - 1 {
                            assert(sp[i] == v.spans[i]);
                        } else {
                            assert(sp[i] == v.spans[i] && sp[j] == v.spans[j]);
                        }
                    }
                    assert forall|i: int| 0 <= i < sp.len() implies #[trigger] sp[i].0 < sp[i].1
                        && f[i] == sp[i].1 - sp[i].0 by {
                        if i < v.spans.len() {
                            assert(sp[i] == v.spans[i]);
                        }
                    }
                }
                assert(spans_fit(f, sp));
            }
        }
    }
}

/// Backpressure: a well-formed collector holds at most one undelivered batch,
/// shorter than the batch size, and a delivery hands over all of it.
pub proof fn lemma_one_batch_outstanding(v: FrametimeState, reading: Option<u64>)
    requires
        v.wf(),
    ensures
        stepped(v, reading).samples.len() < v.target || stepped(v, reading).samples.len() == 0,
        step_signal(v, reading) is Deliver ==> stepped(v, reading).samples.len() == 0,
        stepped(v, reading).target == v.target,
{
    lemma_step_wf(v, reading);
}

/// The state after taking in `readings`, in order.
pub open spec fn run(v: FrametimeState, readings: Seq<Option<u64>>) -> FrametimeState
    decreases readings.len(),
{
    if readings.len() == 0 {
        v
    } else {
        stepped(run(v, readings.drop_last()), readings.last())
    }
}

/// What the thread is told after each of `readings`, in order.
pub open spec fn run_signals(v: FrametimeState, readings: Seq<Option<u64>>) -> Seq<FrameSignal>
    decreases readings.len(),
{
    if readings.len() == 0 {
        Seq::empty()
    } else {
        let prev = readings.drop_last();
        run_signals(v, prev).push(step_signal(run(v, prev), readings.last()))
    }
}

/// Ordering: over any sequence of readings, every batch that a well-formed
/// collector delivers holds the requested number of samples and is
/// time-ordered.
pub proof fn lemma_run_batches_ordered(v: FrametimeState, readings: Seq<Option<u64>>)
    requires
        v.wf(),
    ensures
        run(v, readings).wf(),
        run(v, readings).target == v.target,
        run_signals(v, readings).len() == readings.len(),
        forall|i: int|
            0 <= i < readings.len() ==> (#[trigger] run_signals(v, readings)[i] matches FrameSignal::Deliver(
                batch,
            ) ==> batch.len() == v.target && time_ordered(batch)),
    decreases readings.len(),
{
    if readings.len() > 0 {
        let prev = readings.drop_last();
        lemma_run_batches_ordered(v, prev);
        lemma_step_wf(run(v, prev), readings.last());
        lemma_delivered_batch_ordered(run(v, prev), readings.last());
        assert forall|i: int| 0 <= i < readings.len() implies (#[trigger] run_signals(
            v,
            readings,
        )[i] matches FrameSignal::Deliver(batch) ==> batch.len() == v.target && time_ordered(
            batch,
        )) by {
            if i < prev.len() {
                assert(run_signals(v, readings)[i] == run_signals(v, prev)[i]);
            }
        }
    }
}

/// Pausing and then resuming leaves nothing from before the pause: the
/// state is that of a collector that never sampled, so on any readings that
/// follow it delivers exactly the batches such a collector would, made of
/// samples taken after resuming.
pub proof fn lemma_pause_discards_state(
    v: FrametimeState,
    count: nat,
    readings: Seq<Option<u64>>,
)
    ensures
        resumed_state(paused_state(v), count) == fresh_state(count),
        resumed_state(paused_state(v), count).samples.len() == 0,
        resumed_state(paused_state(v), count).base is None,
        run_signals(resumed_state(paused_state(v), count), readings) == run_signals(
            fresh_state(count),
            readings,
        ),
{
}

/// The frametime collector: the partial batch and the timestamps it is
/// measured from. It is owned by the collector thread alone.
pub struct FrametimeCollector {
    pub target: usize,
    pub base: Option<u64>,
    pub floor: u64,
    pub buffer: Vec<u64>,
    pub spans: Ghost<Seq<(u64, u64)>>,
}

impl View for FrametimeCollector {
    type V = FrametimeState;

    open spec fn view(&self) -> FrametimeState {
        FrametimeState {
            target: self.target as nat,
            base: self.base,
            floor: self.floor,
            samples: self.buffer@,
            spans: self.spans@,
        }
    }
}

impl FrametimeCollector {
    /// A collector with batch size zero that holds nothing.
    pub fn new() -> (r: Self)
        ensures
            r@ == fresh_state(0),
            r@.wf(),
    {
        FrametimeCollector {
            target: 0,
            base: None,
            floor: 0,
            buffer: Vec::new(),
            spans: Ghost(Seq::empty()),
        }
    }

    /// Drops the partial batch and every timestamp seen.
    pub fn pause(&mut self)
        ensures
            final(self)@ == paused_state(old(self)@),
            final(self)@.wf(),
    {
        self.base = None;
        self.floor = 0;
        self.buffer = Vec::new();
        self.spans = Ghost(Seq::empty());
        assert(self@.samples =~= Seq::empty());
    }

    /// Starts over with `count` samples per batch.
    pub fn resume(&mut self, count: usize)
        ensures
            final(self)@ == resumed_state(old(self)@, count as nat),
            final(self)@.wf(),
    {
        self.target = count;
        self.base = None;
        self.floor = 0;
        self.buffer = Vec::new();
        self.spans = Ghost(Seq::empty());
        assert(self@.samples =~= Seq::empty());
    }

    /// Takes in one reading of the vsync timestamp and says what to do next.
    pub fn step(&mut self, reading: Option<u64>) -> (r: FrameStep)
        requires
            old(self)@.wf(),
        ensures
            final(self)@ == stepped(old(self)@, reading),
            r@ == step_signal(old(self)@, reading),
            final(self)@.wf(),
            r@ matches FrameSignal::Deliver(b) ==> b.len() == old(self)@.target && time_ordered(b),
    {
        proof {
            lemma_step_wf(self@, reading);
            lemma_delivered_batch_ordered(self@, reading);
        }
        match reading {
            None => {
                self.base = None;
                FrameStep::Reenable
            },
            Some(s) => match self.base {
                None => {
                    if s >= self.floor {
                        self.base = Some(s);
                        self.floor = s;
                        FrameStep::Read
                    } else {
                        FrameStep::Poll
                    }
                },
                Some(b) => {
                    if s <= b {
                        FrameStep::Poll
                    } else {
                        if self.buffer.len() < self.target {
                            self.buffer.push(s - b);
                            self.spans = Ghost(self.spans@.push((b, s)));
                        }
                        self.base = Some(s);
                        self.floor = s;
                        if self.buffer.len() >= self.target {
                            let mut batch: Vec<u64> = Vec::new();
                            core::mem::swap(&mut batch, &mut self.buffer);
                            self.spans = Ghost(Seq::empty());
                            assert(self@.samples =~= Seq::empty());
                            FrameStep::Deliver(batch)
                        } else {
                            FrameStep::Read
                        }
                    }
                },
            },
        }
    }
}

} // verus!
