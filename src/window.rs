//! The decisions of the FPS collector: a sliding window of timed FPS
//! samples and the average it publishes.
//!
//! Times are milliseconds of a monotonic clock that the collector thread
//! reads; the window only compares them.
use vstd::prelude::*;
use crate::Fps;

verus! {

/// A sample older than `window` milliseconds at time `now` has expired.
pub open spec fn is_young(now: u64, window: u64, e: (u64, Fps)) -> bool {
    now - e.0 <= window
}

/// The samples of `s` that have not expired, in their order.
pub open spec fn survivors(s: Seq<(u64, Fps)>, now: u64, window: u64) -> Seq<(u64, Fps)>
    decreases s.len(),
{
    if s.len() == 0 {
        Seq::empty()
    } else {
        let p = survivors(s.drop_last(), now, window);
        if is_young(now, window, s.last()) {
            p.push(s.last())
        } else {
            p
        }
    }
}

pub open spec fn fps_sum(s: Seq<(u64, Fps)>) -> nat
    decreases s.len(),
{
    if s.len() == 0 {
        0
    } else {
        fps_sum(s.drop_last()) + s.last().1 as nat
    }
}

/// The arithmetic mean of the FPS values of `s`, rounded down; 0 when `s` is
/// empty.
pub open spec fn mean_fps(s: Seq<(u64, Fps)>) -> nat {
    if s.len() == 0 {
        0
    } else {
        fps_sum(s) / s.len()
    }
}

/// The abstract state of an FPS window.
pub struct WindowState {
    /// Retention in milliseconds.
    pub window: u64,
    /// The samples, oldest first.
    pub samples: Seq<(u64, Fps)>,
    /// The last published average.
    pub published: Fps,
}

pub open spec fn ticked(v: WindowState, now: u64) -> WindowState {
    let kept = survivors(v.samples, now, v.window);
    WindowState { samples: kept, published: mean_fps(kept) as Fps, ..v }
}

pub open spec fn recorded(v: WindowState, now: u64, reading: Option<Fps>) -> WindowState {
    match reading {
        Some(f) => WindowState { samples: v.samples.push((now, f)), ..v },
        None => v,
    }
}

pub open spec fn record_all(v: WindowState, pushes: Seq<(u64, Fps)>) -> WindowState
    decreases pushes.len(),
{
    if pushes.len() == 0 {
        v
    } else {
        let p = pushes.last();
        recorded(record_all(v, pushes.drop_last()), p.0, Some(p.1))
    }
}

proof fn lemma_sum_bound(s: Seq<(u64, Fps)>)
    ensures
        fps_sum(s) <= s.len() * (u32::MAX as nat),
    decreases s.len(),
{
    if s.len() > 0 {
        lemma_sum_bound(s.drop_last());
        assert(fps_sum(s) <= (s.len() - 1) * (u32::MAX as nat) + u32::MAX as nat);
        assert((s.len() - 1) * (u32::MAX as nat) + u32::MAX as nat == s.len() * (
        u32::MAX as nat)) by (nonlinear_arith);
    }
}

proof fn lemma_mean_bound(s: Seq<(u64, Fps)>)
    ensures
        mean_fps(s) <= u32::MAX,
{
    if s.len() > 0 {
        lemma_sum_bound(s);
        let n = s.len();
        let t = fps_sum(s);
        assert(t / n <= u32::MAX) by (nonlinear_arith)
            requires
                t <= n * (u32::MAX as nat),
                n > 0,
        ;
    }
}

proof fn lemma_survivors_young(s: Seq<(u64, Fps)>, now: u64, window: u64)
    ensures
        forall|i: int|
            0 <= i < survivors(s, now, window).len() ==> is_young(
                now,
                window,
                #[trigger] survivors(s, now, window)[i],
            ),
    decreases s.len(),
{
    if s.len() > 0 {
        lemma_survivors_young(s.drop_last(), now, window);
        let p = survivors(s.drop_last(), now, window);
        let q = survivors(s, now, window);
        assert forall|i: int| 0 <= i < q.len() implies is_young(now, window, #[trigger] q[i]) by {
            if i < p.len() {
                assert(q[i] == p[i]);
            }
        }
    }
}

/// Sliding-window law: after any sequence of timed pushes, the average that
/// the next tick publishes is the mean of the pushed (and earlier) samples
/// that are still within the retention duration, or 0 when none is; and no
/// sample that remains is older than that duration.
pub proof fn lemma_window_average(v: WindowState, pushes: Seq<(u64, Fps)>, now: u64)
    ensures
        record_all(v, pushes).samples == v.samples + pushes,
        ticked(record_all(v, pushes), now).published as nat == mean_fps(
            survivors(v.samples + pushes, now, v.window),
        ),
        survivors(v.samples + pushes, now, v.window).len() == 0 ==> ticked(
            record_all(v, pushes),
            now,
        ).published == 0,
        forall|i: int|
            0 <= i < ticked(record_all(v, pushes), now).samples.len() ==> is_young(
                now,
                v.window,
                #[trigger] ticked(record_all(v, pushes), now).samples[i],
            ),
    decreases pushes.len(),
{
    if pushes.len() > 0 {
        lemma_window_average(v, pushes.drop_last(), now);
        assert(v.samples + pushes =~= (v.samples + pushes.drop_last()).push(pushes.last()));
    } else {
        assert(v.samples + pushes =~= v.samples);
    }
    lemma_mean_bound(survivors(v.samples + pushes, now, v.window));
    lemma_survivors_young(v.samples + pushes, now, v.window);
    assert(record_all(v, pushes).window == v.window) by {
        lemma_record_all_window(v, pushes);
    }
}

proof fn lemma_record_all_window(v: WindowState, pushes: Seq<(u64, Fps)>)
    ensures
        record_all(v, pushes).window == v.window,
    decreases pushes.len(),
{
    if pushes.len() > 0 {
        lemma_record_all_window(v, pushes.drop_last());
    }
}

/// The FPS collector's window, owned by the collector thread alone.
pub struct FpsWindow {
    pub window: u64,
    pub samples: Vec<(u64, Fps)>,
    pub published: Fps,
}

impl View for FpsWindow {
    type V = WindowState;

    open spec fn view(&self) -> WindowState {
        WindowState { window: self.window, samples: self.samples@, published: self.published }
    }
}

impl FpsWindow {
    /// An empty window of zero retention that publishes 0.
    pub fn new() -> (r: Self)
        ensures
            r@ == (WindowState { window: 0, samples: Seq::empty(), published: 0 }),
    {
        FpsWindow { window: 0, samples: Vec::new(), published: 0 }
    }

    /// Drops every sample; the published average stays until the next tick.
    pub fn pause(&mut self)
        ensures
            final(self)@ == (WindowState { samples: Seq::empty(), ..old(self)@ }),
    {
        self.samples = Vec::new();
        assert(self@.samples =~= Seq::empty());
    }

    /// Starts over with a retention of `window_ms` milliseconds.
    pub fn resume(&mut self, window_ms: u64)
        ensures
            final(self)@ == (WindowState {
                window: window_ms,
                samples: Seq::empty(),
                published: old(self)@.published,
            }),
    {
        self.window = window_ms;
        self.samples = Vec::new();
        assert(self@.samples =~= Seq::empty());
    }

    /// Evicts the samples that have expired at `now`, then publishes and
    /// returns the mean of those that remain (0 if none does).
    pub fn tick(&mut self, now: u64) -> (r: Fps)
        ensures
            final(self)@ == ticked(old(self)@, now),
            r == final(self)@.published,
            r as nat == mean_fps(survivors(old(self)@.samples, now, old(self)@.window)),
    {
        let ghost s = self.samples@;
        let mut kept: Vec<(u64, Fps)> = Vec::new();
        let mut total: u128 = 0;
        let mut i: usize = 0;
        while i < self.samples.len()
            invariant
                i <= s.len(),
                s == self.samples@,
                kept@ == survivors(s.take(i as int), now, self.window),
                total as nat == fps_sum(kept@),
                kept@.len() <= i,
            decreases s.len() - i,
        {
            let e = self.samples[i];
            proof {
                assert(s.take(i + 1).drop_last() =~= s.take(i as int));
                assert(s.take(i + 1).last() == e);
                lemma_sum_bound(kept@);
                assert(kept@.len() * (u32::MAX as nat) <= usize::MAX * (u32::MAX as nat))
                    by (nonlinear_arith)
                    requires
                        kept@.len() <= usize::MAX,
                ;
            }
            if now < e.0 || now - e.0 <= self.window {
                kept.push(e);
                total = total + e.1 as u128;
                assert(kept@.drop_last() == survivors(s.take(i as int), now, self.window));
            }
            i = i + 1;
        }
        assert(s.take(s.len() as int) =~= s);
        proof {
            lemma_mean_bound(kept@);
        }
        let avg: Fps = if kept.len() == 0 {
            0
        } else {
            (total / (kept.len() as u128)) as Fps
        };
        self.samples = kept;
        self.published = avg;
        avg
    }

    /// Appends the sample read at `now`, if the status file gave one.
    /// Returns whether it did; when not, fpsgo needs reenabling.
    pub fn record(&mut self, now: u64, reading: Option<Fps>) -> (r: bool)
        ensures
            final(self)@ == recorded(old(self)@, now, reading),
            r == reading is Some,
    {
        match reading {
            Some(f) => {
                self.samples.push((now, f));
                true
            },
            None => false,
        }
    }
}

} // verus!
