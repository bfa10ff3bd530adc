//! The polling protocol and its two primitive suspension points.
use vstd::prelude::*;
use crate::time::elapsed_since;

verus! {

/// What a suspension point reports when it is polled.
#[derive(Debug, PartialEq, Eq)]
pub enum Poll<T> {
    /// The computation is done and this is its result.
    Ready(T),
    /// The computation is still working: poll it again on the next tick.
    Pending,
}

/// A computation that is advanced by one step per tick and ends with a `T`.
///
/// The driver polls unconditionally on every tick, so no wake-up signal
/// exists: a suspension point that waited for anything but the next poll
/// would never resume.
pub trait Suspension<T> {
    /// The invariant that `poll` needs and keeps.
    spec fn wf(&self) -> bool;

    /// Polled at `now`, this computation may report `result` and go on as
    /// `after`.
    spec fn polls_to(&self, now: u64, after: &Self, result: Poll<T>) -> bool;

    /// Advances the computation by one step at clock reading `now`.
    fn poll(&mut self, now: u64) -> (result: Poll<T>)
        requires
            old(self).wf(),
        ensures
            final(self).wf(),
            old(self).polls_to(now, &*final(self), result),
    ;
}

/// Polled at `now`, the computation `before` may report that it is done.
pub open spec fn finishes_at<T, S: Suspension<T>>(before: S, now: u64) -> bool {
    exists|after: S, output: T| #[trigger] before.polls_to(now, &after, Poll::Ready(output))
}

/// A history of polls: for every `i`, the computation in state `states[i]` is
/// polled at `times[i]`, reports `results[i]` and goes on in state
/// `states[i + 1]`.
pub open spec fn is_trace<T, S: Suspension<T>>(
    states: Seq<S>,
    times: Seq<u64>,
    results: Seq<Poll<T>>,
) -> bool {
    &&& states.len() == times.len() + 1
    &&& results.len() == times.len()
    &&& forall|i: int|
        0 <= i < times.len() ==> states[i].polls_to(times[i], &states[i + 1], #[trigger] results[i])
}

/// How many of the results are pending.
pub open spec fn count_pending<T>(results: Seq<Poll<T>>) -> nat
    decreases results.len(),
{
    if results.len() == 0 {
        0
    } else {
        count_pending(results.drop_last()) + if results.last() is Pending {
            1nat
        } else {
            0nat
        }
    }
}

/// The clock readings never go back.
pub open spec fn non_decreasing(times: Seq<u64>) -> bool {
    forall|i: int, j: int| 0 <= i <= j < times.len() ==> times[i] <= times[j]
}

/// A suspension point that lets exactly one tick go by: pending at the first
/// poll, ready at every later one.
pub struct NextFrameFuture {
    finished: bool,
}

impl NextFrameFuture {
    /// Whether the suspension has already yielded once.
    pub closed spec fn view(&self) -> bool {
        self.finished
    }

    /// A frame suspension that has not been polled yet.
    pub fn new() -> (frame: Self)
        ensures
            frame@ == false,
            frame.wf(),
    {
        Self { finished: false }
    }
}

impl Suspension<()> for NextFrameFuture {
    open spec fn wf(&self) -> bool {
        true
    }

    open spec fn polls_to(&self, now: u64, after: &Self, result: Poll<()>) -> bool {
        &&& after@
        &&& result == (if self@ { Poll::Ready(()) } else { Poll::Pending })
    }

    fn poll(&mut self, now: u64) -> (result: Poll<()>) {
        if !self.finished {
            self.finished = true;
            Poll::Pending
        } else {
            Poll::Ready(())
        }
    }
}

/// What a timed suspension is made of: how long it waits, and from when.
pub struct Timer {
    pub duration: u64,
    pub start_t: u64,
}

/// A suspension point that is pending until a duration has passed since the
/// clock reading it was made at. It keeps no flag of its own: every poll
/// compares the clock again.
pub struct WaitFuture {
    duration: u64,
    start_t: u64,
}

impl WaitFuture {
    /// How long the suspension waits, and from when.
    pub closed spec fn view(&self) -> Timer {
        Timer { duration: self.duration, start_t: self.start_t }
    }

    /// A suspension that is ready once `duration` has passed since `now`.
    pub fn new(duration: u64, now: u64) -> (wait: Self)
        ensures
            wait@ == (Timer { duration, start_t: now }),
            wait.wf(),
    {
        Self { duration, start_t: now }
    }
}

impl Suspension<()> for WaitFuture {
    open spec fn wf(&self) -> bool {
        true
    }

    open spec fn polls_to(&self, now: u64, after: &Self, result: Poll<()>) -> bool {
        &&& after@ == self@
        &&& result == (if elapsed_since(self@.start_t, now) < self@.duration {
            Poll::Pending
        } else {
            Poll::Ready(())
        })
    }

    fn poll(&mut self, now: u64) -> (result: Poll<()>) {
        if self.duration > elapsed_since(self.start_t, now) {
            Poll::Pending
        } else {
            Poll::Ready(())
        }
    }
}

/// Suspends until the next tick.
pub fn next_frame() -> (frame: NextFrameFuture)
    ensures
        frame@ == false,
        frame.wf(),
{
    NextFrameFuture::new()
}

/// Suspends until `duration` has passed since `now`.
pub fn wait(duration: u64, now: u64) -> (wait: WaitFuture)
    ensures
        wait@ == (Timer { duration, start_t: now }),
        wait.wf(),
{
    WaitFuture::new(duration, now)
}

/// However often a new frame suspension is polled, its first poll is pending
/// and every later one is ready: one pending, then nothing but ready.
pub proof fn lemma_frame_yields_exactly_once(
    states: Seq<NextFrameFuture>,
    times: Seq<u64>,
    results: Seq<Poll<()>>,
)
    requires
        is_trace(states, times, results),
        !states[0]@,
    ensures
        forall|i: int| 0 <= i < results.len() ==> (#[trigger] results[i] is Pending <==> i == 0),
        forall|i: int| 0 < i < states.len() ==> (#[trigger] states[i])@,
{
    assert forall|i: int| 0 < i < states.len() implies (#[trigger] states[i])@ by {
        assert(states[i - 1].polls_to(times[i - 1], &states[i], results[i - 1]));
    }
    assert forall|i: int| 0 <= i < results.len() implies (#[trigger] results[i] is Pending <==> i
        == 0) by {
        assert(states[i].polls_to(times[i], &states[i + 1], results[i]));
    }
}

/// A frame suspension that has yielded is ready at every poll, whatever the
/// clock says, and no poll changes it.
pub proof fn lemma_frame_stays_ready(
    before: NextFrameFuture,
    now: u64,
    after: NextFrameFuture,
    result: Poll<()>,
)
    requires
        before.polls_to(now, &after, result),
        before@,
    ensures
        result is Ready,
        after@ == before@,
{
}

/// A timed suspension made at `start` for `duration` is pending at every
/// clock reading before `start + duration` and ready from then on, and no
/// poll changes it.
pub proof fn lemma_wait_is_ready_from_its_deadline(
    before: WaitFuture,
    now: u64,
    after: WaitFuture,
    result: Poll<()>,
)
    requires
        before.polls_to(now, &after, result),
        before@.start_t <= now,
    ensures
        result is Pending <==> now < before@.start_t + before@.duration,
        result is Ready <==> now >= before@.start_t + before@.duration,
        after@ == before@,
{
}

/// A timed suspension with no duration is ready at its first poll, whatever
/// the clock says.
pub proof fn lemma_wait_for_nothing_is_ready(
    before: WaitFuture,
    now: u64,
    after: WaitFuture,
    result: Poll<()>,
)
    requires
        before.polls_to(now, &after, result),
        before@.duration == 0,
    ensures
        result is Ready,
{
}

/// No poll changes a timed suspension.
pub proof fn lemma_wait_never_changes(
    states: Seq<WaitFuture>,
    times: Seq<u64>,
    results: Seq<Poll<()>>,
    k: int,
)
    requires
        is_trace(states, times, results),
        0 <= k < states.len(),
    ensures
        states[k]@ == states[0]@,
    decreases k,
{
    if k > 0 {
        lemma_wait_never_changes(states, times, results, k - 1);
        assert(states[k - 1].polls_to(times[k - 1], &states[k], results[k - 1]));
    }
}

/// Once a timed suspension has been ready, it is ready at every later poll,
/// as long as the clock does not go back.
pub proof fn lemma_wait_stays_ready(
    states: Seq<WaitFuture>,
    times: Seq<u64>,
    results: Seq<Poll<()>>,
    i: int,
    j: int,
)
    requires
        is_trace(states, times, results),
        non_decreasing(times),
        0 <= i <= j < times.len(),
        results[i] is Ready,
    ensures
        results[j] is Ready,
{
    lemma_wait_never_changes(states, times, results, i);
    lemma_wait_never_changes(states, times, results, j);
    assert(states[i].polls_to(times[i], &states[i + 1], results[i]));
    assert(states[j].polls_to(times[j], &states[j + 1], results[j]));
}

} // verus!
