//! The executor: one root suspension point, advanced one tick per call.
use vstd::prelude::*;
use crate::suspension::{count_pending, finishes_at, is_trace, Poll, Suspension};

verus! {

/// One call of `frame` at `now` may take an executor from `before` to
/// `after` and return `more`.
///
/// The executor must still hold its root. The root is polled exactly once. If
/// it is pending the executor keeps it, in the state the poll left it in, and
/// asks to be called again; if it is ready the executor lets go of it and
/// reports the end.
pub open spec fn frames_to<F: Suspension<()>>(
    before: Option<F>,
    now: u64,
    after: Option<F>,
    more: bool,
) -> bool {
    match before {
        None => false,
        Some(root) => match after {
            Some(next) => more && root.polls_to(now, &next, Poll::Pending),
            None => !more && finishes_at::<(), F>(root, now),
        },
    }
}

/// Owns one root suspension point and advances it by one step per frame.
pub struct AnimationExecutor<F: Suspension<()>> {
    future: Option<F>,
}

impl<F: Suspension<()>> AnimationExecutor<F> {
    /// The root while work remains, nothing once it is done.
    pub closed spec fn view(&self) -> Option<F> {
        self.future
    }

    /// The root that is held, if any, is well-formed.
    pub closed spec fn wf(&self) -> bool {
        match self.future {
            Some(root) => root.wf(),
            None => true,
        }
    }

    /// An executor that will drive `animation`.
    pub fn new(animation: F) -> (executor: Self)
        ensures
            executor.wf() == animation.wf(),
            executor@ == Some(animation),
    {
        Self { future: Some(animation) }
    }

    /// Whether the root has reported that it is done. A finished executor
    /// must not be asked for another frame.
    pub fn is_finished(&self) -> (finished: bool)
        ensures
            finished == (self@ is None),
    {
        self.future.is_none()
    }

    /// Advances the root by one step at clock reading `now`. Returns `true`
    /// where work remains and `frame` is to be called again on the next
    /// tick, `false` where the root has finished.
    pub fn frame(&mut self, now: u64) -> (more: bool)
        requires
            old(self).wf(),
            old(self)@ is Some,
        ensures
            final(self).wf(),
            frames_to::<F>(old(self)@, now, final(self)@, more),
    {
        let mut future = self.future.take().unwrap();
        let ghost root = future;
        match future.poll(now) {
            Poll::Ready(output) => {
                assert(finishes_at::<(), F>(root, now)) by {
                    assert(root.polls_to(now, &future, Poll::Ready(output)));
                }
                false
            },
            Poll::Pending => {
                self.future = Some(future);
                true
            },
        }
    }
}

/// A history of frames: for every `i`, the call of `frame` at `times[i]`
/// takes the executor from `states[i]` to `states[i + 1]` and answers
/// `again[i]`.
pub open spec fn is_drive<F: Suspension<()>>(
    states: Seq<Option<F>>,
    times: Seq<u64>,
    again: Seq<bool>,
) -> bool {
    &&& states.len() == times.len() + 1
    &&& again.len() == times.len()
    &&& forall|i: int|
        0 <= i < times.len() ==> frames_to(states[i], times[i], states[i + 1], #[trigger] again[i])
}

/// How many of the answers are `true`.
pub open spec fn count_true(again: Seq<bool>) -> nat
    decreases again.len(),
{
    if again.len() == 0 {
        0
    } else {
        count_true(again.drop_last()) + if again.last() {
            1nat
        } else {
            0nat
        }
    }
}

/// Answers and results that agree one for one agree in number.
proof fn lemma_counts_agree(again: Seq<bool>, results: Seq<Poll<()>>)
    requires
        again.len() == results.len(),
        forall|i: int| 0 <= i < again.len() ==> (#[trigger] again[i] <==> results[i] is Pending),
    ensures
        count_true(again) == count_pending(results),
    decreases again.len(),
{
    if again.len() > 0 {
        assert forall|i: int| 0 <= i < again.drop_last().len() implies (
        #[trigger] again.drop_last()[i] <==> results.drop_last()[i] is Pending) by {
            assert(again[i] <==> results[i] is Pending);
        }
        lemma_counts_agree(again.drop_last(), results.drop_last());
        assert(again.last() <==> results.last() is Pending);
    }
}

/// Driving an executor is running its root once, poll for frame.
///
/// Every frame polls the root exactly once, in the state the frame before
/// left it in: the result names the states the root went through and what it
/// reported. A frame answers `true` exactly where the root was pending, so
/// there are as many `true` answers as pending results. Only the last frame
/// of a history can answer `false`: the root was ready then, the executor
/// holds nothing any more, and no further frame can follow.
pub proof fn lemma_frames_follow_the_root<F: Suspension<()>>(
    states: Seq<Option<F>>,
    times: Seq<u64>,
    again: Seq<bool>,
) -> (root: (Seq<F>, Seq<Poll<()>>))
    requires
        is_drive(states, times, again),
        times.len() > 0,
    ensures
        is_trace(root.0, times, root.1),
        states[0] == Some(root.0[0]),
        forall|i: int| 0 <= i < times.len() ==> (#[trigger] again[i] <==> root.1[i] is Pending),
        forall|i: int| 0 <= i < times.len() ==> (#[trigger] again[i] <==> states[i + 1] is Some),
        forall|i: int| 0 <= i < times.len() - 1 ==> #[trigger] again[i],
        count_true(again) == count_pending(root.1),
{
    let n = times.len() as int;
    // A frame needs a root to poll, so every frame but the last left one.
    assert forall|i: int| 0 <= i < n implies states[i] is Some && (#[trigger] again[i]
        <==> states[i + 1] is Some) by {
        assert(frames_to(states[i], times[i], states[i + 1], again[i]));
    }
    assert forall|i: int| 0 <= i < n - 1 implies #[trigger] again[i] by {
        assert(frames_to(states[i + 1], times[i + 1], states[i + 2], again[i + 1]));
    }
    // The root's states are the ones the executor held; where the last frame
    // let go of the root, its last state is the one that poll left.
    assert(frames_to(states[0], times[0], states[1], again[0]));
    assert(frames_to(states[n - 1], times[n - 1], states[n], again[n - 1]));
    let before = states[n - 1].unwrap();
    let (end, output) = if states[n] is Some {
        (states[n].unwrap(), ())
    } else {
        choose|after: F, output: ()| #[trigger]
            before.polls_to(times[n - 1], &after, Poll::Ready(output))
    };
    let root_states = Seq::new(
        (n + 1) as nat,
        |i: int|
            if i < n {
                states[i].unwrap()
            } else {
                end
            },
    );
    let results = Seq::new(
        n as nat,
        |i: int|
            if again[i] {
                Poll::Pending
            } else {
                Poll::Ready(output)
            },
    );
    assert forall|i: int| 0 <= i < n implies root_states[i].polls_to(
        times[i],
        &root_states[i + 1],
        #[trigger] results[i],
    ) by {
        assert(frames_to(states[i], times[i], states[i + 1], again[i]));
    }
    assert(root_states[0] == states[0].unwrap());
    lemma_counts_agree(again, results);
    (root_states, results)
}

} // verus!
