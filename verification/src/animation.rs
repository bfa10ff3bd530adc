//! Animations: values that are driven towards targets, one tick at a time.
use vstd::prelude::*;
use core::marker::PhantomData;
use crate::chain::{lemma_waiting_stage_ticks, lemma_with_stage_prefix, Chain, Stage, StagePhase};
use crate::suspension::{finishes_at, next_frame, NextFrameFuture, Poll, Suspension};
use crate::time::{elapsed_since, Progress};

verus! {

/// A value that can be animated. Every sized type is one: what a value must
/// support is decided by the interpolation function it is paired with.
pub trait AnimatableValue: Sized {}

impl<T: Sized> AnimatableValue for T {}

/// The interpolation function accepts every start, every end and every
/// well-formed progress.
pub open spec fn curve_total<T, F: Fn(T, T, Progress) -> T>(tween_fn: F) -> bool {
    forall|start: T, end: T, progress: Progress|
        progress.wf() ==> #[trigger] call_requires(tween_fn, (start, end, progress))
}

/// The interpolation function as a relation between its arguments and what it
/// may return for them.
pub open spec fn curve_of<T, F: Fn(T, T, Progress) -> T>(tween_fn: F) -> spec_fn(
    T,
    T,
    Progress,
    T,
) -> bool {
    |start: T, end: T, progress: Progress, sample: T|
        call_ensures(tween_fn, (start, end, progress), sample)
}

/// A computation that drives a value of type `V`, tick by tick, until it is
/// done.
pub trait Animation<V: AnimatableValue> {
    /// The animated value and the stages that act on it.
    spec fn view(&self) -> Chain<V>;

    /// The invariant that the methods need and keep.
    spec fn wf(&self) -> bool;

    /// Advances the animation by one tick at clock reading `now`, and is
    /// ready once every stage has finished.
    fn run(&mut self, now: u64) -> (result: Poll<()>)
        requires
            old(self).wf(),
        ensures
            final(self).wf(),
            old(self)@.ticks_to(now, final(self)@, result is Ready),
    ;

    /// The animated value as it is now.
    fn get_item(&self) -> (item: &V)
        ensures
            *item == self@.value,
    ;

    /// Overwrites the animated value and leaves every stage as it is.
    fn set_item(&mut self, value: V)
        ensures
            final(self).wf() == old(self).wf(),
            final(self)@ == old(self)@.with_value(value),
    ;
}

/// The animation that does nothing: a borrowed value, ready at once.
///
/// The value stays where its owner keeps it and is written in place, so the
/// owner finds the result there once the animation is gone.
pub struct Anim<'a, T> {
    pub item: &'a mut T,
}

impl<'a, T: AnimatableValue> Animation<T> for Anim<'a, T> {
    open spec fn view(&self) -> Chain<T> {
        Chain::bare(*self.item)
    }

    open spec fn wf(&self) -> bool {
        true
    }

    fn run(&mut self, now: u64) -> (result: Poll<()>)
        ensures
            result == Poll::Ready(()),
            final(self)@ == old(self)@,
            *final(final(self).item) == *final(old(self).item),
    {
        Poll::Ready(())
    }

    fn get_item(&self) -> (item: &T) {
        &*self.item
    }

    fn set_item(&mut self, value: T)
        ensures
            *final(final(self).item) == *final(old(self).item),
    {
        *self.item = value;
    }
}

/// Values that can be borrowed as the start of an animation.
pub trait IntoAnim: Sized {
    /// Borrows the value as an animation without stages. What the animation
    /// writes, it writes to this value.
    fn anim(&mut self) -> (animation: Anim<'_, Self>)
        ensures
            animation@ == Chain::bare(*old(self)),
            *animation.item == *old(self),
            *final(animation.item) == *final(self),
    {
        Anim { item: self }
    }
}

impl<T: AnimatableValue> IntoAnim for T {}

/// Writes to the animated value the sample that `tween_fn` gives for
/// `progress` on the way from `start_value` to `target`.
fn write_sample<T, I, F>(inner: &mut I, tween_fn: &F, start_value: T, target: T, progress: Progress) where
    T: AnimatableValue + Copy,
    I: Animation<T>,
    F: Fn(T, T, Progress) -> T,

    requires
        old(inner).wf(),
        curve_total(*tween_fn),
        progress.wf(),
    ensures
        final(inner).wf(),
        final(inner)@.stages == old(inner)@.stages,
        call_ensures(*tween_fn, (start_value, target, progress), final(inner)@.value),
{
    let sample = tween_fn(start_value, target, progress);
    inner.set_item(sample);
}

/// An animation that, once `inner` is done, leads the value to `target`
/// within `duration`, sampling `tween_fn` once per tick.
#[verifier::reject_recursive_types(T)]
pub struct TweenAnimation<T, I, F> where
    T: AnimatableValue + Copy,
    I: Animation<T>,
    F: Fn(T, T, Progress) -> T,
 {
    inner: I,
    target: T,
    tween_fn: F,
    duration: u64,
    phase: StagePhase<T>,
    frame: NextFrameFuture,
}

impl<T, I, F> TweenAnimation<T, I, F> where
    T: AnimatableValue + Copy,
    I: Animation<T>,
    F: Fn(T, T, Progress) -> T,
 {
    /// The stage that this tween adds to the chain of `inner`.
    spec fn stage(&self) -> Stage<T> {
        Stage {
            target: self.target,
            duration: self.duration,
            curve: curve_of(self.tween_fn),
            phase: self.phase,
        }
    }
}

impl<T, I, F> Animation<T> for TweenAnimation<T, I, F> where
    T: AnimatableValue + Copy,
    I: Animation<T>,
    F: Fn(T, T, Progress) -> T,
 {
    closed spec fn view(&self) -> Chain<T> {
        self.inner@.with_stage(self.stage())
    }

    /// The animation before this one is well-formed, the interpolation
    /// function takes every argument, and a running tween holds a frame
    /// suspension that has already yielded.
    closed spec fn wf(&self) -> bool {
        &&& self.inner.wf()
        &&& curve_total(self.tween_fn)
        &&& self.phase is Running ==> self.frame@
    }

    fn run(&mut self, now: u64) -> (result: Poll<()>) {
        proof {
            lemma_with_stage_prefix(self.inner@, self.stage());
        }
        match self.phase {
            StagePhase::Finished => Poll::Ready(()),
            StagePhase::Running { start_value, start_t } => match self.frame.poll(now) {
                Poll::Pending => Poll::Pending,
                Poll::Ready(_) => {
                    let elapsed: u64 = elapsed_since(start_t, now);
                    if elapsed < self.duration {
                        let progress = Progress { numer: elapsed, denom: self.duration };
                        write_sample(
                            &mut self.inner,
                            &self.tween_fn,
                            start_value,
                            self.target,
                            progress,
                        );
                        self.frame = next_frame();
                        self.frame.poll(now)
                    } else {
                        write_sample(
                            &mut self.inner,
                            &self.tween_fn,
                            start_value,
                            self.target,
                            Progress::complete(),
                        );
                        self.phase = StagePhase::Finished;
                        Poll::Ready(())
                    }
                },
            },
            StagePhase::Waiting => {
                let settled = self.inner.run(now);
                let ghost mid = self.inner@;
                match settled {
                    Poll::Pending => {
                        proof {
                            lemma_waiting_stage_ticks(old(self)@, now, mid, false, self@, false);
                        }
                        Poll::Pending
                    },
                    Poll::Ready(_) => {
                        let start_value = *self.inner.get_item();
                        if self.duration > 0 {
                            self.phase = StagePhase::Running { start_value, start_t: now };
                            self.frame = next_frame();
                            let yielded = self.frame.poll(now);
                            proof {
                                lemma_waiting_stage_ticks(old(self)@, now, mid, true, self@, false);
                            }
                            yielded
                        } else {
                            write_sample(
                                &mut self.inner,
                                &self.tween_fn,
                                start_value,
                                self.target,
                                Progress::complete(),
                            );
                            self.phase = StagePhase::Finished;
                            proof {
                                lemma_waiting_stage_ticks(old(self)@, now, mid, true, self@, true);
                            }
                            Poll::Ready(())
                        }
                    },
                }
            },
        }
    }

    fn get_item(&self) -> (item: &T) {
        self.inner.get_item()
    }

    fn set_item(&mut self, value: T) {
        self.inner.set_item(value);
    }
}

/// The builder that every animation has: one more tween at the end.
pub trait TweenAnimatable<V: AnimatableValue + Copy>: Animation<V> + Sized {
    /// An animation that runs `self` to its end and then leads the value to
    /// `target` within `duration`, sampling `tween_fn` once per tick.
    fn tween<F>(self, target: V, tween_fn: F, duration: u64) -> (tween: TweenAnimation<V, Self, F>) where
        F: Fn(V, V, Progress) -> V,

        ensures
            tween.wf() == (self.wf() && curve_total(tween_fn)),
            tween@ == self@.with_stage(
                Stage {
                    target,
                    duration,
                    curve: curve_of(tween_fn),
                    phase: StagePhase::Waiting,
                },
            ),
    {
        TweenAnimation {
            inner: self,
            target,
            tween_fn,
            duration,
            phase: StagePhase::Waiting,
            frame: next_frame(),
        }
    }
}

impl<V: AnimatableValue + Copy, A: Animation<V> + Sized> TweenAnimatable<V> for A {}

/// An animation as a suspension point: it is polled like any other, and its
/// value is not handed out at the end.
pub struct AnimationWrapper<V: AnimatableValue, T: Animation<V>>(Option<T>, PhantomData<V>);

impl<V: AnimatableValue, T: Animation<V>> AnimationWrapper<V, T> {
    /// The chain that is still running, if any.
    pub closed spec fn view(&self) -> Option<Chain<V>> {
        match self.0 {
            Some(animation) => Some(animation@),
            None => None,
        }
    }
}

/// One poll at `now` may take a wrapped animation from `before` to `after`
/// and report `result`.
///
/// The animation ticks once. While it is not ready the wrapper keeps it and
/// is pending; once it is ready the wrapper lets go of it, and with it of
/// the final value. A wrapper that holds nothing is ready.
pub open spec fn wrapper_polls_to<V>(
    before: Option<Chain<V>>,
    now: u64,
    after: Option<Chain<V>>,
    result: Poll<()>,
) -> bool {
    match before {
        None => after is None && result is Ready,
        Some(chain) => match after {
            Some(next) => result is Pending && chain.ticks_to(now, next, false),
            None => result is Ready && chain.finishes_at(now),
        },
    }
}

impl<V: AnimatableValue, T: Animation<V>> vstd::std_specs::convert::FromSpecImpl<T> for AnimationWrapper<V, T> {
    open spec fn obeys_from_spec() -> bool {
        true
    }

    closed spec fn from_spec(v: T) -> Self {
        AnimationWrapper(Some(v), PhantomData)
    }
}

impl<V: AnimatableValue, T: Animation<V>> From<T> for AnimationWrapper<V, T> {
    fn from(v: T) -> (wrapper: Self)
        ensures
            wrapper@ == Some(v@),
            wrapper.wf() == v.wf(),
    {
        AnimationWrapper(Some(v), PhantomData)
    }
}

impl<V: AnimatableValue, T: Animation<V>> Suspension<()> for AnimationWrapper<V, T> {
    closed spec fn wf(&self) -> bool {
        match self.0 {
            Some(animation) => animation.wf(),
            None => true,
        }
    }

    open spec fn polls_to(&self, now: u64, after: &Self, result: Poll<()>) -> bool {
        wrapper_polls_to(self@, now, after@, result)
    }

    fn poll(&mut self, now: u64) -> (result: Poll<()>) {
        match self.0.take() {
            None => Poll::Ready(()),
            Some(mut animation) => {
                let ghost chain = animation@;
                match animation.run(now) {
                    Poll::Pending => {
                        self.0 = Some(animation);
                        Poll::Pending
                    },
                    Poll::Ready(_) => {
                        assert(chain.finishes_at(now)) by {
                            assert(chain.ticks_to(now, animation@, true));
                        }
                        Poll::Ready(())
                    },
                }
            },
        }
    }
}

/// A wrapped animation reports that it is done only on a tick that may
/// finish its chain.
pub proof fn lemma_wrapper_finishes_with_its_chain<V: AnimatableValue, T: Animation<V>>(
    wrapper: AnimationWrapper<V, T>,
    now: u64,
)
    requires
        finishes_at::<(), AnimationWrapper<V, T>>(wrapper, now),
    ensures
        wrapper@ matches Some(chain) ==> chain.finishes_at(now),
{
    let (after, output) = choose|after: AnimationWrapper<V, T>, output: ()| #[trigger]
        wrapper.polls_to(now, &after, Poll::Ready(output));
    assert(wrapper_polls_to(wrapper@, now, after@, Poll::Ready(output)));
}

} // verus!
