//! The model of an animation: a value and the tween stages that act on it.
//!
//! A chain built as `v.anim().tween(..).tween(..)` is modelled by the current
//! value of `v` and the sequence of its stages in the order they were added.
//! Stages run strictly one after another: a stage starts on the tick on which
//! everything before it has finished, and the value it starts from is the
//! value it finds at that moment.
use vstd::prelude::*;
use crate::time::{elapsed_since, Progress};

verus! {

/// Where a tween stage is in its life.
pub enum StagePhase<V> {
    /// The stages before this one have not all finished.
    Waiting,
    /// The stage is interpolating from `start_value`, which it found when it
    /// started at clock reading `start_t`.
    Running { start_value: V, start_t: u64 },
    /// The stage has written its last sample and never writes again.
    Finished,
}

/// One tween: where it leads, how long it takes and what it has done so far.
#[verifier::reject_recursive_types(V)]
pub struct Stage<V> {
    pub target: V,
    pub duration: u64,
    /// `curve(start, end, progress, sample)` holds where the interpolation
    /// function, called with `start`, `end` and `progress`, may return
    /// `sample`.
    pub curve: spec_fn(V, V, Progress, V) -> bool,
    pub phase: StagePhase<V>,
}

impl<V> Stage<V> {
    /// This stage, running from `start_value` since `now`.
    pub open spec fn started(self, start_value: V, now: u64) -> Stage<V> {
        Stage { phase: StagePhase::Running { start_value, start_t: now }, ..self }
    }

    /// This stage, finished.
    pub open spec fn finished(self) -> Stage<V> {
        Stage { phase: StagePhase::Finished, ..self }
    }

    /// `sample` is a value of this stage's interpolation from `start_value`
    /// to its target at `progress`.
    pub open spec fn samples(self, start_value: V, progress: Progress, sample: V) -> bool {
        (self.curve)(start_value, self.target, progress, sample)
    }

    /// The two stages are the same tween, whatever each has done so far.
    pub open spec fn same_tween(self, other: Stage<V>) -> bool {
        &&& self.target == other.target
        &&& self.duration == other.duration
        &&& self.curve == other.curve
    }
}

/// An animated value and the stages of its animation, oldest first.
#[verifier::reject_recursive_types(V)]
pub struct Chain<V> {
    pub value: V,
    pub stages: Seq<Stage<V>>,
}

impl<V> Chain<V> {
    /// A value that nothing animates.
    pub open spec fn bare(value: V) -> Chain<V> {
        Chain { value, stages: Seq::empty() }
    }

    /// This chain with one more stage at its end.
    pub open spec fn with_stage(self, stage: Stage<V>) -> Chain<V> {
        Chain { value: self.value, stages: self.stages.push(stage) }
    }

    /// This chain with another current value.
    pub open spec fn with_value(self, value: V) -> Chain<V> {
        Chain { value, stages: self.stages }
    }

    /// This chain without its last stage.
    pub open spec fn prefix(self) -> Chain<V>
        recommends
            self.stages.len() > 0,
    {
        Chain { value: self.value, stages: self.stages.drop_last() }
    }

    /// Every stage has finished.
    pub open spec fn settled(self) -> bool {
        forall|i: int| 0 <= i < self.stages.len() ==> (#[trigger] self.stages[i]).phase is Finished
    }

    /// No stage has started.
    pub open spec fn fresh(self) -> bool {
        forall|i: int| 0 <= i < self.stages.len() ==> (#[trigger] self.stages[i]).phase is Waiting
    }

    /// The stages take their turns: whenever a stage has started, every stage
    /// before it has finished.
    pub open spec fn ordered(self) -> bool {
        forall|i: int, j: int|
            0 <= i < j < self.stages.len() ==> (#[trigger] self.stages[j]).phase is Waiting || (
            #[trigger] self.stages[i]).phase is Finished
    }

    /// The two chains are made of the same tweens in the same order.
    pub open spec fn same_tweens(self, other: Chain<V>) -> bool {
        &&& self.stages.len() == other.stages.len()
        &&& forall|i: int|
            0 <= i < self.stages.len() ==> (#[trigger] self.stages[i]).same_tween(other.stages[i])
    }

    /// What happens to the last stage `stage` on a tick at `now`, where the
    /// stages before it went to `mid` and `settled` says whether they have
    /// all finished. Unsettled, the stage keeps waiting. Settled, it starts
    /// from the value it finds: with a duration to run it yields a frame and
    /// writes nothing yet; with none it writes its last sample at once.
    pub open spec fn enters(
        mid: Chain<V>,
        settled: bool,
        stage: Stage<V>,
        now: u64,
        next: Chain<V>,
        ready: bool,
    ) -> bool {
        if !settled {
            &&& !ready
            &&& next == mid.with_stage(stage)
        } else if stage.duration > 0 {
            &&& !ready
            &&& next == mid.with_stage(stage.started(mid.value, now))
        } else {
            &&& ready
            &&& next.stages == mid.stages.push(stage.finished())
            &&& stage.samples(mid.value, Progress::complete(), next.value)
        }
    }

    /// What happens to the running last stage `stage` of `self` on a tick at
    /// `now`. Before its duration has passed it writes the sample for the
    /// elapsed fraction and yields another frame; from then on it writes the
    /// sample for progress one and is finished.
    pub open spec fn resumes(
        self,
        stage: Stage<V>,
        start_value: V,
        start_t: u64,
        now: u64,
        next: Chain<V>,
        ready: bool,
    ) -> bool {
        if elapsed_since(start_t, now) < stage.duration {
            &&& !ready
            &&& next.stages == self.stages
            &&& stage.samples(
                start_value,
                Progress { numer: elapsed_since(start_t, now), denom: stage.duration },
                next.value,
            )
        } else {
            &&& ready
            &&& next.stages == self.stages.drop_last().push(stage.finished())
            &&& stage.samples(start_value, Progress::complete(), next.value)
        }
    }

    /// One tick at clock reading `now` may take this chain to `next`, and
    /// `ready` tells whether the whole chain has then finished.
    ///
    /// A chain without stages is ready and stays as it is, and so does one
    /// whose last stage has finished. A running last stage resumes. A waiting
    /// last stage lets the stages before it tick and enters after them.
    pub open spec fn ticks_to(self, now: u64, next: Chain<V>, ready: bool) -> bool
        decreases self.stages.len(),
    {
        if self.stages.len() == 0 {
            ready && next == self
        } else {
            let stage = self.stages.last();
            match stage.phase {
                StagePhase::Finished => ready && next == self,
                StagePhase::Running { start_value, start_t } => self.resumes(
                    stage,
                    start_value,
                    start_t,
                    now,
                    next,
                    ready,
                ),
                StagePhase::Waiting => exists|mid: Chain<V>, settled: bool|
                    self.prefix().ticks_to(now, mid, settled) && #[trigger] Self::enters(
                        mid,
                        settled,
                        stage,
                        now,
                        next,
                        ready,
                    ),
            }
        }
    }

    /// One tick at `now` may finish this chain.
    pub open spec fn finishes_at(self, now: u64) -> bool {
        exists|last: Chain<V>| #[trigger] self.ticks_to(now, last, true)
    }
}

/// A chain whose last stage waits ticks the way its prefix does, followed by
/// the entry of that stage.
pub proof fn lemma_waiting_stage_ticks<V>(
    chain: Chain<V>,
    now: u64,
    mid: Chain<V>,
    settled: bool,
    next: Chain<V>,
    ready: bool,
)
    requires
        chain.stages.len() > 0,
        chain.stages.last().phase is Waiting,
        chain.prefix().ticks_to(now, mid, settled),
        Chain::enters(mid, settled, chain.stages.last(), now, next, ready),
    ensures
        chain.ticks_to(now, next, ready),
{
}

/// A tick of a chain whose last stage waits is a tick of the stages before it,
/// followed by the entry of that stage: the result names the chain that the
/// earlier stages went to and whether they have all finished.
pub proof fn lemma_waiting_stage_ticked<V>(chain: Chain<V>, now: u64, next: Chain<V>, ready: bool)
    -> (before: (Chain<V>, bool))
    requires
        chain.stages.len() > 0,
        chain.stages.last().phase is Waiting,
        chain.ticks_to(now, next, ready),
    ensures
        chain.prefix().ticks_to(now, before.0, before.1),
        Chain::enters(before.0, before.1, chain.stages.last(), now, next, ready),
{
    let stage = chain.stages.last();
    choose|mid: Chain<V>, settled: bool|
        chain.prefix().ticks_to(now, mid, settled) && #[trigger] Chain::enters(
            mid,
            settled,
            stage,
            now,
            next,
            ready,
        )
}

/// A tick changes no tween: the chain keeps its stages, each with its target,
/// its duration and its interpolation function.
pub proof fn lemma_tick_keeps_tweens<V>(chain: Chain<V>, now: u64, next: Chain<V>, ready: bool)
    requires
        chain.ticks_to(now, next, ready),
    ensures
        chain.same_tweens(next),
    decreases chain.stages.len(),
{
    if chain.stages.len() > 0 && chain.stages.last().phase is Waiting {
        let (mid, settled) = lemma_waiting_stage_ticked(chain, now, next, ready);
        lemma_tick_keeps_tweens(chain.prefix(), now, mid, settled);
        assert forall|i: int| 0 <= i < chain.stages.len() implies (
        #[trigger] chain.stages[i]).same_tween(next.stages[i]) by {
            if i < chain.stages.len() - 1 {
                assert(chain.prefix().stages[i].same_tween(mid.stages[i]));
            }
        }
    }
}

/// Stages take their turns, tick after tick: a tick of an ordered chain
/// leaves it ordered, and it reports ready exactly when every stage has
/// finished. No stage starts before all the stages before it are done.
pub proof fn lemma_tick_keeps_order<V>(chain: Chain<V>, now: u64, next: Chain<V>, ready: bool)
    requires
        chain.ordered(),
        chain.ticks_to(now, next, ready),
    ensures
        next.ordered(),
        ready <==> next.settled(),
    decreases chain.stages.len(),
{
    if chain.stages.len() > 0 && chain.stages.last().phase is Waiting {
        let (mid, settled) = lemma_waiting_stage_ticked(chain, now, next, ready);
        lemma_tick_keeps_order(chain.prefix(), now, mid, settled);
        lemma_tick_keeps_tweens(chain.prefix(), now, mid, settled);
        if !settled {
            assert(next.stages[chain.stages.len() - 1].phase is Waiting);
        }
    }
}

/// A history of ticks: for every `i`, the tick at `times[i]` takes
/// `chains[i]` to `chains[i + 1]` and reports `readies[i]`.
pub open spec fn is_run<V>(chains: Seq<Chain<V>>, times: Seq<u64>, readies: Seq<bool>) -> bool {
    &&& chains.len() == times.len() + 1
    &&& readies.len() == times.len()
    &&& forall|i: int|
        0 <= i < times.len() ==> chains[i].ticks_to(times[i], chains[i + 1], #[trigger] readies[i])
}

/// `out` is a value that the stages can lead to from `value`: each stage in
/// turn starts from where the stage before it ended and ends on its own
/// sample for progress one.
pub open spec fn settles_to<V>(value: V, stages: Seq<Stage<V>>, out: V) -> bool
    decreases stages.len(),
{
    if stages.len() == 0 {
        out == value
    } else {
        exists|mid: V|
            settles_to(value, stages.drop_last(), mid) && #[trigger] stages.last().samples(
                mid,
                Progress::complete(),
                out,
            )
    }
}

/// Where the stages lead does not depend on how far each of them has come.
pub proof fn lemma_settles_to_same_tweens<V>(value: V, stages: Seq<Stage<V>>, others: Seq<Stage<V>>, out: V)
    requires
        settles_to(value, stages, out),
        (Chain { value, stages }).same_tweens(Chain { value, stages: others }),
    ensures
        settles_to(value, others, out),
    decreases stages.len(),
{
    if stages.len() > 0 {
        let mid = choose|mid: V|
            settles_to(value, stages.drop_last(), mid) && #[trigger] stages.last().samples(
                mid,
                Progress::complete(),
                out,
            );
        lemma_settles_to_same_tweens(value, stages.drop_last(), others.drop_last(), mid);
        assert(others.last().samples(mid, Progress::complete(), out));
    }
}

/// Over a whole run the chain keeps its tweens.
pub proof fn lemma_run_keeps_tweens<V>(
    chains: Seq<Chain<V>>,
    times: Seq<u64>,
    readies: Seq<bool>,
    k: int,
)
    requires
        is_run(chains, times, readies),
        0 <= k < chains.len(),
    ensures
        chains[0].same_tweens(chains[k]),
    decreases k,
{
    if k > 0 {
        lemma_run_keeps_tweens(chains, times, readies, k - 1);
        assert(chains[k - 1].ticks_to(times[k - 1], chains[k], readies[k - 1]));
        lemma_tick_keeps_tweens(chains[k - 1], times[k - 1], chains[k], readies[k - 1]);
    }
}

/// While its last stage is running and the chain is not ready, the stage
/// keeps the start value and the start time that it took when it began.
pub proof fn lemma_running_stage_keeps_its_start<V>(
    chains: Seq<Chain<V>>,
    times: Seq<u64>,
    readies: Seq<bool>,
    k: int,
)
    requires
        is_run(chains, times, readies),
        chains[0].stages.len() > 0,
        chains[0].stages.last().phase is Running,
        0 <= k < chains.len(),
        forall|i: int| 0 <= i < k ==> !#[trigger] readies[i],
    ensures
        chains[k].stages == chains[0].stages,
    decreases k,
{
    if k > 0 {
        lemma_running_stage_keeps_its_start(chains, times, readies, k - 1);
        assert(chains[k - 1].ticks_to(times[k - 1], chains[k], readies[k - 1]));
    }
}

/// A tween ends on its sample for progress one, however many ticks it ran:
/// when a chain whose last stage is running from `start_value` becomes ready,
/// on the first tick or after any number of pending ones, its value is a
/// sample of that stage, from `start_value`, at progress one.
pub proof fn lemma_tween_ends_on_its_last_sample<V>(
    chains: Seq<Chain<V>>,
    times: Seq<u64>,
    readies: Seq<bool>,
    k: int,
    start_value: V,
    start_t: u64,
)
    requires
        is_run(chains, times, readies),
        chains[0].stages.len() > 0,
        chains[0].stages.last().phase == (StagePhase::Running { start_value, start_t }),
        0 <= k < times.len(),
        forall|i: int| 0 <= i < k ==> !#[trigger] readies[i],
        readies[k],
    ensures
        chains[0].stages.last().samples(start_value, Progress::complete(), chains[k + 1].value),
        chains[k + 1].stages.last().phase is Finished,
{
    lemma_running_stage_keeps_its_start(chains, times, readies, k);
    assert(chains[k].ticks_to(times[k], chains[k + 1], readies[k]));
}

/// The chain is on its way from `origin`: the value that its stages started
/// from, or will start from, is one that the finished stages lead to.
spec fn on_course<V>(chain: Chain<V>, origin: V) -> bool
    decreases chain.stages.len(),
{
    if chain.stages.len() == 0 {
        chain.value == origin
    } else {
        match chain.stages.last().phase {
            StagePhase::Waiting => on_course(chain.prefix(), origin),
            StagePhase::Running { start_value, start_t } => {
                &&& chain.prefix().settled()
                &&& settles_to(origin, chain.prefix().stages, start_value)
            },
            StagePhase::Finished => {
                &&& chain.prefix().settled()
                &&& settles_to(origin, chain.stages, chain.value)
            },
        }
    }
}

/// A chain that no stage of which has started is on its way from its value.
proof fn lemma_fresh_is_on_course<V>(chain: Chain<V>)
    requires
        chain.fresh(),
    ensures
        on_course(chain, chain.value),
    decreases chain.stages.len(),
{
    if chain.stages.len() > 0 {
        lemma_fresh_is_on_course(chain.prefix());
    }
}

/// A chain on its way whose last stage has finished has arrived: all its
/// stages have finished and its value is one that they lead to.
proof fn lemma_settled_on_course<V>(chain: Chain<V>, origin: V)
    requires
        on_course(chain, origin),
        chain.stages.len() == 0 || chain.stages.last().phase is Finished,
    ensures
        chain.settled(),
        settles_to(origin, chain.stages, chain.value),
{
    if chain.stages.len() > 0 {
        assert forall|i: int| 0 <= i < chain.stages.len() implies (#[trigger] chain.stages[i]).phase is Finished by {
            if i < chain.stages.len() - 1 {
                assert(chain.prefix().stages[i].phase is Finished);
            }
        }
    }
}

/// A tick that reports ready leaves the last stage finished.
proof fn lemma_ready_ends_finished<V>(chain: Chain<V>, now: u64, next: Chain<V>)
    requires
        chain.ticks_to(now, next, true),
    ensures
        next.stages.len() == 0 || next.stages.last().phase is Finished,
{
    if chain.stages.len() > 0 && chain.stages.last().phase is Waiting {
        lemma_waiting_stage_ticked(chain, now, next, true);
    }
}

/// A tick keeps a chain on its way.
proof fn lemma_tick_stays_on_course<V>(chain: Chain<V>, origin: V, now: u64, next: Chain<V>, ready: bool)
    requires
        on_course(chain, origin),
        chain.ticks_to(now, next, ready),
    ensures
        on_course(next, origin),
    decreases chain.stages.len(),
{
    if chain.stages.len() > 0 {
        let stage = chain.stages.last();
        match stage.phase {
            StagePhase::Finished => {},
            StagePhase::Running { start_value, start_t } => {
                if ready {
                    assert(next.stages.drop_last() =~= chain.stages.drop_last());
                    assert(next.stages.last().samples(start_value, Progress::complete(), next.value));
                }
            },
            StagePhase::Waiting => {
                let (mid, settled) = lemma_waiting_stage_ticked(chain, now, next, ready);
                lemma_tick_stays_on_course(chain.prefix(), origin, now, mid, settled);
                if !settled {
                    lemma_with_stage_prefix(mid, stage);
                } else {
                    lemma_ready_ends_finished(chain.prefix(), now, mid);
                    lemma_settled_on_course(mid, origin);
                    if stage.duration > 0 {
                        lemma_with_stage_prefix(mid, stage.started(mid.value, now));
                    } else {
                        assert(next.prefix().stages == mid.stages);
                        assert(next.stages.last().samples(mid.value, Progress::complete(), next.value));
                    }
                }
            },
        }
    }
}

/// A run keeps a chain on its way.
proof fn lemma_run_stays_on_course<V>(
    chains: Seq<Chain<V>>,
    times: Seq<u64>,
    readies: Seq<bool>,
    origin: V,
    k: int,
)
    requires
        is_run(chains, times, readies),
        on_course(chains[0], origin),
        0 <= k < chains.len(),
    ensures
        on_course(chains[k], origin),
    decreases k,
{
    if k > 0 {
        lemma_run_stays_on_course(chains, times, readies, origin, k - 1);
        assert(chains[k - 1].ticks_to(times[k - 1], chains[k], readies[k - 1]));
        lemma_tick_stays_on_course(chains[k - 1], origin, times[k - 1], chains[k], readies[k - 1]);
    }
}

/// A chain of tweens does what its tweens do one after another: when a chain
/// that no stage of which had started becomes ready, every stage has
/// finished, and the value is one that the stages lead to from the value the
/// chain began with, each stage starting from where the one before it ended.
pub proof fn lemma_fresh_chain_settles<V>(
    chains: Seq<Chain<V>>,
    times: Seq<u64>,
    readies: Seq<bool>,
    k: int,
)
    requires
        is_run(chains, times, readies),
        chains[0].fresh(),
        0 <= k < times.len(),
        readies[k],
    ensures
        chains[k + 1].settled(),
        settles_to(chains[0].value, chains[0].stages, chains[k + 1].value),
{
    let origin = chains[0].value;
    lemma_fresh_is_on_course(chains[0]);
    lemma_run_stays_on_course(chains, times, readies, origin, k + 1);
    assert(chains[k].ticks_to(times[k], chains[k + 1], readies[k]));
    lemma_ready_ends_finished(chains[k], times[k], chains[k + 1]);
    lemma_settled_on_course(chains[k + 1], origin);
    lemma_run_keeps_tweens(chains, times, readies, k + 1);
    lemma_settles_to_same_tweens(origin, chains[k + 1].stages, chains[0].stages, chains[k + 1].value);
}

/// A tween from one value to another ends on its sample for progress one:
/// when the chain `value.anim().tween(stage)`, begun with the stage not
/// started, becomes ready, after however many ticks, its value is a sample of
/// the stage, from `value`, at progress one.
pub proof fn lemma_new_tween_ends_on_its_last_sample<V>(
    chains: Seq<Chain<V>>,
    times: Seq<u64>,
    readies: Seq<bool>,
    k: int,
    value: V,
    stage: Stage<V>,
)
    requires
        is_run(chains, times, readies),
        chains[0] == Chain::bare(value).with_stage(stage),
        stage.phase is Waiting,
        0 <= k < times.len(),
        readies[k],
    ensures
        stage.samples(value, Progress::complete(), chains[k + 1].value),
{
    lemma_fresh_chain_settles(chains, times, readies, k);
    let stages = chains[0].stages;
    let origin = choose|origin: V|
        settles_to(value, stages.drop_last(), origin) && #[trigger] stages.last().samples(
            origin,
            Progress::complete(),
            chains[k + 1].value,
        );
    assert(origin == value);
}

/// Two tweens in a row are the first and then the second: when the chain
/// `value.anim().tween(first).tween(second)`, begun with neither stage
/// started, becomes ready, the second tween has started from a value on which
/// the first one ended, and the value is one on which the second one ends.
pub proof fn lemma_two_tweens_run_one_after_the_other<V>(
    chains: Seq<Chain<V>>,
    times: Seq<u64>,
    readies: Seq<bool>,
    k: int,
    value: V,
    first: Stage<V>,
    second: Stage<V>,
)
    requires
        is_run(chains, times, readies),
        chains[0] == Chain::bare(value).with_stage(first).with_stage(second),
        first.phase is Waiting,
        second.phase is Waiting,
        0 <= k < times.len(),
        readies[k],
    ensures
        exists|mid: V|
            first.samples(value, Progress::complete(), mid) && #[trigger] second.samples(
                mid,
                Progress::complete(),
                chains[k + 1].value,
            ),
{
    lemma_fresh_chain_settles(chains, times, readies, k);
    // The chain settles through its two stages: name the value between them
    // and the value before the first.
    let stages = chains[0].stages;
    let out = chains[k + 1].value;
    let mid = choose|mid: V|
        settles_to(value, stages.drop_last(), mid) && #[trigger] stages.last().samples(
            mid,
            Progress::complete(),
            out,
        );
    let head = stages.drop_last();
    let origin = choose|origin: V|
        settles_to(value, head.drop_last(), origin) && #[trigger] head.last().samples(
            origin,
            Progress::complete(),
            mid,
        );
    assert(origin == value);
    assert(first.samples(value, Progress::complete(), mid));
    assert(second.samples(mid, Progress::complete(), out));
}

/// A tween without a duration takes no tick of its own: started on a bare
/// value, it is ready on its first tick, whatever the clock says, and the
/// value is then its sample for progress one.
pub proof fn lemma_tween_without_duration_ends_at_once<V>(
    value: V,
    stage: Stage<V>,
    now: u64,
    next: Chain<V>,
    ready: bool,
)
    requires
        stage.phase is Waiting,
        stage.duration == 0,
        Chain::bare(value).with_stage(stage).ticks_to(now, next, ready),
    ensures
        ready,
        next.settled(),
        stage.samples(value, Progress::complete(), next.value),
{
    lemma_waiting_stage_ticked(Chain::bare(value).with_stage(stage), now, next, ready);
}

/// Adding a tween to a chain whose stages take their turns gives such a
/// chain again, and a bare value is one.
pub proof fn lemma_with_stage_keeps_order<V>(chain: Chain<V>, stage: Stage<V>)
    requires
        chain.ordered(),
        stage.phase is Waiting,
    ensures
        chain.with_stage(stage).ordered(),
        Chain::bare(chain.value).ordered(),
        chain.fresh() ==> chain.with_stage(stage).fresh(),
{
}

/// Dropping the stage that `with_stage` added gives the chain back.
pub proof fn lemma_with_stage_prefix<V>(chain: Chain<V>, stage: Stage<V>)
    ensures
        chain.with_stage(stage).prefix() == chain,
        chain.with_stage(stage).stages.last() == stage,
        chain.with_stage(stage).stages.len() == chain.stages.len() + 1,
{
    assert(chain.stages.push(stage).drop_last() =~= chain.stages);
}

} // verus!
