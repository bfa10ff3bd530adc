use frame_anim::animation::{Animation, AnimationWrapper, IntoAnim, TweenAnimatable};
use frame_anim::future::AnimationExecutor;
use frame_anim::suspension::Poll;
use frame_anim::time::Progress;

const MS: u64 = 1_000_000;

fn lerp(a: f32, b: f32, progress: Progress) -> f32 {
    let t = progress.numer as f32 / progress.denom as f32;
    a * (1.0 - t) + b * t
}

#[test]
fn one_second_tween_in_16ms_steps() {
    let mut v = 1.0f32;
    let mut pending = 0;
    {
        let chain = v.anim().tween(2.0, lerp, 1000 * MS);
        let mut executor = AnimationExecutor::new(AnimationWrapper::from(chain));
        let mut now = 0u64;
        while executor.frame(now) {
            pending += 1;
            now += 16 * MS;
        }
        assert!(executor.is_finished());
    }
    // Pending at 0, 16, ..., 992 ms; ready at 1008 ms.
    assert_eq!(pending, 63);
    assert_eq!(v, 2.0);
}

#[test]
fn one_second_tween_passes_through_the_values_between() {
    let mut v = 1.0f32;
    let mut tween = v.anim().tween(2.0, lerp, 1000 * MS);
    assert_eq!(tween.run(0), Poll::Pending);
    assert_eq!(*tween.get_item(), 1.0);
    assert_eq!(tween.run(250 * MS), Poll::Pending);
    assert_eq!(*tween.get_item(), 1.25);
    assert_eq!(tween.run(500 * MS), Poll::Pending);
    assert_eq!(*tween.get_item(), 1.5);
    assert_eq!(tween.run(1000 * MS), Poll::Ready(()));
    assert_eq!(*tween.get_item(), 2.0);
}

#[test]
fn zero_duration_tween_completes_at_once() {
    let mut v = 1.0f32;
    {
        let mut chain = v.anim().tween(2.0, lerp, 0);
        assert_eq!(chain.run(5), Poll::Ready(()));
        assert_eq!(*chain.get_item(), 2.0);
    }
    assert_eq!(v, 2.0);
}

#[test]
fn zero_duration_tween_needs_one_frame_of_the_executor() {
    let mut v = 1.0f32;
    {
        let chain = v.anim().tween(2.0, lerp, 0);
        let mut executor = AnimationExecutor::new(AnimationWrapper::from(chain));
        assert!(!executor.frame(0));
    }
    assert_eq!(v, 2.0);
}

#[test]
fn two_tweens_of_a_second_each() {
    let mut v = 1.0f32;
    let mut pending = 0;
    {
        let chain = v.anim().tween(2.0, lerp, 1000 * MS).tween(3.0, lerp, 1000 * MS);
        let mut executor = AnimationExecutor::new(AnimationWrapper::from(chain));
        let mut now = 0u64;
        while executor.frame(now) {
            pending += 1;
            now += 16 * MS;
        }
    }
    // The first ends at 1008 ms, where the second starts; the second is
    // pending until 2000 ms and ends at 2016 ms.
    assert_eq!(pending, 126);
    assert_eq!(v, 3.0);
}
