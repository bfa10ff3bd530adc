use std::cell::RefCell;

use frame_anim::animation::{Animation, AnimationWrapper, IntoAnim, TweenAnimatable};
use frame_anim::suspension::{Poll, Suspension};
use frame_anim::time::Progress;

/// Keeps the start value visible in every sample: the target at the end, and
/// before it a number made of the start value and the elapsed ticks.
fn trace(start: i64, end: i64, progress: Progress) -> i64 {
    if progress == Progress::complete() {
        end
    } else {
        start * 1000 + progress.numer as i64
    }
}

/// Integer linear interpolation.
fn lerp(start: i64, end: i64, progress: Progress) -> i64 {
    start + (end - start) * progress.numer as i64 / progress.denom as i64
}

#[test]
fn bare_value_is_ready_at_once_and_unchanged() {
    let mut v = 7i64;
    {
        let mut bare = v.anim();
        assert_eq!(bare.run(0), Poll::Ready(()));
        assert_eq!(*bare.get_item(), 7);
        assert_eq!(bare.run(99), Poll::Ready(()));
        assert_eq!(*bare.get_item(), 7);
    }
    assert_eq!(v, 7);
}

#[test]
fn set_item_writes_to_the_borrowed_value() {
    let mut v = 7i64;
    {
        let mut bare = v.anim();
        bare.set_item(9);
        assert_eq!(*bare.get_item(), 9);
    }
    assert_eq!(v, 9);
    {
        let mut tween = v.anim().tween(20, lerp, 10);
        tween.set_item(11);
        assert_eq!(*tween.get_item(), 11);
    }
    assert_eq!(v, 11);
}

#[test]
fn building_a_tween_writes_nothing() {
    let mut v = 7i64;
    {
        let tween = v.anim().tween(20, lerp, 10).tween(30, lerp, 10);
        assert_eq!(*tween.get_item(), 7);
    }
    assert_eq!(v, 7);
}

#[test]
fn tween_yields_a_frame_before_its_first_sample() {
    let mut v = 5i64;
    let mut tween = v.anim().tween(20, trace, 10);
    assert_eq!(tween.run(100), Poll::Pending);
    assert_eq!(*tween.get_item(), 5);
}

#[test]
fn tween_samples_elapsed_time_over_duration() {
    let seen = RefCell::new(Vec::new());
    let record = |start: i64, end: i64, progress: Progress| {
        seen.borrow_mut().push((start, end, progress));
        lerp(start, end, progress)
    };
    let mut v = 0i64;
    {
        let mut tween = v.anim().tween(100, record, 10);
        assert_eq!(tween.run(50), Poll::Pending);
        assert_eq!(tween.run(53), Poll::Pending);
        assert_eq!(*tween.get_item(), 30);
        assert_eq!(tween.run(59), Poll::Pending);
        assert_eq!(*tween.get_item(), 90);
        assert_eq!(tween.run(60), Poll::Ready(()));
        assert_eq!(*tween.get_item(), 100);
    }
    assert_eq!(v, 100);
    assert_eq!(
        *seen.borrow(),
        vec![
            (0, 100, Progress { numer: 3, denom: 10 }),
            (0, 100, Progress { numer: 9, denom: 10 }),
            (0, 100, Progress { numer: 1, denom: 1 }),
        ]
    );
}

#[test]
fn tween_ends_on_the_sample_for_progress_one_however_many_ticks() {
    for ticks in [0u64, 1, 2, 7, 50] {
        let mut v = 3i64;
        {
            let mut tween = v.anim().tween(20, trace, 1000);
            let mut now = 0;
            assert_eq!(tween.run(now), Poll::Pending);
            for _ in 0..ticks {
                now += 1;
                assert_eq!(tween.run(now), Poll::Pending);
                assert_eq!(*tween.get_item(), 3000 + now as i64);
            }
            assert_eq!(tween.run(1000), Poll::Ready(()));
        }
        assert_eq!(v, 20);
    }
}

#[test]
fn tween_that_overshoots_its_duration_takes_only_the_last_sample() {
    let seen = RefCell::new(Vec::new());
    let record = |start: i64, end: i64, progress: Progress| {
        seen.borrow_mut().push(progress);
        trace(start, end, progress)
    };
    let mut v = 3i64;
    {
        let mut tween = v.anim().tween(20, record, 10);
        assert_eq!(tween.run(0), Poll::Pending);
        assert_eq!(tween.run(25), Poll::Ready(()));
    }
    assert_eq!(v, 20);
    assert_eq!(*seen.borrow(), vec![Progress { numer: 1, denom: 1 }]);
}

#[test]
fn tween_starts_from_the_value_it_finds() {
    let mut v = 3i64;
    let mut tween = v.anim().tween(20, trace, 10);
    tween.set_item(4);
    assert_eq!(tween.run(0), Poll::Pending);
    tween.set_item(99);
    assert_eq!(tween.run(2), Poll::Pending);
    assert_eq!(*tween.get_item(), 4002);
}

#[test]
fn tween_counts_no_time_when_the_clock_goes_back() {
    let mut v = 3i64;
    let mut tween = v.anim().tween(20, trace, 10);
    assert_eq!(tween.run(100), Poll::Pending);
    assert_eq!(tween.run(40), Poll::Pending);
    assert_eq!(*tween.get_item(), 3000);
    assert_eq!(tween.run(110), Poll::Ready(()));
    assert_eq!(*tween.get_item(), 20);
}

#[test]
fn finished_tween_stays_ready_and_writes_no_more() {
    let mut v = 3i64;
    let mut tween = v.anim().tween(20, trace, 10);
    assert_eq!(tween.run(0), Poll::Pending);
    assert_eq!(tween.run(10), Poll::Ready(()));
    assert_eq!(*tween.get_item(), 20);
    tween.set_item(77);
    assert_eq!(tween.run(11), Poll::Ready(()));
    assert_eq!(tween.run(0), Poll::Ready(()));
    assert_eq!(*tween.get_item(), 77);
}

#[test]
fn zero_duration_tween_calls_the_interpolation_once() {
    let seen = RefCell::new(Vec::new());
    let record = |start: i64, end: i64, progress: Progress| {
        seen.borrow_mut().push((start, end, progress));
        end
    };
    let mut v = 1i64;
    {
        let mut tween = v.anim().tween(2, record, 0);
        assert_eq!(tween.run(12345), Poll::Ready(()));
    }
    assert_eq!(v, 2);
    assert_eq!(*seen.borrow(), vec![(1, 2, Progress { numer: 1, denom: 1 })]);
}

#[test]
fn second_tween_waits_for_the_first_and_starts_from_its_end() {
    let mut v = 1i64;
    {
        let mut chain = v.anim().tween(2, trace, 10).tween(3, trace, 10);
        assert_eq!(chain.run(0), Poll::Pending);
        assert_eq!(*chain.get_item(), 1);
        assert_eq!(chain.run(4), Poll::Pending);
        assert_eq!(*chain.get_item(), 1004);
        // The first tween ends here, and the second starts on the same tick.
        assert_eq!(chain.run(10), Poll::Pending);
        assert_eq!(*chain.get_item(), 2);
        assert_eq!(chain.run(13), Poll::Pending);
        assert_eq!(*chain.get_item(), 2003);
        assert_eq!(chain.run(19), Poll::Pending);
        assert_eq!(*chain.get_item(), 2009);
        assert_eq!(chain.run(20), Poll::Ready(()));
        assert_eq!(*chain.get_item(), 3);
    }
    assert_eq!(v, 3);
}

#[test]
fn second_tween_measures_its_time_from_its_own_start() {
    let mut v = 1i64;
    let mut chain = v.anim().tween(2, trace, 10).tween(3, trace, 10);
    assert_eq!(chain.run(0), Poll::Pending);
    // The first tween is late: the second starts at 50, not at 10.
    assert_eq!(chain.run(50), Poll::Pending);
    assert_eq!(*chain.get_item(), 2);
    assert_eq!(chain.run(59), Poll::Pending);
    assert_eq!(*chain.get_item(), 2009);
    assert_eq!(chain.run(60), Poll::Ready(()));
    assert_eq!(*chain.get_item(), 3);
}

#[test]
fn tweens_without_duration_all_finish_on_one_tick() {
    let seen = RefCell::new(Vec::new());
    let record = |start: i64, end: i64, progress: Progress| {
        seen.borrow_mut().push((start, end, progress.numer, progress.denom));
        start + end
    };
    let mut v = 1i64;
    {
        let mut chain = v.anim().tween(10, &record, 0).tween(100, &record, 0).tween(1000, &record, 0);
        assert_eq!(chain.run(0), Poll::Ready(()));
    }
    assert_eq!(v, 1111);
    assert_eq!(*seen.borrow(), vec![(1, 10, 1, 1), (11, 100, 1, 1), (111, 1000, 1, 1)]);
}

#[test]
fn zero_duration_tween_after_a_long_one_ends_with_it() {
    let mut v = 1i64;
    {
        let mut chain = v.anim().tween(2, trace, 10).tween(3, trace, 0);
        assert_eq!(chain.run(0), Poll::Pending);
        assert_eq!(chain.run(5), Poll::Pending);
        assert_eq!(*chain.get_item(), 1005);
        assert_eq!(chain.run(10), Poll::Ready(()));
    }
    assert_eq!(v, 3);
}

#[test]
fn chain_ends_where_its_tweens_lead_one_after_another() {
    let add = |start: i64, end: i64, _progress: Progress| start * 2 + end;
    let mut v = 1i64;
    {
        let mut chain = v.anim().tween(10, add, 3).tween(100, add, 0).tween(1000, add, 5);
        let mut now = 0;
        while chain.run(now) == Poll::Pending {
            now += 2;
        }
    }
    // ((1 * 2 + 10) * 2 + 100) * 2 + 1000
    assert_eq!(v, 1248);
}

#[test]
fn wrapper_is_pending_while_the_animation_runs() {
    let mut v = 0i64;
    {
        let mut wrapped = AnimationWrapper::from(v.anim().tween(100, lerp, 10));
        assert_eq!(wrapped.poll(0), Poll::Pending);
        assert_eq!(wrapped.poll(5), Poll::Pending);
        assert_eq!(wrapped.poll(10), Poll::Ready(()));
    }
    assert_eq!(v, 100);
}

#[test]
fn wrapper_that_has_finished_stays_ready_and_writes_no_more() {
    let seen = RefCell::new(0u32);
    let count = |_start: i64, end: i64, _progress: Progress| {
        *seen.borrow_mut() += 1;
        end
    };
    let mut v = 0i64;
    {
        let mut wrapped = AnimationWrapper::from(v.anim().tween(100, count, 0));
        assert_eq!(wrapped.poll(0), Poll::Ready(()));
        assert_eq!(wrapped.poll(1), Poll::Ready(()));
        assert_eq!(wrapped.poll(0), Poll::Ready(()));
    }
    assert_eq!(v, 100);
    assert_eq!(*seen.borrow(), 1);
}

#[test]
fn wrapper_of_a_bare_value_is_ready_at_once() {
    let mut v = 4i64;
    let mut wrapped = AnimationWrapper::from(v.anim());
    assert_eq!(wrapped.poll(0), Poll::Ready(()));
}
