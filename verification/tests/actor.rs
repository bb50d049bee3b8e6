use git_forum::internal::actor::current_actor_from;
use git_forum::internal::clock::{Clock, FixedClock, Span, StepClock, SystemClock};
use git_forum::internal::evidence::Timestamp;

#[test]
fn actor_resolution_order() {
    assert_eq!(current_actor_from(Some("ai/bot".into()), Some("Alice".into())), "ai/bot");
    assert_eq!(current_actor_from(Some(String::new()), Some("Alice Smith".into())), "human/alice-smith");
    assert_eq!(current_actor_from(None, Some(String::new())), "human/user");
    assert_eq!(current_actor_from(None, None), "human/user");
}

#[test]
fn fixed_clock_returns_same_instant() {
    let clock = FixedClock { instant: Timestamp { secs: 1767225600, nanos: 0 } };
    assert_eq!(clock.now(), clock.now());
}

#[test]
fn system_clock_is_after_2020() {
    assert!(SystemClock.now().unwrap().secs > 1577836800);
}

#[test]
fn step_clock_advances() {
    let clock = StepClock::new(Timestamp { secs: 1767225600, nanos: 0 }, Span { secs: 10, nanos: 0 });
    let t0 = clock.now().unwrap();
    let t1 = clock.now().unwrap();
    let t2 = clock.now().unwrap();
    assert_eq!(t1.secs - t0.secs, 10);
    assert_eq!(t2.secs - t1.secs, 10);
}

#[test]
fn step_clock_carries_nanoseconds_and_goes_back() {
    let clock = StepClock::new(Timestamp { secs: 100, nanos: 600_000_000 }, Span { secs: -1, nanos: 500_000_000 });
    assert_eq!(clock.now(), Some(Timestamp { secs: 100, nanos: 600_000_000 }));
    assert_eq!(clock.now(), Some(Timestamp { secs: 100, nanos: 100_000_000 }));
    assert_eq!(clock.now(), Some(Timestamp { secs: 99, nanos: 600_000_000 }));
}
