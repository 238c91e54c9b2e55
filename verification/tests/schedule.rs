use force_layout::schedule::{Outcome, Schedule, DEFAULT_ITERATION_CAP};

#[test]
fn a_fresh_run_has_done_nothing() {
    let s = Schedule::new(400);
    assert_eq!(s.iteration_cap(), 400);
    assert_eq!(s.tick_count(), 0);
    assert!(!s.is_settled());
    assert_eq!(s.settled_at(), None);
    assert!(s.should_tick());
    assert_eq!(s.outcome(), None);
}

#[test]
fn settles_on_the_first_tick_when_started_below_the_minimum() {
    let cap = 400;
    let minimum: f32 = 0.05;
    let mut temperature: f32 = 0.01;
    let mut s = Schedule::new(cap);
    let mut i = 0;
    while i < cap {
        assert!(s.should_tick());
        temperature *= 0.95;
        assert!(s.record(temperature < minimum));
        assert!(s.is_settled());
        assert_eq!(s.settled_at(), Some(0));
        assert_eq!(s.tick_count(), i + 1);
        i += 1;
    }
    assert_eq!(s.tick_count(), cap);
    assert!(!s.should_tick());
    assert_eq!(s.outcome(), Some(Outcome::Cooled { tick: 0 }));
    assert!(!s.record(true));
    assert_eq!(s.tick_count(), cap);
    assert_eq!(s.settled_at(), Some(0));
}

#[test]
fn settles_at_the_first_tick_whose_temperature_is_below_the_minimum() {
    let minimum: f32 = 0.05;
    let mut temperature: f32 = 250.0;
    let mut s = Schedule::new(400);
    let mut announced = Vec::new();
    while s.should_tick() {
        temperature *= 0.95;
        s.record(temperature < minimum);
        if let Some(outcome) = s.announce() {
            announced.push((s.tick_count(), outcome));
        }
    }
    assert_eq!(s.settled_at(), Some(166));
    assert_eq!(s.tick_count(), 400);
    assert_eq!(announced, vec![(167, Outcome::Cooled { tick: 166 })]);
    assert_eq!(s.outcome(), Some(Outcome::Cooled { tick: 166 }));
}

#[test]
fn the_default_run_has_the_default_cap() {
    assert_eq!(DEFAULT_ITERATION_CAP, 400);
    let s = Schedule::default();
    assert_eq!(s.iteration_cap(), 400);
    assert_eq!(s.tick_count(), 0);
    assert!(!s.is_settled());
    assert_eq!(s.outcome(), None);
}

#[test]
fn a_copy_of_a_schedule_goes_its_own_way() {
    let mut s = Schedule::new(4);
    s.record(false);
    let mut t = s.clone();
    t.record(true);
    assert_eq!(s.tick_count(), 1);
    assert!(!s.is_settled());
    assert_eq!(t.tick_count(), 2);
    assert_eq!(t.settled_at(), Some(1));
}

#[test]
fn settling_never_reverts() {
    let mut s = Schedule::new(10);
    s.record(false);
    s.record(false);
    s.record(true);
    assert_eq!(s.settled_at(), Some(2));
    s.record(false);
    assert_eq!(s.settled_at(), Some(2));
    s.record(true);
    assert_eq!(s.settled_at(), Some(2));
    while s.record(false) {}
    assert!(s.is_settled());
    assert_eq!(s.settled_at(), Some(2));
    assert_eq!(s.tick_count(), 10);
}

#[test]
fn runs_out_of_ticks_when_it_never_cools() {
    let mut s = Schedule::new(5);
    let mut i = 0;
    while i < 5 {
        assert_eq!(s.outcome(), None);
        assert_eq!(s.announce(), None);
        assert!(s.record(false));
        i += 1;
    }
    assert!(!s.should_tick());
    assert!(!s.is_settled());
    assert_eq!(s.outcome(), Some(Outcome::Exhausted { ticks: 5 }));
    assert!(!s.record(true));
    assert!(!s.is_settled());
    assert_eq!(s.tick_count(), 5);
    assert_eq!(s.outcome(), Some(Outcome::Exhausted { ticks: 5 }));
}

#[test]
fn cooling_on_the_last_tick_counts_as_cooled() {
    let mut s = Schedule::new(3);
    s.record(false);
    s.record(false);
    s.record(true);
    assert!(!s.should_tick());
    assert_eq!(s.outcome(), Some(Outcome::Cooled { tick: 2 }));
    assert_eq!(s.announce(), Some(Outcome::Cooled { tick: 2 }));
}

#[test]
fn the_end_is_announced_once() {
    let mut s = Schedule::new(2);
    assert_eq!(s.announce(), None);
    s.record(false);
    assert_eq!(s.announce(), None);
    s.record(false);
    assert_eq!(s.announce(), Some(Outcome::Exhausted { ticks: 2 }));
    assert_eq!(s.announce(), None);
    assert_eq!(s.announce(), None);
    assert_eq!(s.outcome(), Some(Outcome::Exhausted { ticks: 2 }));

    let mut s = Schedule::new(8);
    s.record(true);
    assert_eq!(s.announce(), Some(Outcome::Cooled { tick: 0 }));
    while s.record(false) {
        assert_eq!(s.announce(), None);
    }
    assert_eq!(s.announce(), None);
    assert_eq!(s.tick_count(), 8);
}

#[test]
fn a_cap_of_zero_is_spent_at_once() {
    let mut s = Schedule::new(0);
    assert!(!s.should_tick());
    assert_eq!(s.outcome(), Some(Outcome::Exhausted { ticks: 0 }));
    assert!(!s.record(true));
    assert_eq!(s.tick_count(), 0);
    assert!(!s.is_settled());
    assert_eq!(s.announce(), Some(Outcome::Exhausted { ticks: 0 }));
    assert_eq!(s.announce(), None);
}
