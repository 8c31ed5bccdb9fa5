use samply_core::thread_sampling::{IgnoredErrors, SampleAttempt, ThreadSampling, IGNORED_ERROR_LIMIT};

#[test]
fn ignorable_errors_count_as_samples_until_the_tenth() {
    let mut errors: IgnoredErrors<&str> = IgnoredErrors::new();
    for _ in 0..9 {
        assert_eq!(errors.verdict(SampleAttempt::Ignorable("busy")), Ok(true));
    }
    assert_eq!(errors.verdict(SampleAttempt::Ignorable("busy")), Ok(false));
    assert_eq!(errors.errors.len(), IGNORED_ERROR_LIMIT);
}

#[test]
fn sample_attempts_give_their_verdicts() {
    let mut errors: IgnoredErrors<&str> = IgnoredErrors::new();
    assert_eq!(errors.verdict(SampleAttempt::Done), Ok(true));
    assert_eq!(errors.verdict(SampleAttempt::Terminated), Ok(false));
    assert_eq!(errors.verdict(SampleAttempt::Failed("gone")), Err("gone"));
    assert!(errors.errors.is_empty());
}

#[test]
fn thread_name_is_looked_up_every_tenth_tick_until_found() {
    let mut t = ThreadSampling::new();
    let mut lookups = Vec::new();
    for tick in 1..=21 {
        if t.start_tick() {
            lookups.push(tick);
        }
    }
    assert_eq!(lookups, vec![1, 11, 21]);
    t.name_looked_up(true);
    assert!(!t.start_tick());
}

#[test]
fn stack_is_walked_unless_the_thread_was_idle_since_a_sample() {
    let mut t = ThreadSampling::new();
    assert!(t.walks_stack(true));
    assert!(t.walks_stack(false));
    t.sampled(Some(4));
    assert!(!t.walks_stack(true));
    assert!(t.walks_stack(false));
    assert_eq!(t.previous_stack, Some(Some(4)));
}
