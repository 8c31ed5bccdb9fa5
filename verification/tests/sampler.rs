use samply_core::sampler::Sampler;

#[test]
fn tasks_move_from_live_to_dead_in_order() {
    let mut s = Sampler::new(1_000_000, None);
    s.start();
    assert!(s.root_is_alive());
    assert_eq!(s.add_task(), 1);
    assert_eq!(s.add_task(), 2);
    assert_eq!(s.add_task(), 3);
    assert_eq!(s.other_tasks_to_sample(), vec![1, 2, 3]);
    s.other_tasks_sampled(&[true, false, true]);
    assert_eq!(s.other_tasks_to_sample(), vec![1, 3]);
    assert!(!s.all_tasks_dead());
    s.root_sampled(false);
    assert!(!s.root_is_alive());
    s.other_tasks_sampled(&[false, false]);
    assert!(s.all_tasks_dead());
    assert_eq!(s.add_task(), 4);
    assert!(!s.all_tasks_dead());
    // living first, in arrival order; then the dead, in the order they died
    assert_eq!(s.into_other_tasks(), vec![4, 2, 1, 3]);
}

#[test]
fn time_limit_ends_the_run() {
    let s = Sampler::new(1_000_000, Some(5_000_000_000));
    assert!(!s.time_is_up(4_999_999_999));
    assert!(s.time_is_up(5_000_000_000));
    let unlimited = Sampler::new(1_000_000, None);
    assert!(!unlimited.time_is_up(u128::MAX));
}

#[test]
fn sleep_makes_up_for_the_last_overshoot() {
    let mut s = Sampler::new(1_000_000, None);
    // sample at 10ms, now 10.2ms: wait 0.8ms
    assert_eq!(s.sleep_time(10_000_000, 10_200_000), 800_000);
    // that sleep lasted 0.85ms: 50us too long
    s.record_sleep(800_000, 850_000);
    assert_eq!(s.sleep_time(11_000_000, 11_100_000), 850_000);
    // a sleep that was shorter than asked leaves no overshoot
    s.record_sleep(850_000, 840_000);
    assert_eq!(s.sleep_time(12_000_000, 12_100_000), 900_000);
    // past the intended wakeup: no sleep
    assert_eq!(s.sleep_time(13_000_000, 14_500_000), 0);
    s.record_sleep(0, 2_000_000);
    assert_eq!(s.sleep_time(15_000_000, 15_500_000), 0);
}
