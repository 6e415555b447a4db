use rate_monotonic::rta::compute_response_time;
use rate_monotonic::task::Task;

#[test]
fn no_interference_gives_the_execution_time_itself() {
    assert_eq!(compute_response_time(5, 10, &[]), Some(5));
    assert_eq!(compute_response_time(0, 7, &[]), Some(0));
}

#[test]
fn response_time_accounts_for_higher_priority_interference() {
    // w = 6; 6 + ceil(6/10)*6 = 12; 6 + ceil(12/10)*6 = 18; 6 + ceil(18/10)*6 = 18.
    let hp = [Task::new(10, 6)];
    assert_eq!(compute_response_time(6, 20, &hp), Some(18));
}

#[test]
fn exceeding_the_period_is_reported_as_unschedulable() {
    // 8 + ceil(8/10)*8 = 16 > 10.
    let hp = [Task::new(10, 8)];
    assert_eq!(compute_response_time(8, 10, &hp), None);
}

#[test]
fn execution_time_beyond_period_fails_on_the_first_step() {
    assert_eq!(compute_response_time(11, 10, &[]), None);
}

#[test]
fn response_time_is_at_least_the_execution_time() {
    let hp = [Task::new(40, 20), Task::new(100, 25)];
    for e in 0..=10u32 {
        match compute_response_time(e, 500, &hp) {
            Some(w) => assert!(w >= e),
            None => panic!("this set leaves room for ten units within 500"),
        }
    }
}
