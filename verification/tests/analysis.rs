use rate_monotonic::analysis::is_schedulable;
use rate_monotonic::task::Task;

#[test]
fn empty_set_is_trivially_schedulable() {
    let mut tasks: Vec<Task> = Vec::new();
    assert!(is_schedulable(&mut tasks));
    assert!(tasks.is_empty());
}

#[test]
fn single_task_filling_its_period() {
    let mut tasks = vec![Task::new(10, 10)];
    assert!(is_schedulable(&mut tasks));
    assert_eq!(tasks[0].response_time, 10);
}

#[test]
fn execution_longer_than_period_fails_immediately() {
    let mut tasks = vec![Task::new(10, 11)];
    assert!(!is_schedulable(&mut tasks));
}

#[test]
fn oversized_task_sinks_a_larger_set() {
    let mut tasks = vec![Task::new(100, 5), Task::new(10, 11), Task::new(50, 5)];
    assert!(!is_schedulable(&mut tasks));
}

#[test]
fn single_task_schedulable_iff_utilization_at_most_one() {
    // For one task the exact analysis coincides with the utilization test:
    // e / p <= 1 exactly when e <= p.
    for e in 0..=20u32 {
        let mut tasks = vec![Task::new(10, e)];
        assert_eq!(is_schedulable(&mut tasks), e <= 10);
    }
}

#[test]
fn canonical_four_task_set_is_schedulable_by_exact_analysis() {
    // Utilization here exceeds the n = 4 utilization bound, yet the exact
    // response-time analysis shows the set schedulable.
    let mut tasks = vec![
        Task::new(40, 20),
        Task::new(100, 25),
        Task::new(150, 10),
        Task::new(500, 10),
    ];
    assert!(is_schedulable(&mut tasks));
    assert_eq!(tasks[0].response_time, 20);
    assert_eq!(tasks[1].response_time, 65);
    assert_eq!(tasks[2].response_time, 75);
    assert_eq!(tasks[3].response_time, 150);
}

#[test]
fn two_task_set_converges_within_the_period() {
    let mut tasks = vec![Task::new(10, 6), Task::new(20, 6)];
    assert!(is_schedulable(&mut tasks));
    assert_eq!(tasks[0].response_time, 6);
    assert_eq!(tasks[1].response_time, 18);
}

#[test]
fn overload_with_equal_periods_is_not_schedulable() {
    let mut tasks = vec![Task::new(10, 8), Task::new(10, 8)];
    assert!(!is_schedulable(&mut tasks));
}

#[test]
fn equal_periods_tie_break_keeps_input_order() {
    let mut tasks = vec![Task::new(10, 3), Task::new(10, 2)];
    assert!(is_schedulable(&mut tasks));
    assert_eq!(tasks[0].execution_time, 3);
    assert_eq!(tasks[1].execution_time, 2);
    assert_eq!(tasks[0].response_time, 3);
    assert_eq!(tasks[1].response_time, 5);
}

#[test]
fn reanalysis_is_idempotent() {
    let mut tasks = vec![
        Task::new(100, 25),
        Task::new(40, 20),
        Task::new(500, 10),
        Task::new(150, 10),
    ];
    assert!(is_schedulable(&mut tasks));
    let first = tasks.clone();
    assert!(is_schedulable(&mut tasks));
    assert_eq!(tasks, first);
}

#[test]
fn input_order_does_not_change_the_analysis() {
    let mut ascending = vec![
        Task::new(40, 20),
        Task::new(100, 25),
        Task::new(150, 10),
        Task::new(500, 10),
    ];
    let mut descending = vec![
        Task::new(500, 10),
        Task::new(150, 10),
        Task::new(100, 25),
        Task::new(40, 20),
    ];
    assert!(is_schedulable(&mut ascending));
    assert!(is_schedulable(&mut descending));
    assert_eq!(ascending, descending);
}
