use rate_monotonic::priority::assign_priority_order;
use rate_monotonic::task::Task;

#[test]
fn new_task_starts_with_unset_response_time() {
    let t = Task::new(40, 20);
    assert_eq!(t.period, 40);
    assert_eq!(t.execution_time, 20);
    assert_eq!(t.response_time, 0);
}

#[test]
fn ordering_is_by_ascending_period() {
    let mut tasks = vec![
        Task::new(500, 10),
        Task::new(40, 20),
        Task::new(150, 10),
        Task::new(100, 25),
    ];
    assign_priority_order(&mut tasks);
    let periods: Vec<u32> = tasks.iter().map(|t| t.period).collect();
    assert_eq!(periods, vec![40, 100, 150, 500]);
}

#[test]
fn ordering_keeps_every_task() {
    let mut tasks = vec![Task::new(20, 1), Task::new(10, 2), Task::new(20, 3)];
    assign_priority_order(&mut tasks);
    assert_eq!(tasks.len(), 3);
    assert!(tasks.contains(&Task::new(20, 1)));
    assert!(tasks.contains(&Task::new(10, 2)));
    assert!(tasks.contains(&Task::new(20, 3)));
}

#[test]
fn ordering_is_stable_for_equal_periods() {
    let mut tasks = vec![
        Task::new(20, 1),
        Task::new(10, 9),
        Task::new(20, 2),
        Task::new(20, 3),
    ];
    assign_priority_order(&mut tasks);
    let execution_times: Vec<u32> = tasks.iter().map(|t| t.execution_time).collect();
    assert_eq!(execution_times, vec![9, 1, 2, 3]);
}

#[test]
fn ordering_an_ordered_set_changes_nothing() {
    let mut tasks = vec![Task::new(10, 1), Task::new(20, 2), Task::new(20, 3)];
    assign_priority_order(&mut tasks);
    let once = tasks.clone();
    assign_priority_order(&mut tasks);
    assert_eq!(tasks, once);
}
