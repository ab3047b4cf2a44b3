use planner::app_state::AppState;
use planner::tasks::TaskController;

#[test]
fn test_task_creation_and_id_assignment() {
    let mut tc = TaskController::new();
    tc.add_task(1, "Task A", None);
    tc.add_task(2, "Task B", Some("2026-06-01"));

    assert_eq!(tc.tasks.len(), 2);
    assert_eq!(tc.tasks[0].id, 1);
    assert_eq!(tc.tasks[1].id, 2);
    assert_eq!(tc.tasks[1].deadline, Some("2026-06-01".to_string()));
    assert_eq!(tc.next_id, 3);
    assert_eq!(tc.tasks[0].status, 0);
}

#[test]
fn test_add_time_and_status_update() {
    let mut tc = TaskController::new();
    tc.add_task(1, "Coding", None);
    tc.add_time(1, 0, 30);
    tc.add_time(1, 0, 40);
    let task = &tc.tasks[0];
    assert_eq!(task.status, 1);
    assert_eq!(task.total_time_hours, 1);
    assert_eq!(task.total_time_mins, 10);
}

#[test]
fn test_add_time_carries_into_days() {
    let mut tc = TaskController::new();
    tc.add_task(1, "Long", None);
    tc.add_time(1, 23, 50);
    tc.add_time(1, 0, 15);
    let task = &tc.tasks[0];
    assert_eq!(task.total_time_days, 1);
    assert_eq!(task.total_time_hours, 0);
    assert_eq!(task.total_time_mins, 5);
}

#[test]
fn test_add_time_carries_one_hour_at_most() {
    let mut tc = TaskController::new();
    tc.add_task(1, "Odd", None);
    tc.add_time(1, 0, 150);
    let task = &tc.tasks[0];
    assert_eq!(task.total_time_hours, 1);
    assert_eq!(task.total_time_mins, 30);
}

#[test]
fn test_add_time_unknown_id_changes_nothing() {
    let mut tc = TaskController::new();
    tc.add_task(1, "A", None);
    tc.add_time(7, 1, 1);
    assert_eq!(tc.tasks[0].status, 0);
    assert_eq!(tc.tasks[0].total_time_mins, 0);
}

#[test]
fn test_sorting_logic() {
    let mut tc = TaskController::new();
    tc.add_task(1, "Alpha", None);
    tc.add_task(5, "Beta", None);
    let sorted = tc.get_tasks(2);
    assert_eq!(sorted[0].priority, 5);
    assert_eq!(sorted[1].priority, 1);
}

#[test]
fn test_sort_by_priority_puts_finished_last() {
    let mut tc = TaskController::new();
    tc.add_task(9, "Done already", None);
    tc.add_task(1, "Low", None);
    tc.add_task(3, "Mid", None);
    tc.finish_task(1);
    let sorted = tc.get_tasks(2);
    let titles: Vec<&str> = sorted.iter().map(|t| t.title.as_str()).collect();
    assert_eq!(titles, vec!["Mid", "Low", "Done already"]);
    // the sort is kept in the controller
    assert_eq!(tc.tasks[0].title, "Mid");
}

#[test]
fn test_sort_by_title() {
    let mut tc = TaskController::new();
    tc.add_task(1, "pear", None);
    tc.add_task(1, "Apple", None);
    tc.add_task(1, "apple", None);
    let sorted = tc.get_tasks(1);
    let titles: Vec<&str> = sorted.iter().map(|t| t.title.as_str()).collect();
    assert_eq!(titles, vec!["Apple", "apple", "pear"]);
}

#[test]
fn test_sort_by_deadline_is_stable() {
    let mut tc = TaskController::new();
    tc.add_task(1, "none", None);
    tc.add_task(1, "late", Some("2026-09-01"));
    tc.add_task(1, "early", Some("2026-01-15"));
    tc.add_task(1, "late too", Some("2026-09-01"));
    tc.add_task(1, "finished", Some("2020-01-01"));
    tc.finish_task(5);
    let sorted = tc.get_tasks(3);
    let titles: Vec<&str> = sorted.iter().map(|t| t.title.as_str()).collect();
    assert_eq!(titles, vec!["early", "late", "late too", "none", "finished"]);
}

#[test]
fn test_get_tasks_other_key_keeps_order() {
    let mut tc = TaskController::new();
    tc.add_task(1, "b", None);
    tc.add_task(9, "a", None);
    let listed = tc.get_tasks(0);
    assert_eq!(listed[0].title, "b");
    assert_eq!(listed[1].title, "a");
    let again = tc.get_tasks(7);
    assert_eq!(again[0].title, "b");
}

#[test]
fn test_sorting_twice_is_sorting_once() {
    let mut tc = TaskController::new();
    tc.add_task(2, "x", None);
    tc.add_task(2, "y", None);
    tc.add_task(4, "z", None);
    let once: Vec<u32> = tc.get_tasks(2).iter().map(|t| t.id).collect();
    let twice: Vec<u32> = tc.get_tasks(2).iter().map(|t| t.id).collect();
    assert_eq!(once, vec![3, 1, 2]);
    assert_eq!(once, twice);
}

#[test]
fn test_finish_task() {
    let mut tc = TaskController::new();
    tc.add_task(1, "Do this", None);
    tc.finish_task(1);
    assert_eq!(tc.tasks[0].status, 2);
}

#[test]
fn test_change_task() {
    let mut tc = TaskController::new();
    tc.add_task(1, "Old", Some("2026-01-01"));
    assert!(tc.change_task(1, Some(4), Some("New".to_string()), None));
    assert_eq!(tc.tasks[0].priority, 4);
    assert_eq!(tc.tasks[0].title, "New");
    assert_eq!(tc.tasks[0].deadline, Some("2026-01-01".to_string()));
    assert!(tc.change_task(1, None, None, Some("2027-02-02".to_string())));
    assert_eq!(tc.tasks[0].deadline, Some("2027-02-02".to_string()));
    assert!(!tc.change_task(2, Some(1), None, None));
}

#[test]
fn test_delete_task() {
    let mut tc = TaskController::new();
    tc.add_task(1, "A", None);
    tc.add_task(1, "B", None);
    assert!(tc.delete_task(1));
    assert_eq!(tc.tasks.len(), 1);
    assert_eq!(tc.tasks[0].title, "B");
    assert!(!tc.delete_task(1));
    assert_eq!(tc.next_id, 3);
}

#[test]
fn test_get_next_id() {
    let mut tc = TaskController::new();
    assert_eq!(tc.get_next_id(), 1);
    assert_eq!(tc.get_next_id(), 2);
    assert_eq!(tc.next_id, 3);
}

#[test]
fn test_modify_tasks() {
    let mut app = AppState::new();
    assert!(app.modify_tasks(0, None, None, None));
    assert_eq!(app.task_controller.tasks[0].title, "New Task");
    assert_eq!(app.task_controller.tasks[0].priority, 1);
    assert!(app.modify_tasks(0, Some(3), Some("Write"), Some("2026-03-03")));
    assert!(app.modify_tasks(2, Some(7), None, None));
    assert_eq!(app.task_controller.tasks[1].priority, 7);
    assert!(!app.modify_tasks(3, Some(7), None, None));
    assert!(app.finish_task(1));
    assert!(app.delete_task(1));
    assert_eq!(app.get_tasks(0).len(), 1);
}
