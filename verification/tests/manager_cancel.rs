use task_runner::ITask;
use task_runner::Task;
use task_runner::TaskError;
use task_runner::TaskManager;

#[test]
fn cancel_of_an_idle_task_is_plain_removal() {
    let mut m = TaskManager::new(4).unwrap();
    m.add_task(Task::new(String::from("a")));
    m.add_task(Task::new(String::from("b")));

    let removed = m.cancel_task(String::from("a")).unwrap();
    assert_eq!(removed.get_id(), "a");
    assert!(!removed.is_running());
    assert!(!removed.is_stopping());
    assert_eq!(m.pending_ids(), vec!["b"]);
    assert!(!m.task_at(0).is_running());
    assert!(!m.task_at(0).is_stopping());
}

#[test]
fn cancel_of_a_running_task_flips_its_stop_flag() {
    let mut m = TaskManager::new(4).unwrap();
    let mut busy = Task::new(String::from("busy"));
    busy.set_running_state(true);
    m.add_task(busy);
    m.add_task(Task::new(String::from("idle")));

    let removed = m.cancel_task(String::from("busy")).unwrap();
    assert!(removed.is_running());
    assert!(removed.is_stopping());
    assert_eq!(m.pending_ids(), vec!["idle"]);
}

#[test]
fn cancel_of_an_unknown_id_reports_not_found_and_changes_nothing() {
    let mut m = TaskManager::new(4).unwrap();
    m.add_task(Task::new(String::from("a")));
    m.add_task(Task::new(String::from("b")));

    assert!(matches!(m.cancel_task(String::from("zz")), Err(TaskError::TaskNotFound)));
    assert_eq!(m.pending_ids(), vec!["a", "b"]);
}

#[test]
fn cancel_affects_only_the_first_of_duplicate_ids() {
    let mut m = TaskManager::new(4).unwrap();
    let mut first = Task::new(String::from("x"));
    first.set_running_state(true);
    m.add_task(first);
    m.add_task(Task::new(String::from("x")));

    let removed = m.cancel_task(String::from("x")).unwrap();
    assert!(removed.is_running());
    assert_eq!(m.pending_ids(), vec!["x"]);
    assert!(!m.task_at(0).is_running());
}

#[test]
fn remove_task_without_stop_leaves_the_flags_alone() {
    let mut m = TaskManager::new(4).unwrap();
    let mut busy = Task::new(String::from("busy"));
    busy.set_running_state(true);
    m.add_task(busy);

    let removed = m.remove_task(String::from("busy"), false).unwrap();
    assert!(removed.is_running());
    assert!(!removed.is_stopping());
    assert_eq!(m.pending_count(), 0);
}

#[test]
fn remove_task_with_stop_behaves_like_cancel() {
    let mut m = TaskManager::new(4).unwrap();
    m.add_task(Task::new(String::from("idle")));

    let removed = m.remove_task(String::from("idle"), true).unwrap();
    assert!(!removed.is_stopping());
    assert_eq!(m.pending_count(), 0);
    assert!(matches!(m.remove_task(String::from("idle"), true), Err(TaskError::TaskNotFound)));
}

#[test]
fn cancelling_every_id_after_two_waves_empties_pending() {
    let mut m = TaskManager::new(4).unwrap();
    for x in 0..10 {
        m.add_task(Task::new(x.to_string()));
    }
    m.execute();

    for x in 11..20 {
        m.add_task(Task::new(x.to_string()));
    }
    m.execute();
    assert_eq!(m.pending_count(), 11);

    let mut removed: i32 = 0;
    let mut missing: i32 = 0;
    for x in 0..20 {
        match m.cancel_task(x.to_string()) {
            Ok(_) => removed += 1,
            Err(TaskError::TaskNotFound) => missing += 1,
            Err(e) => panic!("unexpected error: {:?}", e),
        }
    }
    assert_eq!(m.pending_count(), 0);
    assert_eq!(removed, 11);
    assert_eq!(missing, 9);
}
