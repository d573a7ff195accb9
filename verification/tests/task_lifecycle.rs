use task_runner::ITask;
use task_runner::Task;

#[test]
fn new_task_starts_idle() {
    let t = Task::new(String::from("alpha"));
    assert_eq!(t.get_id(), "alpha");
    assert!(!t.is_running());
    assert!(!t.is_stopping());
}

#[test]
fn set_id_changes_only_the_id() {
    let mut t = Task::new(String::from("alpha"));
    t.set_running_state(true);
    t.set_id(String::from("beta"));
    assert_eq!(t.get_id(), "beta");
    assert!(t.is_running());
    assert!(!t.is_stopping());
}

#[test]
fn flag_setters_round_trip() {
    let mut t = Task::new(String::from("t"));
    t.set_running_state(true);
    assert!(t.is_running());
    t.set_stopping(true);
    assert!(t.is_stopping());
    t.set_running_state(false);
    assert!(!t.is_running());
    t.set_stopping(false);
    assert!(!t.is_stopping());
}

#[test]
fn on_execute_observes_the_stop_flag() {
    let mut t = Task::new(String::from("t"));
    assert!(t.on_execute());
    t.set_stopping(true);
    assert!(!t.on_execute());
}

#[test]
fn execute_ends_idle_with_clean_flags() {
    let mut t = Task::new(String::from("t"));
    t.execute();
    assert!(!t.is_running());
    assert!(!t.is_stopping());
    assert_eq!(t.get_id(), "t");
}

#[test]
fn execute_resets_a_prior_stop_request() {
    let mut t = Task::new(String::from("t"));
    t.set_running_state(true);
    t.cancel();
    assert!(t.is_stopping());
    t.execute();
    assert!(!t.is_stopping());
    assert!(!t.is_running());
}

#[test]
fn cancel_on_idle_task_is_a_no_op() {
    let mut t = Task::new(String::from("t"));
    t.cancel();
    assert!(!t.is_stopping());
    assert!(!t.is_running());
}

#[test]
fn cancel_twice_leaves_stopping_set() {
    let mut t = Task::new(String::from("t"));
    t.set_running_state(true);
    t.cancel();
    assert!(t.is_stopping());
    t.cancel();
    assert!(t.is_stopping());
    assert!(t.is_running());
    assert_eq!(t.get_id(), "t");
}

#[test]
fn clone_preserves_the_state() {
    let mut t = Task::new(String::from("t"));
    t.set_running_state(true);
    let c = t.clone();
    assert_eq!(c.get_id(), "t");
    assert!(c.is_running());
    assert!(!c.is_stopping());
}
