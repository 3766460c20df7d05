use utilkit::tasks::{apply, changed, state_label, Command, Outcome, Task};

fn task(title: &str, done: bool) -> Task {
    Task { title: title.to_string(), done }
}

fn three() -> Vec<Task> {
    vec![task("wash", false), task("cook", true), task("read", false)]
}

#[test]
fn add_puts_an_open_task_at_the_end() {
    let mut tasks = three();
    let outcome = apply(&mut tasks, Command::Add { title: "sleep".to_string() });
    assert_eq!(outcome, Outcome::Added("sleep".to_string()));
    assert!(changed(&outcome));
    assert_eq!(
        tasks,
        vec![task("wash", false), task("cook", true), task("read", false), task("sleep", false)]
    );
}

#[test]
fn add_to_an_empty_list() {
    let mut tasks = Vec::new();
    assert_eq!(
        apply(&mut tasks, Command::Add { title: "first".to_string() }),
        Outcome::Added("first".to_string())
    );
    assert_eq!(tasks, vec![task("first", false)]);
}

#[test]
fn list_changes_nothing() {
    let mut tasks = three();
    let outcome = apply(&mut tasks, Command::List);
    assert_eq!(outcome, Outcome::Listed);
    assert!(!changed(&outcome));
    assert_eq!(tasks, three());
}

#[test]
fn done_marks_the_task_with_that_number() {
    let mut tasks = three();
    let outcome = apply(&mut tasks, Command::Done { index: 3 });
    assert_eq!(outcome, Outcome::MarkedDone(3));
    assert!(changed(&outcome));
    assert_eq!(tasks, vec![task("wash", false), task("cook", true), task("read", true)]);
    assert_eq!(apply(&mut tasks, Command::Done { index: 1 }), Outcome::MarkedDone(1));
    assert_eq!(tasks, vec![task("wash", true), task("cook", true), task("read", true)]);
}

#[test]
fn done_on_a_done_task_leaves_it_done() {
    let mut tasks = three();
    assert_eq!(apply(&mut tasks, Command::Done { index: 2 }), Outcome::MarkedDone(2));
    assert_eq!(tasks, three());
}

#[test]
fn delete_takes_the_task_with_that_number() {
    let mut tasks = three();
    let outcome = apply(&mut tasks, Command::Delete { index: 1 });
    assert_eq!(outcome, Outcome::Deleted("wash".to_string()));
    assert!(changed(&outcome));
    assert_eq!(tasks, vec![task("cook", true), task("read", false)]);
    assert_eq!(apply(&mut tasks, Command::Delete { index: 2 }), Outcome::Deleted("read".to_string()));
    assert_eq!(tasks, vec![task("cook", true)]);
}

#[test]
fn numbers_start_at_one_and_end_at_the_length() {
    for index in [0, 4, 5, usize::MAX] {
        let mut tasks = three();
        let outcome = apply(&mut tasks, Command::Done { index });
        assert_eq!(outcome, Outcome::InvalidNumber);
        assert!(!changed(&outcome));
        assert_eq!(tasks, three());
        assert_eq!(apply(&mut tasks, Command::Delete { index }), Outcome::InvalidNumber);
        assert_eq!(tasks, three());
    }
    let mut none: Vec<Task> = Vec::new();
    assert_eq!(apply(&mut none, Command::Delete { index: 1 }), Outcome::InvalidNumber);
}

#[test]
fn labels_of_the_two_states() {
    assert_eq!(state_label(&task("a", true)), "Done");
    assert_eq!(state_label(&task("a", false)), "TBD");
}
