use icie::discover::{
    add_test, before_test, fitness, fresh_test_id, test_file_names, used_test_ids, while_idle, while_paused, Food, IdleDecision, ManagerMessage,
    ManagerState, Note, PausedDecision, Polled, Row, RunDecision, WorkerOrder,
};
use icie::discover::{note_of, WorkerRun};
use icie::error::E;

fn row(number: usize, input: &str) -> Row<&'static str> {
    Row { number, solution: "verdict", fitness: fitness(input), input: input.to_owned() }
}

fn state(f: &Food<&'static str>) -> Option<(bool, bool)> {
    match f {
        Food::State { running, reset } => Some((*running, *reset)),
        Food::Row { .. } => None,
    }
}

fn posted_input(f: &Food<&'static str>) -> Option<Option<String>> {
    match f {
        Food::Row { input, .. } => Some(input.clone()),
        Food::State { .. } => None,
    }
}

#[test]
fn start_pause_reset() {
    let mut s = ManagerState::new();
    let r = s.step(ManagerMessage::<&'static str>::Note(Note::Start));
    assert_eq!(r.order, Some(WorkerOrder::Start));
    assert_eq!(state(&r.food), Some((true, false)));
    let r = s.step(ManagerMessage::<&'static str>::Note(Note::Pause));
    assert_eq!(r.order, Some(WorkerOrder::Pause));
    assert_eq!(state(&r.food), Some((false, false)));
    assert!(s.paused);
    let r = s.step(ManagerMessage::<&'static str>::Note(Note::Reset));
    assert_eq!(r.order, Some(WorkerOrder::Reset));
    assert_eq!(state(&r.food), Some((false, true)));
    assert!(!s.paused);
    assert_eq!(s.best_fitness, None);
}

#[test]
fn save_pauses_once() {
    let mut s = ManagerState::new();
    let r = s.step(ManagerMessage::<&'static str>::Note(Note::Save { input: "1 2".to_owned() }));
    assert_eq!(r.order, Some(WorkerOrder::Pause));
    assert_eq!(r.add_test, Some("1 2".to_owned()));
    let r = s.step(ManagerMessage::<&'static str>::Note(Note::Save { input: "3".to_owned() }));
    assert_eq!(r.order, None);
    assert_eq!(r.add_test, Some("3".to_owned()));
    assert_eq!(state(&r.food), Some((false, false)));
}

#[test]
fn shorter_failing_tests_become_best() {
    let mut s = ManagerState::new();
    let r = s.step(ManagerMessage::Report { row: row(1, "long input"), success: false });
    assert_eq!(posted_input(&r.food), Some(Some("long input".to_owned())));
    assert_eq!(s.best_fitness, Some(-10));
    // Passing tests are never the best.
    let r = s.step(ManagerMessage::Report { row: row(2, "x"), success: true });
    assert_eq!(posted_input(&r.food), Some(None));
    // A longer failing test is not better.
    let r = s.step(ManagerMessage::Report { row: row(3, "much longer input"), success: false });
    assert_eq!(posted_input(&r.food), Some(None));
    // An equally long one is not better either.
    let r = s.step(ManagerMessage::Report { row: row(4, "same lengt"), success: false });
    assert_eq!(posted_input(&r.food), Some(None));
    let r = s.step(ManagerMessage::Report { row: row(5, "short"), success: false });
    assert_eq!(posted_input(&r.food), Some(Some("short".to_owned())));
    assert_eq!(s.best_fitness, Some(-5));
    match r.food {
        Food::Row { number, outcome, fitness, .. } => assert_eq!((number, outcome, fitness), (5, "verdict", -5)),
        Food::State { .. } => panic!("expected a row"),
    }
}

#[test]
fn worker_failure_resets() {
    let mut s = ManagerState::new();
    s.step(ManagerMessage::Report { row: row(1, "ab"), success: false });
    s.step(ManagerMessage::<&'static str>::Note(Note::Pause));
    let r = s.step(ManagerMessage::<&'static str>::WorkerFailed(E::error("gen crashed")));
    assert_eq!(state(&r.food), Some((false, true)));
    assert_eq!(r.emit.unwrap().human(), "gen crashed");
    assert_eq!(s.best_fitness, None);
    assert!(!s.paused);
}

#[test]
fn worker_decisions() {
    assert_eq!(while_idle(Some(WorkerOrder::Start)), IdleDecision::Run);
    assert_eq!(while_idle(Some(WorkerOrder::Pause)), IdleDecision::KeepWaiting);
    assert_eq!(while_idle(Some(WorkerOrder::Reset)), IdleDecision::KeepWaiting);
    assert_eq!(while_idle(None), IdleDecision::Exit);
    assert_eq!(before_test(Polled::Nothing), RunDecision::Test);
    assert_eq!(before_test(Polled::Order(WorkerOrder::Start)), RunDecision::Test);
    assert_eq!(before_test(Polled::Order(WorkerOrder::Pause)), RunDecision::Pause);
    assert_eq!(before_test(Polled::Order(WorkerOrder::Reset)), RunDecision::Stop);
    assert_eq!(before_test(Polled::Closed), RunDecision::Cancel);
    assert_eq!(while_paused(Some(WorkerOrder::Start)), PausedDecision::Resume);
    assert_eq!(while_paused(Some(WorkerOrder::Pause)), PausedDecision::KeepWaiting);
    assert_eq!(while_paused(Some(WorkerOrder::Reset)), PausedDecision::Cancel);
    assert_eq!(while_paused(None), PausedDecision::Cancel);
}

#[test]
fn fitness_is_negated_byte_length() {
    assert_eq!(fitness(""), 0);
    assert_eq!(fitness("1 2\n"), -4);
    assert_eq!(fitness("é"), -2);
}

#[test]
fn test_ids() {
    let stems = vec!["1".to_owned(), "2".to_owned(), "x".to_owned(), "-3".to_owned(), "+4".to_owned(), "05".to_owned()];
    assert_eq!(used_test_ids(&stems), vec![1, 2, -3, 4, 5]);
    assert_eq!(fresh_test_id(&vec![1, 2, 4]), 3);
    assert_eq!(fresh_test_id(&vec![]), 1);
    assert_eq!(fresh_test_id(&vec![2, 3]), 1);
    assert_eq!(fresh_test_id(&vec![3, 1, 2]), 4);
    assert_eq!(fresh_test_id(&vec![-1, 0, 1, 1]), 2);
}

#[test]
fn test_file_names_of_id() {
    assert_eq!(test_file_names(7), ("7.in".to_owned(), "7.out".to_owned()));
    assert_eq!(test_file_names(120), ("120.in".to_owned(), "120.out".to_owned()));
}

#[test]
fn new_test_takes_least_free_number() {
    let stems = vec!["1".to_owned(), "2".to_owned(), "notes".to_owned(), "4".to_owned()];
    assert_eq!(add_test(&stems), ("3.in".to_owned(), "3.out".to_owned()));
    assert_eq!(add_test(&vec![]), ("1.in".to_owned(), "1.out".to_owned()));
}

#[test]
fn rows_are_numbered_from_one() {
    let mut run = icie::discover::WorkerRun::new();
    let a = run.row(true, "abc".to_owned());
    let b = run.row(false, "de".to_owned());
    assert_eq!((a.number, a.fitness, a.solution), (1, -3, true));
    assert_eq!((b.number, b.fitness, b.input.as_str()), (2, -2, "de"));
}

#[test]
fn notes_from_the_view() {
    assert!(matches!(note_of(r#"{"tag": "discovery_start"}"#), Some(Note::Start)));
    assert!(matches!(note_of(r#"{"tag": "discovery_pause"}"#), Some(Note::Pause)));
    assert!(matches!(note_of(r#"{"tag": "discovery_reset"}"#), Some(Note::Reset)));
    match note_of(r#"{"tag": "discovery_save", "input": "1 2\n"}"#) {
        Some(Note::Save { input }) => assert_eq!(input, "1 2\n"),
        _ => panic!("expected a save"),
    }
    assert!(note_of(r#"{"tag": "discovery_save"}"#).is_none());
    assert!(note_of(r#"{"tag": "other"}"#).is_none());
    assert!(note_of("not json").is_none());
}

#[test]
fn worker_rows_are_numbered() {
    let mut run = WorkerRun::new();
    assert_eq!(run.next(), 1);
    let first = run.row(true, "abc".to_string());
    assert_eq!((first.number, first.fitness), (1, -3));
    let second = run.row(false, "".to_string());
    assert_eq!((second.number, second.fitness), (2, 0));
    assert_eq!(run.next(), 3);
}
