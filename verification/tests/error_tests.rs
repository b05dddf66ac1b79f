use icie::error::{ActionTrigger, Cancellable, Cancellation, Severity, E, R};

fn noop() -> R<()> {
    Ok(())
}

fn reasons(e: &E) -> Vec<&str> {
    e.reasons.iter().map(|s| s.as_str()).collect()
}

#[test]
fn context_is_shown_first() {
    let e = E::error("DNS timed out").context("network failure").context("failed to fetch Bitcoin prices");
    assert_eq!(e.human(), "failed to fetch Bitcoin prices; network failure; DNS timed out");
}

#[test]
fn reform_hides_earlier_reasons() {
    let e = E::error("entity not found").reform("file kitty.txt not found");
    assert_eq!(e.human(), "file kitty.txt not found");
    assert_eq!(e.details, vec!["entity not found".to_owned()]);
}

#[test]
fn reform_keeps_every_message_in_order() {
    let e = E::error("a").context("b").reform("c").context("d").reform("e");
    assert_eq!(e.details, vec!["a".to_owned(), "b".to_owned(), "c".to_owned(), "d".to_owned()]);
    assert_eq!(reasons(&e), vec!["e"]);
}

#[test]
fn error_has_one_reason() {
    let e = E::error("boom");
    assert_eq!(e.severity, Severity::Error);
    assert_eq!(reasons(&e), vec!["boom"]);
    assert!(e.details.is_empty() && e.actions.is_empty() && e.extended.is_empty());
}

#[test]
fn cancel_is_silent() {
    let e = E::cancel();
    assert_eq!(e.severity, Severity::Cancel);
    assert!(e.reasons.is_empty());
    assert_eq!(e.human(), "");
}

#[test]
fn cancellation_converts_to_cancel() {
    let e: E = E::from(Cancellation);
    assert_eq!(e.severity, Severity::Cancel);
    assert!(e.reasons.is_empty());
}

#[test]
fn from_std_orders_the_chain() {
    let chain = vec!["read failed".to_owned(), "io error".to_owned(), "disk gone".to_owned()];
    let e = E::from_std(chain);
    assert_eq!(reasons(&e), vec!["disk gone", "io error", "read failed"]);
    assert_eq!(e.human(), "read failed; io error; disk gone");
    assert_eq!(e.severity, Severity::Error);
}

#[test]
fn human_of_single_reason() {
    assert_eq!(E::error("only").human(), "only");
}

#[test]
fn actions_are_added_in_order() {
    let e = E::error("x").action("Retry", ActionTrigger(noop)).action_if(false, "Skip", ActionTrigger(noop)).action_if(
        true,
        "Help",
        ActionTrigger(noop),
    );
    let titles: Vec<&str> = e.actions.iter().map(|a| a.title.as_str()).collect();
    assert_eq!(titles, vec!["Retry", "Help"]);
    assert!((e.actions[0].trigger.0)().is_ok());
}

#[test]
fn extended_logs_accumulate() {
    let e = E::error("x").extended("log one").extended("log two");
    assert_eq!(e.extended, vec!["log one".to_owned(), "log two".to_owned()]);
    assert_eq!(reasons(&e), vec!["x"]);
}

#[test]
fn workflow_error_changes_only_severity() {
    let e = E::error("x").context("y").workflow_error();
    assert_eq!(e.severity, Severity::Workflow);
    assert_eq!(e.human(), "y; x");
}

#[test]
fn cancellable_round_trips() {
    assert!(matches!(Cancellable::from_ok(5).into_result(), Ok(5)));
    assert!(Cancellable::<i32>::from_error(Cancellation).into_result().is_err());
    assert!(Cancellable::<i32>(None).into_result().is_err());
}

fn failing() -> R<()> {
    Err(E::error("second"))
}

#[test]
fn actions_keep_their_triggers() {
    let e = E::error("x").action("First", ActionTrigger(noop)).action_if(true, "Second", ActionTrigger(failing));
    assert!((e.actions[0].trigger.0)().is_ok());
    assert_eq!((e.actions[1].trigger.0)().unwrap_err().human(), "second");
    let e = e.action_if(false, "Third", ActionTrigger(noop)).action("Fourth", ActionTrigger(failing));
    let titles: Vec<&str> = e.actions.iter().map(|a| a.title.as_str()).collect();
    assert_eq!(titles, vec!["First", "Second", "Fourth"]);
    assert!((e.actions[0].trigger.0)().is_ok());
    assert!((e.actions[1].trigger.0)().is_err());
    assert!((e.actions[2].trigger.0)().is_err());
}

#[test]
fn builders_keep_the_backtrace() {
    let e = E::error("x");
    let before = format!("{:?}", e.backtrace);
    let e = e.context("y").reform("z").extended("log").workflow_error().action("A", ActionTrigger(noop));
    assert_eq!(format!("{:?}", e.backtrace), before);
}

#[test]
fn errors_clone_and_print() {
    fn act() -> R<()> {
        Ok(())
    }
    let e = E::error("low").context("high").action("retry", ActionTrigger(act));
    let copy = e.clone();
    assert_eq!(copy.reasons, e.reasons);
    assert_eq!(copy.severity, e.severity);
    assert_eq!(copy.actions.len(), 1);
    assert_eq!(copy.actions[0].title, "retry");
    let printed = format!("{:?}", copy);
    assert!(printed.contains("high"));
}
