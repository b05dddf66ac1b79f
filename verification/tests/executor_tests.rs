use icie::error::{ActionTrigger, Severity, E, R};
use icie::executor::{
    chosen_action, classify_impulse, config_error, config_error_entry, config_path, error_show, find_command, panic_message, Impulse,
};

fn noop() -> R<()> {
    Ok(())
}

#[test]
fn impulses_by_tag() {
    assert_eq!(classify_impulse(Some("async")), Impulse::Async);
    assert_eq!(classify_impulse(Some("trigger")), Impulse::Trigger);
    assert_eq!(classify_impulse(Some("config")), Impulse::Config);
    assert_eq!(classify_impulse(Some("meta")), Impulse::Meta);
    assert_eq!(classify_impulse(Some("dispose")), Impulse::Dispose);
    assert_eq!(classify_impulse(Some("Async")), Impulse::Unknown);
    assert_eq!(classify_impulse(None), Impulse::Unknown);
}

#[test]
fn error_is_shown_with_report_link() {
    let e = E::error("low").context("high").extended("log");
    let r = error_show(&e);
    assert_eq!(r.log_message, "low\nhigh\n\nContains 1 extended log entries\n\n");
    let m = r.shown.unwrap();
    assert_eq!(m.message, "high; low; [report issue?](https://github.com/pustaczek/icie/issues)");
    assert!(!m.warning);
    assert!(m.items.is_empty());
}

#[test]
fn reformed_error_logs_details_after_reasons() {
    let e = E::error("inner").reform("outer");
    let r = error_show(&e);
    assert_eq!(r.log_message, "outer\ninner\n\nContains 0 extended log entries\n\n");
    assert_eq!(r.shown.unwrap().message, "outer; [report issue?](https://github.com/pustaczek/icie/issues)");
}

#[test]
fn workflow_error_has_no_report_link() {
    let e = E::error("file missing").workflow_error();
    assert_eq!(error_show(&e).shown.unwrap().message, "file missing");
}

#[test]
fn warning_is_shown_as_warning_without_report_link() {
    let mut e = E::error("careful");
    e.severity = Severity::Warning;
    let m = error_show(&e).shown.unwrap();
    assert!(m.warning);
    assert_eq!(m.message, "careful");
}

#[test]
fn cancel_is_logged_but_not_shown() {
    let r = error_show(&E::cancel().context("user closed the dialog"));
    assert!(r.shown.is_none());
    assert_eq!(r.log_message, "user closed the dialog\n\nContains 0 extended log entries\n\n");
}

#[test]
fn action_buttons_and_answers() {
    let e = E::error("x").action("Retry", ActionTrigger(noop)).action("Help", ActionTrigger(noop));
    let r = error_show(&e).shown.unwrap();
    let items: Vec<(&str, &str, bool)> = r.items.iter().map(|i| (i.id.as_str(), i.title.as_str(), i.is_close_affordance)).collect();
    assert_eq!(items, vec![("0", "Retry", false), ("1", "Help", false)]);
    for item in &r.items {
        let i = chosen_action(e.actions.len(), &item.id).unwrap();
        assert_eq!(e.actions[i].title, item.title);
    }
}

#[test]
fn answers_outside_the_buttons() {
    assert_eq!(chosen_action(2, "2"), None);
    assert_eq!(chosen_action(2, "x"), None);
    assert_eq!(chosen_action(2, ""), None);
    assert_eq!(chosen_action(2, "-1"), None);
    assert_eq!(chosen_action(2, "+1"), Some(1));
    assert_eq!(chosen_action(12, "11"), Some(11));
}

#[test]
fn config_paths() {
    assert_eq!(config_path("icie.test.timeLimit"), vec!["test", "timeLimit"]);
    assert_eq!(config_path("icie.template"), vec!["template"]);
    assert!(config_path("icie").is_empty());
    assert_eq!(config_path("icie..x"), vec!["", "x"]);
}

#[test]
fn config_errors() {
    assert!(config_error(&Vec::new()).is_none());
    let entry = config_error_entry("icie", "icie.test.timeLimit", "expected number");
    assert_eq!(entry, "icie.icie.test.timeLimit (expected number)");
    let e = config_error(&vec![entry, "b".to_owned()]).unwrap();
    assert_eq!(e.severity, Severity::Error);
    assert_eq!(
        e.human(),
        "some configuration entries are invalid, falling back to defaults; icie.icie.test.timeLimit (expected number), b"
    );
}

#[test]
fn commands_by_id() {
    let ids = vec!["icie.build".to_owned(), "icie.test".to_owned(), "icie.test".to_owned()];
    assert_eq!(find_command(&ids, "icie.test"), Some(1));
    assert_eq!(find_command(&ids, "icie.build"), Some(0));
    assert_eq!(find_command(&ids, "icie.submit"), None);
}

#[test]
fn panic_messages() {
    assert_eq!(panic_message(Some("oops"), Some(("src/a.rs", 12))), "ICIE panicked, oops at src/a.rs:12");
    assert_eq!(panic_message(None, None), "ICIE panicked, ... at --:--");
}
