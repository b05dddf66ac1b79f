use icie::executor::{action_of, line_action, LineAction};
use icie::json::{field_str, field_text, member_text, text_is_null, text_str, text_u64, value_at_path, Json};

fn ids(v: &[&str]) -> Vec<String> {
    v.iter().map(|s| s.to_string()).collect()
}

#[test]
fn strings_and_numbers() {
    assert_eq!(text_str("\"abc\"").as_deref(), Some("abc"));
    assert_eq!(text_str("\"a long string that is not kept inline by the parser\"").as_deref(), Some("a long string that is not kept inline by the parser"));
    assert_eq!(text_str("12"), None);
    assert_eq!(text_str("not json"), None);
    assert_eq!(text_u64("12"), Some(12));
    assert_eq!(text_u64("-12"), None);
    assert_eq!(text_u64("1.5"), None);
    assert_eq!(text_u64("\"12\""), None);
    assert!(text_is_null("null"));
    assert!(!text_is_null("0"));
}

#[test]
fn members_of_objects() {
    let text = r#"{"a": {"b": [1, 2]}, "s": "x"}"#;
    assert_eq!(field_text(text, "a"), r#"{"b":[1,2]}"#);
    assert_eq!(field_text(text, "missing"), "null");
    assert_eq!(field_text("[1, 2]", "a"), "null");
    assert_eq!(field_str(text, "s").as_deref(), Some("x"));
    assert_eq!(field_str(text, "a"), None);
    let node = Json::Object(vec![("k".to_string(), "1".to_string()), ("k".to_string(), "2".to_string())]);
    assert_eq!(member_text(&node, "k"), "1");
    assert_eq!(member_text(&Json::Null, "k"), "null");
}

#[test]
fn values_along_paths() {
    let tree = r#"{"test": {"time_limit": 2000}, "other": true}"#;
    assert_eq!(value_at_path(tree, &ids(&["test", "time_limit"])), "2000");
    assert_eq!(value_at_path(tree, &ids(&["test", "missing"])), "null");
    assert_eq!(value_at_path(tree, &ids(&["other", "deeper"])), "null");
    assert_eq!(value_at_path(tree, &ids(&[])), r#"{"test": {"time_limit": 2000}, "other": true}"#);
}

#[test]
fn lines_from_the_editor() {
    let commands = ids(&["icie.a", "icie.b", "icie.b"]);
    let config = ids(&["icie.test.time_limit", "icie.missing"]);
    match line_action(r#"{"tag": "async", "aid": 7, "value": {"x": "y"}}"#, &commands, &config) {
        LineAction::Deliver { aid, value } => {
            assert_eq!(aid, 7);
            assert_eq!(value, r#"{"x":"y"}"#);
        },
        _ => panic!("expected a delivery"),
    }
    match line_action(r#"{"tag": "async", "aid": 3}"#, &commands, &config) {
        LineAction::Deliver { aid, value } => {
            assert_eq!(aid, 3);
            assert_eq!(value, "null");
        },
        _ => panic!("expected a delivery"),
    }
    assert!(matches!(line_action(r#"{"tag": "async", "aid": "7"}"#, &commands, &config), LineAction::MissingAid));
    assert!(matches!(line_action(r#"{"tag": "trigger", "command_id": "icie.b"}"#, &commands, &config), LineAction::Trigger { index: 1 }));
    match line_action(r#"{"tag": "trigger", "command_id": "icie.c"}"#, &commands, &config) {
        LineAction::UnknownCommand { id } => assert_eq!(id, "icie.c"),
        _ => panic!("expected an unknown command"),
    }
    assert!(matches!(line_action(r#"{"tag": "trigger"}"#, &commands, &config), LineAction::MissingCommandId));
    match line_action(r#"{"tag": "config", "tree": {"test": {"time_limit": null}}}"#, &commands, &config) {
        LineAction::Config { values } => assert_eq!(values, vec!["null".to_string(), "null".to_string()]),
        _ => panic!("expected a configuration"),
    }
    match line_action(r#"{"tag": "config", "tree": {"test": {"time_limit": 500}}}"#, &commands, &config) {
        LineAction::Config { values } => assert_eq!(values, vec!["500".to_string(), "null".to_string()]),
        _ => panic!("expected a configuration"),
    }
    match line_action(r#"{"tag": "meta", "workspace": "/w", "extension": "/e"}"#, &commands, &config) {
        LineAction::Meta { workspace, extension } => {
            assert_eq!(workspace.as_deref(), Some("/w"));
            assert_eq!(extension.as_deref(), Some("/e"));
        },
        _ => panic!("expected meta"),
    }
    match line_action(r#"{"tag": "meta", "workspace": null, "extension": "/e"}"#, &commands, &config) {
        LineAction::Meta { workspace, .. } => assert_eq!(workspace, None),
        _ => panic!("expected meta"),
    }
    assert!(matches!(line_action(r#"{"tag": "dispose"}"#, &commands, &config), LineAction::Dispose));
    match line_action(r#"{"tag": "hello",  "n": 1}"#, &commands, &config) {
        LineAction::Echo { message } => assert_eq!(message, r#"{"tag":"hello","n":1}"#),
        _ => panic!("expected an echo"),
    }
    match line_action("[1, 2]", &commands, &config) {
        LineAction::Echo { message } => assert_eq!(message, "[1,2]"),
        _ => panic!("expected an echo"),
    }
    assert!(matches!(line_action("{not json", &commands, &config), LineAction::Malformed));
}

#[test]
fn actions_of_parsed_lines() {
    let commands = ids(&["icie.a"]);
    let config = ids(&[]);
    assert!(matches!(action_of(None, &commands, &config), LineAction::Malformed));
    let node = Json::Object(vec![("tag".to_string(), "\"trigger\"".to_string()), ("command_id".to_string(), "\"icie.a\"".to_string())]);
    assert!(matches!(action_of(Some((node, String::new())), &commands, &config), LineAction::Trigger { index: 0 }));
    let node = Json::Object(vec![("tag".to_string(), "\"other\"".to_string())]);
    match action_of(Some((node, "text".to_string())), &commands, &config) {
        LineAction::Echo { message } => assert_eq!(message, "text"),
        _ => panic!("expected an echo"),
    }
}
