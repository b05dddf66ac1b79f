use icie::runtime::config_entries;
use icie::test_view::{Report, TestNote, TestViewLogic};
use icie::webview::{forget_on_finish, raw_get_plan, GetPlan, WebviewIndex, WebviewSlot};
use std::sync::Arc;

#[test]
fn note_kinds() {
    let l = TestViewLogic;
    assert_eq!(l.note_kind(Some("trigger_rr")), Some(TestNote::TriggerRr));
    assert_eq!(l.note_kind(Some("trigger_gdb")), Some(TestNote::TriggerGdb));
    assert_eq!(l.note_kind(Some("new_test")), Some(TestNote::NewTest));
    assert_eq!(l.note_kind(Some("set_alt")), Some(TestNote::SetAlt));
    assert_eq!(l.note_kind(Some("del_alt")), Some(TestNote::DelAlt));
    assert_eq!(l.note_kind(Some("edit")), Some(TestNote::Edit));
    assert_eq!(l.note_kind(Some("action_notice")), Some(TestNote::ActionNotice));
    assert_eq!(l.note_kind(Some("eval_req")), Some(TestNote::EvalReq));
    assert_eq!(l.note_kind(Some("other")), None);
    assert_eq!(l.note_kind(None), None);
}

#[test]
fn invalid_message_quotes_it() {
    assert_eq!(TestViewLogic.invalid_message("{\"tag\":1}").human(), "invalid webview message `{\"tag\":1}`");
}

#[test]
fn alternative_outputs() {
    assert_eq!(TestViewLogic.alternative_output("  5 6 \n\n"), "5 6\n");
    assert_eq!(TestViewLogic.alternative_output(""), "\n");
}

#[test]
fn reports_hold_runs() {
    let r = Report { runs: vec![1, 2] };
    assert_eq!(r.runs.len(), 2);
}

#[test]
fn stored_config_entries() {
    let stored = Some(Arc::new(vec!["icie.a", "icie.b"]));
    let got = config_entries(&stored);
    assert!(Arc::ptr_eq(&got, stored.as_ref().unwrap()));
}

#[test]
fn webview_plans() {
    assert_eq!(raw_get_plan(false, true), GetPlan::Create);
    assert_eq!(raw_get_plan(false, false), GetPlan::Create);
    assert_eq!(raw_get_plan(true, true), GetPlan::Recompute);
    assert_eq!(raw_get_plan(true, false), GetPlan::Reuse);
    assert!(forget_on_finish(Some(3), 3));
    assert!(!forget_on_finish(Some(4), 3));
    assert!(!forget_on_finish(None, 3));
}

#[test]
fn webview_index_bookkeeping() {
    let mut w = WebviewIndex::new();
    assert_eq!(w.plan("a.cpp", false), GetPlan::Create);
    w.insert_created("a.cpp", 1);
    w.insert_created("b.cpp", 2);
    assert_eq!(w.get("a.cpp"), Some(1));
    assert_eq!(w.plan("a.cpp", false), GetPlan::Reuse);
    assert_eq!(w.plan("a.cpp", true), GetPlan::Recompute);
    // A newer webview replaces the key's entry; the old worker's finish leaves it.
    w.insert_created("a.cpp", 3);
    assert!(!w.finished("a.cpp", 1));
    assert_eq!(w.get("a.cpp"), Some(3));
    assert!(w.finished("a.cpp", 3));
    assert_eq!(w.get("a.cpp"), None);
    assert!(!w.finished("c.cpp", 2));
    assert_eq!(w.keys(), vec!["b.cpp".to_owned()]);
}

#[test]
fn webview_slot() {
    let mut s = WebviewSlot::new();
    assert_eq!(s.handle(), None);
    s.install(7);
    assert_eq!(s.handle(), Some(7));
    assert_eq!(s.handle(), Some(7));
    s.manager_finished();
    assert_eq!(s.handle(), None);
}

#[test]
fn evaluation_requests() {
    let l = TestViewLogic;
    assert!(l.should_evaluate(Some(true)));
    assert!(!l.should_evaluate(Some(false)));
    assert!(!l.should_evaluate(None));
    assert!(l.evaluation_result(true).is_ok());
    assert_eq!(l.evaluation_result(false).unwrap_err().human(), "brut did not evaluate test successfully");
}

#[test]
fn active_webview_is_found() {
    let mut index = WebviewIndex::new();
    index.insert_created("a", 10);
    index.insert_created("b", 20);
    index.insert_created("c", 30);
    let keys = index.keys();
    assert_eq!(keys, vec!["a".to_string(), "b".to_string(), "c".to_string()]);
    assert_eq!(index.find_active(&vec![false, true, true]), Some(20));
    assert_eq!(index.find_active(&vec![false, false, false]), None);
    assert_eq!(index.find_active(&vec![true, false, false]), Some(10));
}
