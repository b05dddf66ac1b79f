//! The test view: a webview listing the results of running the tests, which answers the
//! messages its page sends.

use vstd::prelude::*;
use vstd::string::StringExecFns;
use crate::error::{E, Severity};
use crate::text::{str_eq, trim, trimmed};

verus! {

/// The results shown in a test view.
pub struct Report<T> {
    pub runs: Vec<T>,
}

/// What the page of a test view asks for.
#[derive(Clone, Copy, Debug, PartialEq, Eq, Structural)]
pub enum TestNote {
    /// Debug a test with rr.
    TriggerRr,
    /// Debug a test with gdb.
    TriggerGdb,
    /// Save a new test.
    NewTest,
    /// Accept the shown output as an alternative correct output.
    SetAlt,
    /// Remove an alternative correct output.
    DelAlt,
    /// Open a test file in an editor.
    Edit,
    /// The user noticed the actions.
    ActionNotice,
    /// Evaluate an input with the slow solution and save it as a test.
    EvalReq,
}

/// The kind of a message from the page, by its `tag` field; `None` for an unknown tag.
pub open spec fn test_note_of(tag: Option<Seq<char>>) -> Option<TestNote> {
    match tag {
        Some(t) => if t == "trigger_rr"@ {
            Some(TestNote::TriggerRr)
        } else if t == "trigger_gdb"@ {
            Some(TestNote::TriggerGdb)
        } else if t == "new_test"@ {
            Some(TestNote::NewTest)
        } else if t == "set_alt"@ {
            Some(TestNote::SetAlt)
        } else if t == "del_alt"@ {
            Some(TestNote::DelAlt)
        } else if t == "edit"@ {
            Some(TestNote::Edit)
        } else if t == "action_notice"@ {
            Some(TestNote::ActionNotice)
        } else if t == "eval_req"@ {
            Some(TestNote::EvalReq)
        } else {
            None
        },
        None => None,
    }
}

/// The logic of the test view.
pub struct TestViewLogic;

impl TestViewLogic {
    /// Classify a message from the page by its tag.
    pub fn note_kind(&self, tag: Option<&str>) -> (k: Option<TestNote>)
        ensures
            k == test_note_of(crate::executor::opt_view(tag)),
    {
        match tag {
            Some(t) => if str_eq(t, "trigger_rr") {
                Some(TestNote::TriggerRr)
            } else if str_eq(t, "trigger_gdb") {
                Some(TestNote::TriggerGdb)
            } else if str_eq(t, "new_test") {
                Some(TestNote::NewTest)
            } else if str_eq(t, "set_alt") {
                Some(TestNote::SetAlt)
            } else if str_eq(t, "del_alt") {
                Some(TestNote::DelAlt)
            } else if str_eq(t, "edit") {
                Some(TestNote::Edit)
            } else if str_eq(t, "action_notice") {
                Some(TestNote::ActionNotice)
            } else if str_eq(t, "eval_req") {
                Some(TestNote::EvalReq)
            } else {
                None
            },
            None => None,
        }
    }

    /// The error that ends the handling of a message with an unknown tag, quoting the message.
    pub fn invalid_message(&self, dump: &str) -> (e: E)
        ensures
            e.severity == Severity::Error,
            e.reason_texts() == seq!["invalid webview message `"@ + dump@ + "`"@],
            e.details@.len() == 0,
            e.actions@.len() == 0,
            e.extended@.len() == 0,
    {
        let mut msg = String::from_str("invalid webview message `");
        msg.append(dump);
        msg.append("`");
        E::error(msg.as_str())
    }

    /// Whether a request to evaluate an input is carried out: only when the slow solution's
    /// source file is known (`Some`) and exists; otherwise the request is ignored.
    pub fn should_evaluate(&self, brut_exists: Option<bool>) -> (r: bool)
        ensures
            r == (brut_exists == Some(true)),
    {
        match brut_exists {
            Some(exists) => exists,
            None => false,
        }
    }

    /// The outcome of evaluating an input with the slow solution: when it ran successfully,
    /// its output is saved as the test's desired output and the page is answered (`Ok`);
    /// otherwise the request fails with a fixed error.
    pub fn evaluation_result(&self, run_success: bool) -> (r: Result<(), E>)
        ensures
            r is Ok == run_success,
            r matches Err(e) ==> {
                &&& e.severity == Severity::Error
                &&& e.reason_texts() == seq!["brut did not evaluate test successfully"@]
                &&& e.details@.len() == 0
                &&& e.actions@.len() == 0
                &&& e.extended@.len() == 0
            },
    {
        if run_success {
            Ok(())
        } else {
            Err(E::error("brut did not evaluate test successfully"))
        }
    }

    /// The content of an alternative correct output file made from the shown output: the
    /// output without surrounding whitespace, ending with a line break.
    pub fn alternative_output(&self, out: &str) -> (s: String)
        ensures
            s@ == trimmed(out@) + "\n"@,
    {
        let mut s = trim(out);
        s.append("\n");
        s
    }
}

} // verus!
