//! The error type: severity, human-facing reasons, developer details, follow-up actions,
//! a stack trace and extended logs.

use vstd::prelude::*;
use vstd::string::StringExecFns;
use crate::text::texts;

verus! {

#[verifier::external_type_specification]
#[verifier::external_body]
pub struct ExBacktrace(backtrace::Backtrace);

/// `backtrace::Backtrace::new`: captures the stack of the calling thread.
/// What the trace holds depends on the machine and the call site, so nothing is stated of it.
#[verifier::external_body]
fn capture_backtrace() -> backtrace::Backtrace {
    backtrace::Backtrace::new()
}

/// The derived `Clone` of `backtrace::Backtrace`, which copies the captured frames. Nothing
/// is stated of the copy, as the trace is opaque here.
pub assume_specification[ <backtrace::Backtrace as Clone>::clone ](b: &backtrace::Backtrace) -> backtrace::Backtrace;

/// Result type used for errors. See [`E`].
pub type R<T> = Result<T, E>;

/// The function launched when the user presses an action button; it runs in a separate thread.
/// The library only carries it to the place that shows the error, so its content is opaque here.
#[verifier::external_body]
#[derive(Debug)]
pub struct ActionTrigger(pub fn() -> R<()>);

impl Clone for ActionTrigger {
    fn clone(&self) -> (r: Self)
        ensures
            r == *self,
    {
        *self
    }
}

impl Copy for ActionTrigger {
}

/// A button on an error message that the user can press.
#[derive(Clone, Debug)]
pub struct Action {
    /// Title displayed to the user.
    pub title: String,
    /// Launched upon clicking the button.
    pub trigger: ActionTrigger,
}

/// Indication of how serious the error is.
#[derive(Clone, Copy, Debug, PartialEq, Eq, Structural)]
pub enum Severity {
    /// Abort, display an error message, link to the issue tracker.
    Error,
    /// Abort; the error is logged but not displayed.
    Cancel,
    /// Do not abort, display a warning, no link to the issue tracker.
    Warning,
    /// Abort, display an error message, no link to the issue tracker.
    Workflow,
}

/// The error type.
#[derive(Clone, Debug)]
pub struct E {
    /// Whose fault this error is and how serious it is.
    pub severity: Severity,
    /// Human-facing messages, ordered from low-level to high-level.
    pub reasons: Vec<String>,
    /// Messages not meant for the end user, ordered from low-level to high-level.
    pub details: Vec<String>,
    /// Actions available as buttons in the message.
    pub actions: Vec<Action>,
    /// Stack trace from where the error was created.
    pub backtrace: backtrace::Backtrace,
    /// Extended logs, too long to be displayed to the end user.
    pub extended: Vec<String>,
}

/// The separator between reasons in the human-facing text.
pub open spec fn reason_sep() -> Seq<char> {
    seq![';', ' ']
}

/// The human-facing text of a list of reasons: the highest-level reason first,
/// each followed by the next lower one, separated by `"; "`.
pub open spec fn human_text(r: Seq<Seq<char>>) -> Seq<char>
    decreases r.len(),
{
    if r.len() == 0 {
        seq![]
    } else if r.len() == 1 {
        r[0]
    } else {
        human_text(r.drop_first()) + reason_sep() + r[0]
    }
}

impl E {
    pub open spec fn reason_texts(&self) -> Seq<Seq<char>> {
        texts(self.reasons@)
    }

    pub open spec fn detail_texts(&self) -> Seq<Seq<char>> {
        texts(self.details@)
    }

    pub open spec fn extended_texts(&self) -> Seq<Seq<char>> {
        texts(self.extended@)
    }

    pub open spec fn action_titles(&self) -> Seq<Seq<char>> {
        self.actions@.map_values(|a: Action| a.title@)
    }

    /// The human-facing text of this error.
    pub open spec fn human_spec(&self) -> Seq<char> {
        human_text(self.reason_texts())
    }

    /// Everything but the reasons is as in `other`.
    pub open spec fn same_except_reasons(&self, other: &E) -> bool {
        &&& self.severity == other.severity
        &&& self.details@ == other.details@
        &&& self.actions@ == other.actions@
        &&& self.extended@ == other.extended@
        &&& self.backtrace == other.backtrace
    }

    /// `self` is `other` with one more action, titled `title` and launching `trigger`, after
    /// the actions it had.
    pub open spec fn adds_action(&self, other: &E, title: Seq<char>, trigger: ActionTrigger) -> bool {
        &&& self.actions@.len() == other.actions@.len() + 1
        &&& forall|i: int| 0 <= i < other.actions@.len() ==> #[trigger] self.actions@[i] == other.actions@[i]
        &&& self.actions@.last().title@ == title
        &&& self.actions@.last().trigger == trigger
    }

    /// Create an error from a user-facing string, capturing a backtrace.
    pub fn error(s: &str) -> (e: E)
        ensures
            e.severity == Severity::Error,
            e.reason_texts() == seq![s@],
            e.details@.len() == 0,
            e.actions@.len() == 0,
            e.extended@.len() == 0,
    {
        let mut reasons: Vec<String> = Vec::new();
        reasons.push(s.to_owned());
        let e = E {
            severity: Severity::Error,
            reasons,
            details: Vec::new(),
            actions: Vec::new(),
            backtrace: capture_backtrace(),
            extended: Vec::new(),
        };
        assert(e.reason_texts() =~= seq![s@]);
        e
    }

    /// Create an error representing an operation cancelled by the user.
    /// It is logged, but not displayed.
    pub fn cancel() -> (e: E)
        ensures
            e.severity == Severity::Cancel,
            e.reasons@.len() == 0,
            e.details@.len() == 0,
            e.actions@.len() == 0,
            e.extended@.len() == 0,
    {
        E {
            severity: Severity::Cancel,
            reasons: Vec::new(),
            details: Vec::new(),
            actions: Vec::new(),
            backtrace: capture_backtrace(),
            extended: Vec::new(),
        }
    }

    /// Convert an error chain to an error. `chain` holds the messages of the error and of
    /// each of its sources in turn, the error itself first; the reasons hold them
    /// from the deepest source to the error itself.
    pub fn from_std(chain: Vec<String>) -> (e: E)
        ensures
            e.severity == Severity::Error,
            e.reason_texts() == texts(chain@).reverse(),
            e.details@.len() == 0,
            e.actions@.len() == 0,
            e.extended@.len() == 0,
    {
        let mut reasons: Vec<String> = Vec::new();
        let n = chain.len();
        let mut k = n;
        while k > 0
            invariant
                k <= n,
                n == chain@.len(),
                reasons@ == chain@.reverse().take((n - k) as int),
            decreases k,
        {
            k -= 1;
            reasons.push(chain[k].clone());
            assert(reasons@ =~= chain@.reverse().take((n - k) as int));
        }
        assert(reasons@ =~= chain@.reverse());
        assert(texts(reasons@) =~= texts(chain@).reverse());
        E {
            severity: Severity::Error,
            reasons,
            details: Vec::new(),
            actions: Vec::new(),
            backtrace: capture_backtrace(),
            extended: Vec::new(),
        }
    }

    /// A short human-facing representation of the error.
    pub fn human(&self) -> (s: String)
        ensures
            s@ == self.human_spec(),
    {
        let ghost r = self.reason_texts();
        let n = self.reasons.len();
        let mut buf = String::new();
        let mut k = n;
        proof {
            reveal_strlit("; ");
            assert(r.subrange(n as int, n as int) =~= Seq::<Seq<char>>::empty());
        }
        while k > 0
            invariant
                k <= n,
                n == self.reasons@.len(),
                r == self.reason_texts(),
                buf@ == human_text(r.subrange(k as int, n as int)),
            decreases k,
        {
            k -= 1;
            if k + 1 < n {
                buf.append("; ");
            }
            buf.append(self.reasons[k].as_str());
            proof {
                reveal_strlit("; ");
                let s = r.subrange(k as int, n as int);
                assert(s.drop_first() =~= r.subrange(k + 1, n as int));
                assert(s[0] == self.reasons@[k as int]@);
            }
        }
        assert(r.subrange(0, n as int) =~= r);
        buf
    }

    /// Add a message describing the error, displayed in front of the previous ones.
    pub fn context(self, msg: &str) -> (e: E)
        ensures
            e.reason_texts() == self.reason_texts().push(msg@),
            e.same_except_reasons(&self),
    {
        let mut e = self;
        e.reasons.push(msg.to_owned());
        assert(e.reason_texts() =~= self.reason_texts().push(msg@));
        e
    }

    /// Add a message describing the error and mark all previous messages as not meant
    /// for the end user; they move to the details.
    pub fn reform(self, msg: &str) -> (e: E)
        ensures
            e.reason_texts() == seq![msg@],
            e.detail_texts() == self.detail_texts() + self.reason_texts(),
            e.severity == self.severity,
            e.actions@ == self.actions@,
            e.extended@ == self.extended@,
            e.backtrace == self.backtrace,
    {
        let mut e = self;
        let n = e.reasons.len();
        let mut i: usize = 0;
        while i < n
            invariant
                n == e.reasons@.len(),
                e.reasons@ == self.reasons@,
                e.severity == self.severity,
                e.actions@ == self.actions@,
                e.extended@ == self.extended@,
                e.backtrace == self.backtrace,
                i <= n,
                e.details@ == self.details@ + self.reasons@.take(i as int),
            decreases n - i,
        {
            let r = e.reasons[i].clone();
            e.details.push(r);
            assert(e.details@ =~= self.details@ + self.reasons@.take(i + 1));
            i += 1;
        }
        assert(e.details@ =~= self.details@ + self.reasons@);
        assert(texts(e.details@) =~= self.detail_texts() + self.reason_texts());
        e.reasons.clear();
        e.reasons.push(msg.to_owned());
        assert(e.reason_texts() =~= seq![msg@]);
        e
    }

    /// Add a follow-up action, shown as a button on the error message.
    pub fn action(self, title: &str, trigger: ActionTrigger) -> (e: E)
        ensures
            e.adds_action(&self, title@, trigger),
            e.action_titles() == self.action_titles().push(title@),
            e.severity == self.severity,
            e.reasons@ == self.reasons@,
            e.details@ == self.details@,
            e.extended@ == self.extended@,
            e.backtrace == self.backtrace,
    {
        let mut e = self;
        let ghost t = trigger;
        let a = Action { title: title.to_owned(), trigger };
        assert(a.trigger == t);
        e.actions.push(a);
        assert(e.action_titles() =~= self.action_titles().push(title@));
        e
    }

    /// Add a follow-up action if `cond` holds.
    pub fn action_if(self, cond: bool, title: &str, trigger: ActionTrigger) -> (e: E)
        ensures
            e.action_titles() == (if cond {
                self.action_titles().push(title@)
            } else {
                self.action_titles()
            }),
            cond ==> e.adds_action(&self, title@, trigger),
            !cond ==> e.actions@ == self.actions@,
            e.severity == self.severity,
            e.reasons@ == self.reasons@,
            e.details@ == self.details@,
            e.extended@ == self.extended@,
            e.backtrace == self.backtrace,
    {
        if cond {
            self.action(title, trigger)
        } else {
            self
        }
    }

    /// Add an extended error log, such as a compilation log.
    pub fn extended(self, extended: &str) -> (e: E)
        ensures
            e.extended_texts() == self.extended_texts().push(extended@),
            e.severity == self.severity,
            e.reasons@ == self.reasons@,
            e.details@ == self.details@,
            e.actions@ == self.actions@,
            e.backtrace == self.backtrace,
    {
        let mut e = self;
        e.extended.push(extended.to_owned());
        assert(e.extended_texts() =~= self.extended_texts().push(extended@));
        e
    }

    /// Mark the error as common in the extension's workflow: no "report issue?" suffix.
    pub fn workflow_error(self) -> (e: E)
        ensures
            e.severity == Severity::Workflow,
            e.reasons@ == self.reasons@,
            e.details@ == self.details@,
            e.actions@ == self.actions@,
            e.extended@ == self.extended@,
            e.backtrace == self.backtrace,
    {
        let mut e = self;
        e.severity = Severity::Workflow;
        e
    }
}

/// An operation intentionally cancelled by the user.
pub struct Cancellation;

/// The result that a cancellable outcome stands for.
pub open spec fn cancellable_result<T>(o: Option<T>) -> Result<T, Cancellation> {
    match o {
        Some(v) => Ok(v),
        None => Err(Cancellation),
    }
}

/// Result-like type for operations that the user could cancel.
pub struct Cancellable<T>(pub Option<T>);

impl<T> Cancellable<T> {
    /// The value, or the cancellation.
    pub fn into_result(self) -> (r: Result<T, Cancellation>)
        ensures
            r == cancellable_result(self.0),
    {
        match self.0 {
            Some(v) => Ok(v),
            None => Err(Cancellation),
        }
    }

    /// The cancelled outcome.
    pub fn from_error(c: Cancellation) -> (r: Cancellable<T>)
        ensures
            r.0 is None,
    {
        Cancellable(None)
    }

    /// The completed outcome.
    pub fn from_ok(v: T) -> (r: Cancellable<T>)
        ensures
            r.0 == Some(v),
    {
        Cancellable(Some(v))
    }
}

impl From<Cancellation> for E {
    /// A cancellation becomes an error of severity [`Severity::Cancel`] with no messages.
    fn from(c: Cancellation) -> (e: E)
        ensures
            e.severity == Severity::Cancel,
            e.reasons@.len() == 0,
            e.details@.len() == 0,
            e.actions@.len() == 0,
            e.extended@.len() == 0,
    {
        E::cancel()
    }
}

impl vstd::std_specs::convert::FromSpecImpl<Cancellation> for E {
    /// The converted error carries a fresh backtrace, so no single value describes it;
    /// `from` states what it returns in its own `ensures`.
    open spec fn obeys_from_spec() -> bool {
        false
    }

    open spec fn from_spec(v: Cancellation) -> E {
        vstd::pervasive::arbitrary()
    }
}

/// A message added by `context` is shown first, in front of the text shown before.
pub proof fn law_context_shown_first(r: Seq<Seq<char>>, m: Seq<char>)
    ensures
        human_text(r.push(m)) == (if r.len() == 0 { m } else { m + reason_sep() + human_text(r) }),
    decreases r.len(),
{
    if r.len() == 0 {
        assert(r.push(m) =~= seq![m]);
    } else if r.len() == 1 {
        assert(r.push(m).drop_first() =~= seq![m]);
        assert(human_text(r) == r[0]);
        assert(human_text(r.push(m)) == human_text(seq![m]) + reason_sep() + r[0]);
    } else {
        assert(r.push(m).drop_first() =~= r.drop_first().push(m));
        law_context_shown_first(r.drop_first(), m);
        let h = human_text(r.drop_first());
        assert(human_text(r.push(m)) == (m + reason_sep() + h) + reason_sep() + r[0]);
        assert(human_text(r) == h + reason_sep() + r[0]);
        assert((m + reason_sep() + h) + reason_sep() + r[0] =~= m + reason_sep() + (h + reason_sep() + r[0]));
    }
}

/// After `reform`, only the new message is shown, and no earlier message is lost: the
/// details followed by the reasons are as the details, reasons and new message were before.
pub proof fn law_reform_keeps_messages(details: Seq<Seq<char>>, reasons: Seq<Seq<char>>, m: Seq<char>)
    ensures
        human_text(seq![m]) == m,
        (details + reasons) + seq![m] == details + (reasons + seq![m]),
{
    assert((details + reasons) + seq![m] =~= details + (reasons + seq![m]));
}

/// A completed outcome gives back its value.
pub proof fn law_cancellable_ok_round_trip<T>(v: T)
    ensures
        cancellable_result(Some(v)) == Ok::<T, Cancellation>(v),
{
}

/// A cancelled outcome gives back the cancellation.
pub proof fn law_cancellable_error_round_trip<T>()
    ensures
        cancellable_result(None::<T>) is Err,
{
}

} // verus!
