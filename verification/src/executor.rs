//! The decisions of the loop that talks to the editor: which kind of message arrived, what an
//! error is shown as, which action the user picked, and what a configuration update reports.

use vstd::prelude::*;
use vstd::string::StringExecFns;
use crate::error::{E, Severity, human_text};
use crate::json::{
    Json, JsonView, first_index, json_of_line, lemma_first_index, member_or_null, member_text, opt_text,
    parse_line, parsed_view, str_of, text_str, text_u64, u64_of, value_at, value_at_path,
};
use crate::text::{decimal, join, join_strings, parse_usize, parse_usize_spec, split, split_at_char, str_eq, texts, usize_string};

verus! {

/// The kinds of messages the editor sends.
#[derive(Clone, Copy, Debug, PartialEq, Eq, Structural)]
pub enum Impulse {
    /// A reply to an awaited request.
    Async,
    /// The user launched a command.
    Trigger,
    /// The configuration changed.
    Config,
    /// The workspace and extension paths, sent once at start.
    Meta,
    /// The extension is shutting down.
    Dispose,
    /// Anything else; it is echoed back as a console error.
    Unknown,
}

/// The kind of message with the given `tag` field (`None` when the field is missing or not
/// a string).
pub open spec fn impulse_of(tag: Option<Seq<char>>) -> Impulse {
    match tag {
        Some(t) => if t == "async"@ {
            Impulse::Async
        } else if t == "trigger"@ {
            Impulse::Trigger
        } else if t == "config"@ {
            Impulse::Config
        } else if t == "meta"@ {
            Impulse::Meta
        } else if t == "dispose"@ {
            Impulse::Dispose
        } else {
            Impulse::Unknown
        },
        None => Impulse::Unknown,
    }
}

pub open spec fn opt_view(tag: Option<&str>) -> Option<Seq<char>> {
    match tag {
        Some(t) => Some(t@),
        None => None,
    }
}

/// Classify a message by its tag.
pub fn classify_impulse(tag: Option<&str>) -> (k: Impulse)
    ensures
        k == impulse_of(opt_view(tag)),
{
    match tag {
        Some(t) => if str_eq(t, "async") {
            Impulse::Async
        } else if str_eq(t, "trigger") {
            Impulse::Trigger
        } else if str_eq(t, "config") {
            Impulse::Config
        } else if str_eq(t, "meta") {
            Impulse::Meta
        } else if str_eq(t, "dispose") {
            Impulse::Dispose
        } else {
            Impulse::Unknown
        },
        None => Impulse::Unknown,
    }
}

/// Whether an error of this severity is shown to the user (a cancellation is only logged
/// elsewhere).
pub open spec fn shown(s: Severity) -> bool {
    s != Severity::Cancel
}

/// Whether the message suggests reporting the error on the issue tracker: only for errors;
/// warnings, workflow errors and cancellations do not link to it.
pub open spec fn suggests_report(s: Severity) -> bool {
    s == Severity::Error
}

/// Each string followed by a line break.
pub open spec fn lines(v: Seq<Seq<char>>) -> Seq<char>
    decreases v.len(),
{
    if v.len() == 0 {
        seq![]
    } else {
        lines(v.drop_last()) + v.last() + seq!['\n']
    }
}

/// The suffix that invites the user to report an error.
pub open spec fn report_suffix() -> Seq<char> {
    "; [report issue?](https://github.com/pustaczek/icie/issues)"@
}

/// A button on a shown error message.
pub struct ActionItem {
    /// The answer the editor sends back when the button is pressed.
    pub id: String,
    pub title: String,
    pub is_close_affordance: bool,
}

/// The message shown to the user for an error: its text, whether it is a warning, and its
/// buttons.
pub struct ShownMessage {
    pub message: String,
    pub warning: bool,
    pub items: Vec<ActionItem>,
}

/// What showing an error amounts to: the developer log entry (the stack trace is written
/// after it), and the message shown to the user, if any.
pub struct ErrorReport {
    pub log_message: String,
    pub shown: Option<ShownMessage>,
}

/// The developer log entry of an error, up to the stack trace that follows it.
pub open spec fn log_head(e: &E) -> Seq<char> {
    lines(e.reason_texts()) + lines(e.detail_texts()) + "\nContains "@ + decimal(e.extended@.len())
        + " extended log entries\n\n"@
}

/// The message shown to the user for an error.
pub open spec fn shown_message(e: &E) -> Seq<char> {
    human_text(e.reason_texts()) + if suggests_report(e.severity) { report_suffix() } else { seq![] }
}

/// Append each string of `v`, followed by a line break, to `buf`.
fn append_lines(buf: &mut String, v: &Vec<String>)
    ensures
        final(buf)@ == old(buf)@ + lines(texts(v@)),
{
    let ghost t = texts(v@);
    let ghost start = buf@;
    let mut i: usize = 0;
    proof {
        assert(t.take(0) =~= Seq::<Seq<char>>::empty());
        assert(start + lines(t.take(0)) =~= start);
    }
    while i < v.len()
        invariant
            i <= v@.len(),
            t == texts(v@),
            buf@ == start + lines(t.take(i as int)),
        decreases v@.len() - i,
    {
        buf.append(v[i].as_str());
        buf.append("\n");
        proof {
            reveal_strlit("\n");
            assert(t.take(i + 1).drop_last() =~= t.take(i as int));
            assert(t.take(i + 1).last() == v@[i as int]@);
            assert(start + lines(t.take(i as int)) + v@[i as int]@ + seq!['\n'] =~= start + lines(t.take(i + 1)));
        }
        i += 1;
    }
    assert(t.take(i as int) =~= t);
}

/// What showing `e` amounts to: every error is logged; all but a cancellation are also shown.
pub fn error_show(e: &E) -> (r: ErrorReport)
    ensures
        r.log_message@ == log_head(e),
        r.shown is Some == shown(e.severity),
        r.shown matches Some(rep) ==> {
            &&& rep.message@ == shown_message(e)
            &&& rep.warning == (e.severity == Severity::Warning)
            &&& rep.items@.len() == e.actions@.len()
            &&& forall|i: int| 0 <= i < rep.items@.len() ==> {
                &&& (#[trigger] rep.items@[i]).id@ == decimal(i as nat)
                &&& rep.items@[i].title@ == e.actions@[i].title@
                &&& !rep.items@[i].is_close_affordance
            }
        },
{
    let mut log_message = String::new();
    append_lines(&mut log_message, &e.reasons);
    append_lines(&mut log_message, &e.details);
    log_message.append("\nContains ");
    let count = usize_string(e.extended.len());
    log_message.append(count.as_str());
    log_message.append(" extended log entries\n\n");
    let show = match e.severity {
        Severity::Error => true,
        Severity::Cancel => false,
        Severity::Warning => true,
        Severity::Workflow => true,
    };
    if !show {
        return ErrorReport { log_message, shown: None };
    }
    let suggest = match e.severity {
        Severity::Error => true,
        Severity::Cancel => false,
        Severity::Warning => false,
        Severity::Workflow => false,
    };
    let mut message = e.human();
    if suggest {
        message.append("; [report issue?](https://github.com/pustaczek/icie/issues)");
    }
    proof {
        if !suggest {
            assert(message@ =~= shown_message(e));
        }
    }
    let mut items: Vec<ActionItem> = Vec::new();
    let mut i: usize = 0;
    while i < e.actions.len()
        invariant
            i <= e.actions@.len(),
            items@.len() == i,
            forall|k: int| 0 <= k < i ==> {
                &&& (#[trigger] items@[k]).id@ == decimal(k as nat)
                &&& items@[k].title@ == e.actions@[k].title@
                &&& !items@[k].is_close_affordance
            },
        decreases e.actions@.len() - i,
    {
        let id = usize_string(i);
        let title = e.actions[i].title.clone();
        items.push(ActionItem { id, title, is_close_affordance: false });
        i += 1;
    }
    let warning = match e.severity {
        Severity::Warning => true,
        _ => false,
    };
    ErrorReport { log_message, shown: Some(ShownMessage { message, warning, items }) }
}

/// The action that the user picked by pressing the button with answer `choice`, among
/// `n_actions` buttons; `None` when the answer names no button.
pub fn chosen_action(n_actions: usize, choice: &str) -> (r: Option<usize>)
    ensures
        r == (match parse_usize_spec(choice@) {
            Some(i) => if i < n_actions { Some(i) } else { None },
            None => None,
        }),
{
    match parse_usize(choice) {
        Some(i) => if i < n_actions { Some(i) } else { None },
        None => None,
    }
}

/// The path inside the configuration tree of the entry with identifier `id`: its
/// dot-separated parts after the first (the extension's own name).
pub fn config_path(id: &str) -> (p: Vec<String>)
    ensures
        texts(p@) == split(id@, '.').drop_first(),
{
    let parts = split_at_char(id, '.');
    proof {
        crate::text::lemma_split_nonempty(id@, '.');
    }
    let mut p: Vec<String> = Vec::new();
    let mut i: usize = 1;
    while i < parts.len()
        invariant
            1 <= i <= parts@.len(),
            p@ == parts@.subrange(1, i as int),
        decreases parts@.len() - i,
    {
        p.push(parts[i].clone());
        assert(p@ =~= parts@.subrange(1, i + 1));
        i += 1;
    }
    assert(texts(p@) =~= texts(parts@).drop_first());
    p
}

/// The report line of one invalid configuration entry.
pub fn config_error_entry(identifier: &str, id: &str, error: &str) -> (s: String)
    ensures
        s@ == identifier@ + "."@ + id@ + " ("@ + error@ + ")"@,
{
    let mut s = identifier.to_owned();
    s.append(".");
    s.append(id);
    s.append(" (");
    s.append(error);
    s.append(")");
    s
}

/// The error reported after a configuration update, given the report lines of the invalid
/// entries; `None` when all entries are valid.
pub fn config_error(errors: &Vec<String>) -> (r: Option<E>)
    ensures
        r is Some == (errors@.len() > 0),
        r matches Some(e) ==> {
            &&& e.severity == Severity::Error
            &&& e.reason_texts() == seq![
                join(texts(errors@), ", "@),
                "some configuration entries are invalid, falling back to defaults"@,
            ]
            &&& e.details@.len() == 0
            &&& e.actions@.len() == 0
            &&& e.extended@.len() == 0
        },
{
    if errors.len() == 0 {
        return None;
    }
    let all = join_strings(errors, ", ");
    let e = E::error(all.as_str()).context("some configuration entries are invalid, falling back to defaults");
    Some(e)
}

/// The position of the first command whose identifier is `id`.
pub fn find_command(ids: &Vec<String>, id: &str) -> (r: Option<usize>)
    ensures
        r matches Some(i) ==> i < ids@.len() && ids@[i as int]@ == id@ && forall|k: int|
            0 <= k < i ==> (#[trigger] ids@[k])@ != id@,
        r is None ==> forall|k: int| 0 <= k < ids@.len() ==> (#[trigger] ids@[k])@ != id@,
{
    let mut i: usize = 0;
    while i < ids.len()
        invariant
            i <= ids@.len(),
            forall|k: int| 0 <= k < i ==> (#[trigger] ids@[k])@ != id@,
        decreases ids@.len() - i,
    {
        if str_eq(ids[i].as_str(), id) {
            return Some(i);
        }
        i += 1;
    }
    None
}

/// The message shown when the extension panics, from the panic's text (`None` when it is not
/// a string) and its location as file and line (`None` when unknown).
pub fn panic_message(payload: Option<&str>, location: Option<(&str, u32)>) -> (s: String)
    ensures
        s@ == "ICIE panicked, "@ + (match payload {
            Some(p) => p@,
            None => "..."@,
        }) + " at "@ + (match location {
            Some((file, line)) => file@ + ":"@ + decimal(line as nat),
            None => "--:--"@,
        }),
{
    let mut s = String::from_str("ICIE panicked, ");
    match payload {
        Some(p) => s.append(p),
        None => s.append("..."),
    }
    s.append(" at ");
    match location {
        Some((file, line)) => {
            s.append(file);
            s.append(":");
            let l = usize_string(line as usize);
            s.append(l.as_str());
        },
        None => s.append("--:--"),
    }
    s
}

/// The log lines of two lists of messages, one after the other.
pub proof fn lemma_lines_concat(a: Seq<Seq<char>>, b: Seq<Seq<char>>)
    ensures
        lines(a + b) == lines(a) + lines(b),
    decreases b.len(),
{
    if b.len() == 0 {
        assert(a + b =~= a);
        assert(lines(a) + lines(b) =~= lines(a));
    } else {
        assert((a + b).drop_last() =~= a + b.drop_last());
        assert((a + b).last() == b.last());
        lemma_lines_concat(a, b.drop_last());
        assert(lines(a) + lines(b.drop_last()) + b.last() + seq!['\n'] =~= lines(a) + (lines(b.drop_last()) + b.last() + seq!['\n']));
    }
}

/// A reformed error still logs every earlier message: the log of an error whose reasons are
/// `[m]` and whose details are the earlier details followed by the earlier reasons starts with
/// `m`, then the earlier details, then the earlier reasons, each on a line of its own.
pub proof fn law_reformed_messages_stay_in_log(details: Seq<Seq<char>>, reasons: Seq<Seq<char>>, m: Seq<char>)
    ensures
        lines(seq![m]) + lines(details + reasons) == m + seq!['\n'] + lines(details) + lines(reasons),
{
    lemma_lines_concat(details, reasons);
    assert(seq![m].drop_last() =~= Seq::<Seq<char>>::empty());
    assert(lines(Seq::<Seq<char>>::empty()) =~= Seq::<char>::empty());
    assert(seq![m].last() == m);
    assert(seq![m].len() == 1);
    assert(lines(seq![m]) == lines(seq![m].drop_last()) + seq![m].last() + seq!['\n']);
    assert(lines(seq![m]) == lines(Seq::<Seq<char>>::empty()) + m + seq!['\n']);
    assert(lines(seq![m]) =~= m + seq!['\n']);
    assert(m + seq!['\n'] + (lines(details) + lines(reasons)) =~= m + seq!['\n'] + lines(details) + lines(reasons));
}

/// The answer of the button of each action leads back to that action.
pub proof fn law_action_answer_round_trip(n_actions: usize, i: usize)
    requires
        i < n_actions,
    ensures
        (match parse_usize_spec(decimal(i as nat)) {
            Some(k) => if k < n_actions { Some(k) } else { None },
            None => None,
        }) == Some(i),
{
    crate::text::lemma_decimal_reads_back(i as nat);
    let s = decimal(i as nat);
    assert(crate::text::is_digit(s[0]));
}


/// What the loop does with one line sent by the editor.
pub enum LineAction {
    /// The line is not valid JSON; the loop stops.
    Malformed,
    /// Hand `value`, a JSON text, to the pending request `aid`.
    Deliver { aid: u64, value: String },
    /// A reply without a non-negative integer `aid`; the loop stops.
    MissingAid,
    /// Launch the command at `index` among the known commands.
    Trigger { index: usize },
    /// A trigger without a string `command_id`; the loop stops.
    MissingCommandId,
    /// A trigger of a command that is not known; the loop stops.
    UnknownCommand { id: String },
    /// The configuration changed: the JSON text of the new value of each entry, in the order
    /// of the entries.
    Config { values: Vec<String> },
    /// The workspace directory, if one is open, and the extension's directory (the loop stops
    /// when it is missing).
    Meta { workspace: Option<String>, extension: Option<String> },
    /// The extension is shutting down.
    Dispose,
    /// Echo the message, given as its JSON text, back as a console error.
    Echo { message: String },
}

/// The mathematical model of [`LineAction`].
pub enum LineActionView {
    Malformed,
    Deliver { aid: u64, value: Seq<char> },
    MissingAid,
    Trigger { index: nat },
    MissingCommandId,
    UnknownCommand { id: Seq<char> },
    Config { values: Seq<Seq<char>> },
    Meta { workspace: Option<Seq<char>>, extension: Option<Seq<char>> },
    Dispose,
    Echo { message: Seq<char> },
}

impl View for LineAction {
    type V = LineActionView;

    open spec fn view(&self) -> LineActionView {
        match *self {
            LineAction::Malformed => LineActionView::Malformed,
            LineAction::Deliver { aid, value } => LineActionView::Deliver { aid, value: value@ },
            LineAction::MissingAid => LineActionView::MissingAid,
            LineAction::Trigger { index } => LineActionView::Trigger { index: index as nat },
            LineAction::MissingCommandId => LineActionView::MissingCommandId,
            LineAction::UnknownCommand { id } => LineActionView::UnknownCommand { id: id@ },
            LineAction::Config { values } => LineActionView::Config { values: texts(values@) },
            LineAction::Meta { workspace, extension } => LineActionView::Meta {
                workspace: opt_text(workspace),
                extension: opt_text(extension),
            },
            LineAction::Dispose => LineActionView::Dispose,
            LineAction::Echo { message } => LineActionView::Echo { message: message@ },
        }
    }
}

/// What the loop does with a line read as `parsed` (the top level of the document and its
/// JSON text; `None` when the line is not JSON), given the identifiers of the commands and of
/// the configuration entries.
pub open spec fn line_action_spec(
    parsed: Option<(JsonView, Seq<char>)>,
    command_ids: Seq<Seq<char>>,
    config_ids: Seq<Seq<char>>,
) -> LineActionView {
    match parsed {
        None => LineActionView::Malformed,
        Some((node, text)) => match impulse_of(str_of(member_or_null(node, "tag"@))) {
            Impulse::Async => match u64_of(member_or_null(node, "aid"@)) {
                Some(aid) => LineActionView::Deliver { aid, value: member_or_null(node, "value"@) },
                None => LineActionView::MissingAid,
            },
            Impulse::Trigger => match str_of(member_or_null(node, "command_id"@)) {
                Some(id) => match first_index(command_ids, id) {
                    Some(index) => LineActionView::Trigger { index },
                    None => LineActionView::UnknownCommand { id },
                },
                None => LineActionView::MissingCommandId,
            },
            Impulse::Config => LineActionView::Config {
                values: config_ids.map_values(
                    |id: Seq<char>|
                        value_at(member_or_null(node, "tree"@), split(id, '.').drop_first()),
                ),
            },
            Impulse::Meta => LineActionView::Meta {
                workspace: str_of(member_or_null(node, "workspace"@)),
                extension: str_of(member_or_null(node, "extension"@)),
            },
            Impulse::Dispose => LineActionView::Dispose,
            Impulse::Unknown => LineActionView::Echo { message: text },
        },
    }
}

/// The new values of the configuration entries `config_ids` in the configuration `tree`.
fn config_values(tree: &str, config_ids: &Vec<String>) -> (values: Vec<String>)
    ensures
        texts(values@) == texts(config_ids@).map_values(
            |id: Seq<char>| value_at(tree@, split(id, '.').drop_first()),
        ),
{
    let ghost want = texts(config_ids@).map_values(
        |id: Seq<char>| value_at(tree@, split(id, '.').drop_first()),
    );
    let mut values: Vec<String> = Vec::new();
    let mut i: usize = 0;
    while i < config_ids.len()
        invariant
            i <= config_ids@.len(),
            want == texts(config_ids@).map_values(
                |id: Seq<char>| value_at(tree@, split(id, '.').drop_first()),
            ),
            values@.len() == i,
            texts(values@) == want.subrange(0, i as int),
        decreases config_ids@.len() - i,
    {
        let path = config_path(config_ids[i].as_str());
        let value = value_at_path(tree, &path);
        assert(want[i as int] == value@);
        let ghost before = values@;
        values.push(value);
        assert forall|k: int| 0 <= k < i + 1 implies #[trigger] texts(values@)[k] == want[k] by {
            if k < i {
                assert(values@[k] == before[k]);
                assert(texts(before)[k] == want.subrange(0, i as int)[k]);
            }
        }
        assert(texts(values@) =~= want.subrange(0, i + 1));
        i += 1;
    }
    assert(want.subrange(0, i as int) =~= want);
    values
}

/// What the loop does with a line read as `parsed`, given the identifiers of the commands
/// and of the configuration entries.
pub fn action_of(parsed: Option<(Json, String)>, command_ids: &Vec<String>, config_ids: &Vec<String>) -> (a: LineAction)
    ensures
        a@ == line_action_spec(parsed_view(parsed), texts(command_ids@), texts(config_ids@)),
{
    let (node, text) = match parsed {
        Some(p) => p,
        None => return LineAction::Malformed,
    };
    let tag_text = member_text(&node, "tag");
    let tag = text_str(tag_text.as_str());
    let kind = match &tag {
        Some(t) => classify_impulse(Some(t.as_str())),
        None => classify_impulse(None),
    };
    match kind {
        Impulse::Async => {
            let aid_text = member_text(&node, "aid");
            match text_u64(aid_text.as_str()) {
                Some(aid) => LineAction::Deliver { aid, value: member_text(&node, "value") },
                None => LineAction::MissingAid,
            }
        },
        Impulse::Trigger => {
            let id_text = member_text(&node, "command_id");
            match text_str(id_text.as_str()) {
                Some(id) => {
                    let found = find_command(command_ids, id.as_str());
                    let ghost ids = texts(command_ids@);
                    match found {
                        Some(index) => {
                            proof {
                                assert forall|k: int| 0 <= k < index implies ids[k] != id@ by {
                                    assert(ids[k] == command_ids@[k]@);
                                }
                                lemma_first_index(ids, id@, index as int);
                            }
                            LineAction::Trigger { index }
                        },
                        None => {
                            proof {
                                assert forall|k: int| 0 <= k < ids.len() implies ids[k] != id@ by {
                                    assert(ids[k] == command_ids@[k]@);
                                }
                                lemma_first_index(ids, id@, ids.len() as int);
                            }
                            LineAction::UnknownCommand { id }
                        },
                    }
                },
                None => LineAction::MissingCommandId,
            }
        },
        Impulse::Config => {
            let tree = member_text(&node, "tree");
            LineAction::Config { values: config_values(tree.as_str(), config_ids) }
        },
        Impulse::Meta => {
            let workspace = member_text(&node, "workspace");
            let extension = member_text(&node, "extension");
            LineAction::Meta {
                workspace: text_str(workspace.as_str()),
                extension: text_str(extension.as_str()),
            }
        },
        Impulse::Dispose => LineAction::Dispose,
        Impulse::Unknown => LineAction::Echo { message: text },
    }
}

/// What the loop does with the line `line` sent by the editor, given the identifiers of the
/// commands and of the configuration entries.
pub fn line_action(line: &str, command_ids: &Vec<String>, config_ids: &Vec<String>) -> (a: LineAction)
    ensures
        a@ == line_action_spec(json_of_line(line@), texts(command_ids@), texts(config_ids@)),
{
    let parsed = parse_line(line);
    action_of(parsed, command_ids, config_ids)
}

} // verus!
