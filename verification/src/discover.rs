//! Discovery of failing tests: a worker generates random tests, runs a slow reference solution
//! and the user's solution on them, and reports each test as a row; a manager relays the
//! user's orders to the worker and the rows to the view, keeping the best failing test.
//! Here stand the decisions of both, and the choice of the id under which a test is saved.

use vstd::prelude::*;
use vstd::string::StringExecFns;
use vstd::string::StringSliceAdditionalSpecFns;
use crate::error::E;
use crate::json::{field_str, str_of, text_member};
use crate::text::{decimal, parse_i64, parse_i64_spec, str_eq, texts, usize_string};

verus! {

/// Messages from the view.
pub enum Note {
    Start,
    Pause,
    Reset,
    /// Save the given test input as a new test.
    Save { input: String },
}

/// The note that a message of the view stands for, given the message's JSON text: its
/// `tag` names the note, and a save carries the test input under `input`. `None` for any
/// other message.
pub fn note_of(text: &str) -> (r: Option<Note>)
    ensures
        ({
            let tag = str_of(text_member(text@, "tag"@));
            if tag == Some("discovery_start"@) {
                r matches Some(Note::Start)
            } else if tag == Some("discovery_pause"@) {
                r matches Some(Note::Pause)
            } else if tag == Some("discovery_reset"@) {
                r matches Some(Note::Reset)
            } else if tag == Some("discovery_save"@) {
                match str_of(text_member(text@, "input"@)) {
                    Some(i) => r matches Some(Note::Save { input }) && input@ == i,
                    None => r is None,
                }
            } else {
                r is None
            }
        }),
{
    let tag = match field_str(text, "tag") {
        Some(t) => t,
        None => return None,
    };
    if str_eq(tag.as_str(), "discovery_start") {
        Some(Note::Start)
    } else if str_eq(tag.as_str(), "discovery_pause") {
        Some(Note::Pause)
    } else if str_eq(tag.as_str(), "discovery_reset") {
        Some(Note::Reset)
    } else if str_eq(tag.as_str(), "discovery_save") {
        match field_str(text, "input") {
            Some(input) => Some(Note::Save { input }),
            None => None,
        }
    } else {
        None
    }
}

/// Messages to the view.
pub enum Food<O> {
    /// Whether the worker runs, and whether the table of rows was cleared.
    State { running: bool, reset: bool },
    /// One test; `input` is sent only for a new best failing test.
    Row { number: usize, outcome: O, fitness: i64, input: Option<String> },
}

/// Orders from the manager to the worker.
#[derive(Clone, Copy, Debug, PartialEq, Eq, Structural)]
pub enum WorkerOrder {
    Start,
    Pause,
    Reset,
}

/// One test run by the worker.
pub struct Row<O> {
    pub number: usize,
    pub solution: O,
    /// Higher is better: the negated input length, so that shorter failing tests win.
    pub fitness: i64,
    pub input: String,
}

/// What the manager receives: a note from the view, a row from the worker together with
/// whether the solution passed it, or the worker's failure.
pub enum ManagerMessage<O> {
    Note(Note),
    Report { row: Row<O>, success: bool },
    WorkerFailed(E),
}

/// The manager's state.
pub struct ManagerState {
    /// Fitness of the best failing test seen since the last reset.
    pub best_fitness: Option<i64>,
    pub paused: bool,
}

/// What the manager does in answer to one message.
pub struct ManagerStep<O> {
    /// The order sent to the worker, if any.
    pub order: Option<WorkerOrder>,
    /// The message posted to the view.
    pub food: Food<O>,
    /// A test input to save as a new test, in the background.
    pub add_test: Option<String>,
    /// An error to show.
    pub emit: Option<E>,
}

/// Whether a row is a new best failing test, given the best fitness so far.
pub open spec fn is_new_best(best: Option<i64>, success: bool, fitness: i64) -> bool {
    !success && match best {
        Some(bf) => bf < fitness,
        None => true,
    }
}

/// What a message means for the best fitness.
pub enum BestEvent {
    /// A reset or a failure of the worker: the best is forgotten.
    Clear,
    /// A test row.
    Row { success: bool, fitness: i64 },
    /// Anything else.
    Keep,
}

/// The meaning of a message for the best fitness.
pub open spec fn best_event<O>(msg: ManagerMessage<O>) -> BestEvent {
    match msg {
        ManagerMessage::Note(Note::Reset) => BestEvent::Clear,
        ManagerMessage::WorkerFailed(_) => BestEvent::Clear,
        ManagerMessage::Report { row, success } => BestEvent::Row { success, fitness: row.fitness },
        _ => BestEvent::Keep,
    }
}

/// The best fitness after one more message.
pub open spec fn best_step(best: Option<i64>, ev: BestEvent) -> Option<i64> {
    match ev {
        BestEvent::Clear => None,
        BestEvent::Row { success, fitness } => if is_new_best(best, success, fitness) { Some(fitness) } else { best },
        BestEvent::Keep => best,
    }
}

/// The best fitness after a sequence of messages, from the opening of the view.
pub open spec fn best_after(evs: Seq<BestEvent>) -> Option<i64>
    decreases evs.len(),
{
    if evs.len() == 0 {
        None
    } else {
        best_step(best_after(evs.drop_last()), evs.last())
    }
}

/// The fitnesses of the failing rows since the last reset or worker failure.
pub open spec fn failing_since_clear(evs: Seq<BestEvent>) -> Seq<i64>
    decreases evs.len(),
{
    if evs.len() == 0 {
        seq![]
    } else {
        let prev = failing_since_clear(evs.drop_last());
        match evs.last() {
            BestEvent::Clear => seq![],
            BestEvent::Row { success, fitness } => if success { prev } else { prev.push(fitness) },
            BestEvent::Keep => prev,
        }
    }
}

impl ManagerState {
    /// The state when the view opens.
    pub fn new() -> (s: ManagerState)
        ensures
            s.best_fitness is None,
            !s.paused,
    {
        ManagerState { best_fitness: None, paused: false }
    }

    /// Handle one message.
    pub fn step<O>(&mut self, msg: ManagerMessage<O>) -> (r: ManagerStep<O>)
        ensures
            final(self).best_fitness == best_step(old(self).best_fitness, best_event(msg)),
            match msg {
                ManagerMessage::Note(Note::Start) => {
                    &&& final(self).best_fitness == old(self).best_fitness
                    &&& !final(self).paused
                    &&& r.order == Some(WorkerOrder::Start)
                    &&& r.food == Food::<O>::State { running: true, reset: false }
                    &&& r.add_test is None
                    &&& r.emit is None
                },
                ManagerMessage::Note(Note::Pause) => {
                    &&& final(self).best_fitness == old(self).best_fitness
                    &&& final(self).paused
                    &&& r.order == Some(WorkerOrder::Pause)
                    &&& r.food == Food::<O>::State { running: false, reset: false }
                    &&& r.add_test is None
                    &&& r.emit is None
                },
                ManagerMessage::Note(Note::Reset) => {
                    &&& final(self).best_fitness is None
                    &&& !final(self).paused
                    &&& r.order == Some(WorkerOrder::Reset)
                    &&& r.food == Food::<O>::State { running: false, reset: true }
                    &&& r.add_test is None
                    &&& r.emit is None
                },
                ManagerMessage::Note(Note::Save { input }) => {
                    &&& final(self).best_fitness == old(self).best_fitness
                    &&& final(self).paused
                    &&& r.order == (if old(self).paused { None } else { Some(WorkerOrder::Pause) })
                    &&& r.food == Food::<O>::State { running: false, reset: false }
                    &&& r.add_test == Some(input)
                    &&& r.emit is None
                },
                ManagerMessage::Report { row, success } => {
                    let best = is_new_best(old(self).best_fitness, success, row.fitness);
                    &&& final(self).best_fitness == (if best { Some(row.fitness) } else { old(self).best_fitness })
                    &&& final(self).paused == old(self).paused
                    &&& r.order is None
                    &&& r.food == Food::Row {
                        number: row.number,
                        outcome: row.solution,
                        fitness: row.fitness,
                        input: if best { Some(row.input) } else { None },
                    }
                    &&& r.add_test is None
                    &&& r.emit is None
                },
                ManagerMessage::WorkerFailed(e) => {
                    &&& final(self).best_fitness is None
                    &&& !final(self).paused
                    &&& r.order is None
                    &&& r.food == Food::<O>::State { running: false, reset: true }
                    &&& r.add_test is None
                    &&& r.emit == Some(e)
                },
            },
    {
        match msg {
            ManagerMessage::Note(note) => match note {
                Note::Start => {
                    self.paused = false;
                    ManagerStep { order: Some(WorkerOrder::Start), food: Food::State { running: true, reset: false }, add_test: None, emit: None }
                },
                Note::Pause => {
                    self.paused = true;
                    ManagerStep { order: Some(WorkerOrder::Pause), food: Food::State { running: false, reset: false }, add_test: None, emit: None }
                },
                Note::Reset => {
                    self.best_fitness = None;
                    self.paused = false;
                    ManagerStep { order: Some(WorkerOrder::Reset), food: Food::State { running: false, reset: true }, add_test: None, emit: None }
                },
                Note::Save { input } => {
                    let order = if !self.paused {
                        self.paused = true;
                        Some(WorkerOrder::Pause)
                    } else {
                        None
                    };
                    ManagerStep { order, food: Food::State { running: false, reset: false }, add_test: Some(input), emit: None }
                },
            },
            ManagerMessage::Report { row, success } => {
                let is_failed = !success;
                let new_best = is_failed && match self.best_fitness {
                    Some(bf) => bf < row.fitness,
                    None => true,
                };
                if new_best {
                    self.best_fitness = Some(row.fitness);
                }
                let input = if new_best { Some(row.input) } else { None };
                ManagerStep {
                    order: None,
                    food: Food::Row { number: row.number, outcome: row.solution, fitness: row.fitness, input },
                    add_test: None,
                    emit: None,
                }
            },
            ManagerMessage::WorkerFailed(e) => {
                self.best_fitness = None;
                self.paused = false;
                ManagerStep { order: None, food: Food::State { running: false, reset: true }, add_test: None, emit: Some(e) }
            },
        }
    }
}

/// What the idle worker does with the next order (`None` when the manager is gone).
#[derive(Clone, Copy, Debug, PartialEq, Eq, Structural)]
pub enum IdleDecision {
    /// Start a discovery run.
    Run,
    /// Keep waiting for a start.
    KeepWaiting,
    /// Stop the worker.
    Exit,
}

/// The worker waits for a start; pauses and resets do nothing while it is idle.
pub fn while_idle(order: Option<WorkerOrder>) -> (d: IdleDecision)
    ensures
        d == match order {
            Some(WorkerOrder::Start) => IdleDecision::Run,
            Some(_) => IdleDecision::KeepWaiting,
            None => IdleDecision::Exit,
        },
{
    match order {
        Some(WorkerOrder::Start) => IdleDecision::Run,
        Some(WorkerOrder::Pause) | Some(WorkerOrder::Reset) => IdleDecision::KeepWaiting,
        None => IdleDecision::Exit,
    }
}

/// What the worker finds when it checks for an order before each test.
pub enum Polled {
    Order(WorkerOrder),
    /// The manager is gone.
    Closed,
    /// No order is waiting.
    Nothing,
}

/// What a running worker does before each test.
#[derive(Clone, Copy, Debug, PartialEq, Eq, Structural)]
pub enum RunDecision {
    /// Run the next test.
    Test,
    /// Wait until the manager orders a start, then run the next test.
    Pause,
    /// End the run and go idle.
    Stop,
    /// Abort the run as cancelled.
    Cancel,
}

/// A running worker carries on unless paused, reset or orphaned.
pub fn before_test(p: Polled) -> (d: RunDecision)
    ensures
        d == match p {
            Polled::Order(WorkerOrder::Start) => RunDecision::Test,
            Polled::Order(WorkerOrder::Pause) => RunDecision::Pause,
            Polled::Order(WorkerOrder::Reset) => RunDecision::Stop,
            Polled::Closed => RunDecision::Cancel,
            Polled::Nothing => RunDecision::Test,
        },
{
    match p {
        Polled::Order(WorkerOrder::Start) => RunDecision::Test,
        Polled::Order(WorkerOrder::Pause) => RunDecision::Pause,
        Polled::Order(WorkerOrder::Reset) => RunDecision::Stop,
        Polled::Closed => RunDecision::Cancel,
        Polled::Nothing => RunDecision::Test,
    }
}

/// What a paused worker does with the next order.
#[derive(Clone, Copy, Debug, PartialEq, Eq, Structural)]
pub enum PausedDecision {
    Resume,
    KeepWaiting,
    Cancel,
}

/// A paused worker resumes on a start; a reset or the manager's departure cancels the run.
pub fn while_paused(order: Option<WorkerOrder>) -> (d: PausedDecision)
    ensures
        d == match order {
            Some(WorkerOrder::Start) => PausedDecision::Resume,
            Some(WorkerOrder::Pause) => PausedDecision::KeepWaiting,
            _ => PausedDecision::Cancel,
        },
{
    match order {
        Some(WorkerOrder::Start) => PausedDecision::Resume,
        Some(WorkerOrder::Pause) => PausedDecision::KeepWaiting,
        Some(WorkerOrder::Reset) => PausedDecision::Cancel,
        None => PausedDecision::Cancel,
    }
}

/// The fitness of a test input: its length in bytes, negated.
pub fn fitness(input: &str) -> (f: i64)
    requires
        input.spec_bytes().len() <= isize::MAX,
    ensures
        f == -(input.spec_bytes().len() as int),
{
    let n = input.len();
    assert(n as int == input.spec_bytes().len());
    -(n as i64)
}

/// The numbering of the rows of one discovery run.
pub struct WorkerRun {
    next_number: usize,
}

impl WorkerRun {
    /// The number of the next row.
    pub closed spec fn next_number(&self) -> usize {
        self.next_number
    }

    /// A run whose first row is number 1.
    pub fn new() -> (w: WorkerRun)
        ensures
            w.next_number() == 1,
    {
        WorkerRun { next_number: 1 }
    }

    /// The number of the next row.
    pub fn next(&self) -> (n: usize)
        ensures
            n == self.next_number(),
    {
        self.next_number
    }

    /// The row of the next test, with its number and fitness; rows are numbered 1, 2, 3, ...
    pub fn row<O>(&mut self, solution: O, input: String) -> (r: Row<O>)
        requires
            old(self).next_number() < usize::MAX,
            vstd::utf8::encode_utf8(input@).len() <= isize::MAX,
        ensures
            r.number == old(self).next_number(),
            r.solution == solution,
            r.fitness == -(vstd::utf8::encode_utf8(input@).len() as int),
            r.input == input,
            final(self).next_number() == old(self).next_number() + 1,
    {
        let number = self.next_number;
        self.next_number = self.next_number + 1;
        let fitness = fitness(input.as_str());
        Row { number, solution, fitness, input }
    }
}

/// The ids of the saved tests, from the stems of the file names in the tests directory:
/// those that read as integers, in order.
pub fn used_test_ids(stems: &Vec<String>) -> (ids: Vec<i64>)
    ensures
        ids@ == used_ids_spec(texts(stems@)),
{
    let ghost t = texts(stems@);
    let mut ids: Vec<i64> = Vec::new();
    let mut i: usize = 0;
    while i < stems.len()
        invariant
            i <= stems@.len(),
            t == texts(stems@),
            ids@ == used_ids_spec(t.take(i as int)),
        decreases stems@.len() - i,
    {
        proof {
            assert(t.take(i + 1).drop_last() =~= t.take(i as int));
            assert(t.take(i + 1).last() == stems@[i as int]@);
        }
        match parse_i64(stems[i].as_str()) {
            Some(v) => ids.push(v),
            None => {},
        }
        i += 1;
    }
    assert(t.take(i as int) =~= t);
    ids
}

/// The integers among the stems, in order.
pub open spec fn used_ids_spec(stems: Seq<Seq<char>>) -> Seq<i64>
    decreases stems.len(),
{
    if stems.len() == 0 {
        seq![]
    } else {
        let rest = used_ids_spec(stems.drop_last());
        match parse_i64_spec(stems.last()) {
            Some(v) => rest.push(v),
            None => rest,
        }
    }
}

/// `id` is the least integer from 1 on that `used` does not hold.
pub open spec fn is_mex(used: Seq<i64>, id: int) -> bool {
    &&& 1 <= id
    &&& !used.contains(id as i64)
    &&& forall|k: int| 1 <= k < id ==> used.contains(#[trigger] (k as i64))
}

/// Whether `used` holds `c`.
fn holds(used: &Vec<i64>, c: i64) -> (r: bool)
    ensures
        r == used@.contains(c),
{
    let mut i: usize = 0;
    while i < used.len()
        invariant
            i <= used@.len(),
            forall|k: int| 0 <= k < i ==> used@[k] != c,
        decreases used@.len() - i,
    {
        if used[i] == c {
            return true;
        }
        i += 1;
    }
    false
}

/// The id for a new test: the least positive integer that no saved test uses.
pub fn fresh_test_id(used: &Vec<i64>) -> (id: i64)
    requires
        used@.len() < i64::MAX,
    ensures
        is_mex(used@, id as int),
        id <= used@.len() + 1,
{
    let n = used.len();
    let limit = n as i64 + 1;
    let mut c: i64 = 1;
    while c < limit
        invariant
            n == used@.len(),
            limit == n + 1,
            1 <= c <= limit,
            forall|k: int| 1 <= k < c ==> used@.contains(#[trigger] (k as i64)),
        decreases limit - c,
    {
        if !holds(used, c) {
            return c;
        }
        c += 1;
    }
    proof {
        // `used` holds all of 1..=n; with only n elements it cannot hold n+1 as well.
        if used@.contains(c) {
            lemma_pigeonhole(used@, n as int);
            let k = choose|k: int| 1 <= k <= n + 1 && !used@.contains(#[trigger] (k as i64));
            assert(k < c);
        }
    }
    c
}

/// A sequence of `n` integers misses one of `1..=n+1`.
proof fn lemma_pigeonhole(used: Seq<i64>, n: int)
    requires
        used.len() == n,
        n < i64::MAX,
    ensures
        exists|k: int| 1 <= k <= n + 1 && !used.contains(#[trigger] (k as i64)),
{
    if forall|k: int| 1 <= k <= n + 1 ==> used.contains(#[trigger] (k as i64)) {
        let ints = used.map_values(|x: i64| x as int);
        let range = vstd::set_lib::set_int_range(1, n + 2);
        vstd::set_lib::lemma_int_range(1, n + 2);
        ints.lemma_cardinality_of_set();
        assert(ints.len() == n);
        assert forall|k: int| range.contains(k) implies ints.to_set().contains(k) by {
            assert(used.contains(k as i64));
            let j = choose|j: int| 0 <= j < used.len() && used[j] == k as i64;
            assert(ints[j] == k);
        }
        broadcast use vstd::seq_lib::seq_to_set_is_finite;
        vstd::set_lib::lemma_len_subset(range, ints.to_set());
    }
}

/// The number of integers among the stems is at most the number of stems.
pub proof fn lemma_used_ids_len(stems: Seq<Seq<char>>)
    ensures
        used_ids_spec(stems).len() <= stems.len(),
    decreases stems.len(),
{
    if stems.len() > 0 {
        lemma_used_ids_len(stems.drop_last());
    }
}

/// The file names of a new test, given the stems of the file names in the tests directory:
/// the least positive integer that no saved test uses, with the input and output extensions.
pub fn add_test(stems: &Vec<String>) -> (names: (String, String))
    requires
        stems@.len() < i64::MAX,
        stems@.len() < usize::MAX,
    ensures
        exists|id: int| {
            &&& is_mex(used_ids_spec(texts(stems@)), id)
            &&& names.0@ == decimal(id as nat) + ".in"@
            &&& names.1@ == decimal(id as nat) + ".out"@
            &&& forall|k: int| 0 <= k < stems@.len() ==> parse_i64_spec(#[trigger] texts(stems@)[k]) != Some(id as i64)
            &&& forall|n: int| 1 <= n < id ==> #[trigger] is_test_number(texts(stems@), n)
        },
{
    let used = used_test_ids(stems);
    proof {
        lemma_used_ids_len(texts(stems@));
    }
    let id = fresh_test_id(&used);
    proof {
        law_new_test_number_is_least_unused(texts(stems@), id as int);
    }
    test_file_names(id as usize)
}

/// The file names of the input and the desired output of the test with the given id.
pub fn test_file_names(id: usize) -> (names: (String, String))
    ensures
        names.0@ == decimal(id as nat) + ".in"@,
        names.1@ == decimal(id as nat) + ".out"@,
{
    let stem = usize_string(id);
    let mut input = stem.clone();
    input.append(".in");
    let mut output = stem;
    output.append(".out");
    (input, output)
}

/// Between resets, the best fitness never decreases, and a test that the solution passed is
/// never taken as the best.
pub proof fn law_best_fitness_never_decreases(best: Option<i64>, success: bool, fitness: i64)
    ensures
        success ==> !is_new_best(best, success, fitness),
        best matches Some(b) ==> (if is_new_best(best, success, fitness) { fitness } else { b }) >= b,
        is_new_best(best, success, fitness) ==> (best matches Some(b) ==> fitness > b),
{
}

/// Over any sequence of messages, the best fitness is the greatest fitness of the failing
/// rows since the last reset or worker failure, and there is none when there was no such row.
pub proof fn law_best_is_greatest_failing(evs: Seq<BestEvent>)
    ensures
        best_after(evs) is None <==> failing_since_clear(evs).len() == 0,
        best_after(evs) matches Some(b) ==> failing_since_clear(evs).contains(b) && forall|i: int|
            0 <= i < failing_since_clear(evs).len() ==> #[trigger] failing_since_clear(evs)[i] <= b,
    decreases evs.len(),
{
    if evs.len() > 0 {
        let pre = evs.drop_last();
        law_best_is_greatest_failing(pre);
        let l0 = failing_since_clear(pre);
        match evs.last() {
            BestEvent::Row { success, fitness } => {
                if !success {
                    let l = l0.push(fitness);
                    assert(l[l.len() - 1] == fitness);
                    if is_new_best(best_after(pre), success, fitness) {
                        assert forall|i: int| 0 <= i < l.len() implies #[trigger] l[i] <= fitness by {
                            if i < l0.len() {
                                assert(l[i] == l0[i]);
                            }
                        }
                    } else {
                        let b = best_after(pre)->0;
                        let k = choose|k: int| 0 <= k < l0.len() && l0[k] == b;
                        assert(l[k] == b);
                        assert forall|i: int| 0 <= i < l.len() implies #[trigger] l[i] <= b by {
                            if i < l0.len() {
                                assert(l[i] == l0[i]);
                            }
                        }
                    }
                }
            },
            _ => {},
        }
    }
}

/// A row is posted as the new best failing test exactly when the solution failed it and its
/// fitness is greater than that of every failing row since the last reset or worker failure.
pub proof fn law_posted_best_beats_all_failing(evs: Seq<BestEvent>, success: bool, fitness: i64)
    ensures
        is_new_best(best_after(evs), success, fitness) <==> (!success && forall|i: int|
            0 <= i < failing_since_clear(evs).len() ==> #[trigger] failing_since_clear(evs)[i] < fitness),
{
    law_best_is_greatest_failing(evs);
    let l = failing_since_clear(evs);
    if let Some(b) = best_after(evs) {
        let k = choose|k: int| 0 <= k < l.len() && l[k] == b;
        if !success && forall|i: int| 0 <= i < l.len() ==> #[trigger] l[i] < fitness {
            assert(l[k] < fitness);
        }
    }
}


/// Every stem that reads as an integer is counted as a used id ...
pub proof fn law_numbered_stems_are_used(stems: Seq<Seq<char>>, k: int)
    requires
        0 <= k < stems.len(),
    ensures
        parse_i64_spec(stems[k]) matches Some(v) ==> used_ids_spec(stems).contains(v),
    decreases stems.len(),
{
    let rest = stems.drop_last();
    if k < stems.len() - 1 {
        law_numbered_stems_are_used(rest, k);
        assert(rest[k] == stems[k]);
        if let Some(v) = parse_i64_spec(stems[k]) {
            let i = choose|i: int| 0 <= i < used_ids_spec(rest).len() && used_ids_spec(rest)[i] == v;
            match parse_i64_spec(stems.last()) {
                Some(w) => assert(used_ids_spec(stems)[i] == v),
                None => {},
            }
        }
    } else {
        if let Some(v) = parse_i64_spec(stems[k]) {
            assert(used_ids_spec(stems).last() == v);
        }
    }
}

/// ... and every used id is the number of some stem.
pub proof fn law_used_ids_come_from_stems(stems: Seq<Seq<char>>, v: i64)
    requires
        used_ids_spec(stems).contains(v),
    ensures
        exists|k: int| 0 <= k < stems.len() && parse_i64_spec(#[trigger] stems[k]) == Some(v),
    decreases stems.len(),
{
    let rest = stems.drop_last();
    let n = stems.len() - 1;
    if parse_i64_spec(stems.last()) == Some(v) {
        assert(parse_i64_spec(stems[n]) == Some(v));
    } else {
        let i = choose|i: int| 0 <= i < used_ids_spec(stems).len() && used_ids_spec(stems)[i] == v;
        match parse_i64_spec(stems.last()) {
            Some(w) => {
                assert(i < used_ids_spec(rest).len());
                assert(used_ids_spec(rest)[i] == v);
            },
            None => {},
        }
        assert(used_ids_spec(rest).contains(v));
        law_used_ids_come_from_stems(rest, v);
        let k = choose|k: int| 0 <= k < rest.len() && parse_i64_spec(#[trigger] rest[k]) == Some(v);
        assert(stems[k] == rest[k]);
    }
}

/// Some stem reads as the number `n`.
pub open spec fn is_test_number(stems: Seq<Seq<char>>, n: int) -> bool {
    exists|k: int| 0 <= k < stems.len() && parse_i64_spec(#[trigger] stems[k]) == Some(n as i64)
}

/// A new test never takes the number of an existing test, and every smaller positive number
/// is the number of an existing test.
pub proof fn law_new_test_number_is_least_unused(stems: Seq<Seq<char>>, id: int)
    requires
        is_mex(used_ids_spec(stems), id),
    ensures
        1 <= id,
        forall|k: int| 0 <= k < stems.len() ==> parse_i64_spec(#[trigger] stems[k]) != Some(id as i64),
        forall|n: int| 1 <= n < id ==> #[trigger] is_test_number(stems, n),
{
    assert forall|k: int| 0 <= k < stems.len() implies parse_i64_spec(#[trigger] stems[k]) != Some(id as i64) by {
        law_numbered_stems_are_used(stems, k);
    }
    assert forall|n: int| 1 <= n < id implies #[trigger] is_test_number(stems, n) by {
        assert(used_ids_spec(stems).contains(n as i64));
        law_used_ids_come_from_stems(stems, n as i64);
    }
}

} // verus!
