//! A live agent session's decisions: its identity, its counters, when a mode switch may
//! proceed, what a transcript says about how the last turn went, and which approval
//! requests the host answers on the user's behalf.
//!
//! The session's process, its streams and its locks are the host's; the rules they feed are
//! here, over values the host reads out of them.
use vstd::prelude::*;

pub use crate::clock::now_ms;
use crate::dto::{opt_view, CounterSnapshot, RowSnapshot, ThreadEvent, ThreadSnapshot, UiAnswer};
use crate::notify::{Facts, FactsView};
use crate::order::views;
use crate::paths::{file_name, file_name_spec};
use crate::policy::{tool_name_verdict, validate_tool_name};
use crate::text::{blank, is_blank, lines, lines_spec, prefix_of, starts_with, str_eq, trim, trim_str};

verus! {

/// How often published rows are coalesced, in milliseconds.
pub const ROWS_PUBLISH_INTERVAL_MS: u64 = 100;

/// How often a pending mode switch re-reads the engine's state, in milliseconds.
pub const MODE_SWITCH_POLL_INTERVAL_MS: u64 = 200;

/// How long a sidecar gets to drain before it is killed, in seconds.
pub const SHUTDOWN_GRACE_SECS: u64 = 5;

/// How long an automatic title may take, in seconds.
pub const TITLE_GENERATION_TIMEOUT_SECS: u64 = 120;

/// The subagent subscription level a session asks for.
pub const SUBAGENT_SUBSCRIPTION: &'static str = "progress";

/// The engine's session id, as a value that can move: a branch moves a thread to a new
/// session in the same sidecar, and every event after it is tagged with the new id.
///
/// There is one of these per thread, and it is not copied: the registry, the tag on every
/// published event and the catalogue's row all read the one the host keeps behind a single
/// shared lock, so a move is seen by every reader at once rather than by one of several
/// copies. The sharing itself is the host's; this is the value under the lock.
#[derive(Debug, Default)]
pub struct ThreadId {
    id: String,
}

impl View for ThreadId {
    type V = Seq<char>;

    closed spec fn view(&self) -> Seq<char> {
        self.id@
    }
}

impl ThreadId {
    pub fn new(id: String) -> (r: ThreadId)
        ensures
            r@ == id@,
    {
        ThreadId { id }
    }

    /// The id the engine is reporting right now.
    pub fn current(&self) -> (r: String)
        ensures
            r@ == self@,
    {
        self.id.clone()
    }

    /// Follow the engine to the session it just moved this thread to.
    pub fn set(&mut self, id: String)
        ensures
            final(self)@ == id@,
    {
        self.id = id;
    }
}

/// The transport's counters for one session.
#[derive(Debug, Default, Clone, Copy)]
pub struct Counters {
    pub events_seen: u64,
    pub frames_seen: u64,
    pub distinct_kinds: u64,
    pub unknown_events: u64,
    pub malformed_events: u64,
    pub lagged_events: u64,
    /// Every host request seen, informational ones included.
    pub ui_requests: u64,
    /// The subset that block the run until the host answers: only these mean the agent is
    /// stuck.
    pub blocking_ui_requests: u64,
}

impl Counters {
    /// The counters as the debug pane shows them.
    pub fn snapshot(&self) -> (r: CounterSnapshot)
        ensures
            r.events_seen == self.events_seen,
            r.frames_seen == self.frames_seen,
            r.event_kinds == self.distinct_kinds,
            r.unknown_events == self.unknown_events,
            r.malformed_events == self.malformed_events,
            r.lagged_events == self.lagged_events,
            r.ui_requests == self.ui_requests,
            r.blocking_ui_requests == self.blocking_ui_requests,
    {
        CounterSnapshot {
            events_seen: self.events_seen,
            frames_seen: self.frames_seen,
            event_kinds: self.distinct_kinds,
            unknown_events: self.unknown_events,
            malformed_events: self.malformed_events,
            lagged_events: self.lagged_events,
            ui_requests: self.ui_requests,
            blocking_ui_requests: self.blocking_ui_requests,
        }
    }
}

/// The fields of a session's control state a mode switch waits on.
#[derive(Debug, Clone, Copy, PartialEq, Eq)]
pub struct ControlFlags {
    pub is_streaming: bool,
    pub is_compacting: bool,
    pub queued_message_count: u64,
}

/// Whether a session is idle enough for a mode switch: nothing streaming or compacting in
/// the engine's fresh state or the host's cached one, nothing queued, no dialog pending.
pub open spec fn idle_spec(fresh: ControlFlags, cached: ControlFlags, pending_dialogs: usize) -> bool {
    !fresh.is_streaming && !fresh.is_compacting && fresh.queued_message_count == 0 && !cached.is_streaming
        && !cached.is_compacting && pending_dialogs == 0
}

/// Whether a session is idle enough for a mode switch.
pub fn mode_switch_idle(fresh: &ControlFlags, cached: &ControlFlags, pending_dialogs: usize) -> (r: bool)
    ensures
        r == idle_spec(*fresh, *cached, pending_dialogs),
{
    !fresh.is_streaming && !fresh.is_compacting && fresh.queued_message_count == 0 && !cached.is_streaming
        && !cached.is_compacting && pending_dialogs == 0
}

/// The refusal of a second mode switch while one is pending.
pub open spec fn already_pending_message() -> Seq<char> {
    "an approval mode switch is already pending"@
}

/// The refusal of a new user turn while a mode switch is pending.
pub open spec fn switch_pending_message() -> Seq<char> {
    "the approval mode will change after the current turn finishes"@
}

/// Whether a session's approval mode is about to change: while a switch is pending, no new
/// user turn is admitted, and no second switch may begin. Turns already running, and their
/// approval dialogs, go on until they settle.
pub struct ModeSwitchGate {
    pending: bool,
}

/// Proof that this caller began the pending switch; handing it back ends the switch.
pub struct ModeSwitchGuard {
    ended: bool,
}

impl View for ModeSwitchGate {
    type V = bool;

    /// Whether a switch is pending.
    closed spec fn view(&self) -> bool {
        self.pending
    }
}

impl ModeSwitchGate {
    /// A gate with no switch pending.
    pub fn new() -> (r: Self)
        ensures
            !r@,
    {
        ModeSwitchGate { pending: false }
    }

    /// Whether a switch is pending.
    pub fn is_pending(&self) -> (r: bool)
        ensures
            r == self@,
    {
        self.pending
    }

    /// Begin a switch: refused while another one is pending.
    pub fn begin(&mut self) -> (r: Result<ModeSwitchGuard, String>)
        ensures
            old(self)@ ==> (r matches Err(e) && e@ == already_pending_message()) && final(self)@,
            !old(self)@ ==> r is Ok && final(self)@,
    {
        if self.pending {
            return Err("an approval mode switch is already pending".to_owned());
        }
        self.pending = true;
        Ok(ModeSwitchGuard { ended: false })
    }

    /// Whether a new user turn may start now.
    pub fn ensure_turn_admitted(&self) -> (r: Result<(), String>)
        ensures
            !self@ ==> r is Ok,
            self@ ==> (r matches Err(e) && e@ == switch_pending_message()),
    {
        if self.pending {
            Err("the approval mode will change after the current turn finishes".to_owned())
        } else {
            Ok(())
        }
    }

    /// End the switch the guard was issued for, however it went.
    pub fn release(&mut self, guard: ModeSwitchGuard)
        ensures
            !final(self)@,
    {
        let ModeSwitchGuard { ended: _ } = guard;
        self.pending = false;
    }
}

/// How many idle readings in a row a pending switch waits for before it proceeds.
pub const SETTLED_READINGS: u8 = 2;

/// The readings a pending switch has taken of a session's state: it proceeds only after
/// two idle readings in a row, since one idle reading may precede a turn the engine has
/// accepted but not begun.
pub struct SettleWatch {
    idle_in_a_row: u8,
}

impl View for SettleWatch {
    type V = nat;

    /// The idle readings in a row so far.
    closed spec fn view(&self) -> nat {
        self.idle_in_a_row as nat
    }
}

impl SettleWatch {
    /// A watch that has read nothing yet.
    pub fn new() -> (r: Self)
        ensures
            r@ == 0,
    {
        SettleWatch { idle_in_a_row: 0 }
    }

    /// Take one reading; true when the session has now read idle twice in a row.
    pub fn observe(&mut self, idle: bool) -> (settled: bool)
        ensures
            settled == (idle && old(self)@ + 1 >= SETTLED_READINGS),
            idle && old(self)@ < SETTLED_READINGS ==> final(self)@ == old(self)@ + 1,
            idle && old(self)@ >= SETTLED_READINGS ==> final(self)@ == old(self)@,
            !idle ==> final(self)@ == 0,
    {
        if !idle {
            self.idle_in_a_row = 0;
            return false;
        }
        if self.idle_in_a_row < SETTLED_READINGS {
            self.idle_in_a_row = self.idle_in_a_row + 1;
        }
        self.idle_in_a_row >= SETTLED_READINGS
    }
}

/// One page of a subagent's transcript, as the engine served it.
pub struct AgentPage {
    /// The file the page came from, per the engine.
    pub session_file: String,
    /// Where the next page starts.
    pub next_byte: u64,
    /// The file shrank under the cursor, so this page replaces what was shown.
    pub reset: bool,
    pub rows: Vec<RowSnapshot>,
}

/// The live-thread roster, as a session's pump needs it.
pub trait Roster {
    /// Every live thread's row, in a stable order.
    fn snapshots(&self) -> Vec<ThreadSnapshot>;

    /// Retire a thread whose engine is gone, for good.
    fn retire(&self, thread: &str) {
    }
}

/// One event, addressed to the thread that produced it.
pub fn tagged<T>(thread: &str, payload: T) -> (r: ThreadEvent<T>)
    ensures
        r.thread@ == thread@,
        r.payload == payload,
{
    ThreadEvent { thread: thread.to_owned(), payload }
}

/// Whether a command's output is the receipt of the host's own automatic naming, which
/// belongs in diagnostics rather than in the conversation.
pub open spec fn receipt_spec(text: Seq<char>) -> bool {
    prefix_of("Session renamed to "@, text) || prefix_of("Could not generate a session title."@, text)
        || prefix_of("Session name not changed "@, text)
}

/// Whether a command's output is the receipt of the host's own automatic naming.
pub fn is_generated_title_receipt(text: &str) -> (r: bool)
    ensures
        r == receipt_spec(text@),
{
    starts_with(text, "Session renamed to ") || starts_with(text, "Could not generate a session title.")
        || starts_with(text, "Session name not changed ")
}

/// Whether the host's automatic naming of a session is in flight.
///
/// A session that has no name is named once a turn has settled, by the engine's own
/// `/rename`. At most one naming runs at a time. The receipt `/rename` prints is the host's own
/// business, so it is kept out of the conversation — but only while a naming the host started
/// is in flight, and only once: a `/rename` the user typed shows its receipt as usual.
pub struct TitleGeneration {
    in_flight: bool,
}

impl View for TitleGeneration {
    type V = bool;

    /// Whether a naming is in flight.
    closed spec fn view(&self) -> bool {
        self.in_flight
    }
}

impl TitleGeneration {
    /// No naming in flight.
    pub fn new() -> (r: Self)
        ensures
            !r@,
    {
        TitleGeneration { in_flight: false }
    }

    /// Whether a naming is in flight.
    pub fn in_flight(&self) -> (r: bool)
        ensures
            r == self@,
    {
        self.in_flight
    }

    /// Start a naming after a turn settled, when the session has no name and none is in
    /// flight; true when this call started one.
    pub fn start(&mut self, unnamed: bool) -> (r: bool)
        ensures
            r == (unnamed && !old(self)@),
            final(self)@ == (old(self)@ || r),
    {
        if !unnamed || self.in_flight {
            return false;
        }
        self.in_flight = true;
        true
    }

    /// A naming whose `/rename` call failed is over; no receipt is awaited any more.
    pub fn failed(&mut self)
        ensures
            !final(self)@,
    {
        self.in_flight = false;
    }

    /// Whether a command's output is kept out of the conversation: it is the receipt of a
    /// naming, and one is in flight. Swallowing the receipt ends the naming.
    pub fn swallows(&mut self, text: &str) -> (r: bool)
        ensures
            r == (receipt_spec(text@) && old(self)@),
            final(self)@ == (old(self)@ && !r),
    {
        if self.in_flight && is_generated_title_receipt(text) {
            self.in_flight = false;
            true
        } else {
            false
        }
    }
}

/// What the conversation says about a blocking dialog the host could not read: the engine
/// is waiting on it, so the sentence names its kind and the id it arrived with (as the frame
/// wrote it), or `none` when it carried no id.
pub open spec fn unusable_dialog_spec(kind: Seq<char>, id: Option<Seq<char>>) -> Seq<char> {
    "the engine is waiting on a `"@ + kind + "` dialog the host could not read (id: "@ + match id {
        Some(i) => i,
        None => "none"@,
    } + ")"@
}

/// What the conversation says about a blocking dialog the host could not read.
pub fn unusable_dialog_message(kind: &str, id: Option<String>) -> (r: String)
    ensures
        r@ == unusable_dialog_spec(kind@, opt_view(id)),
{
    let mut m = "the engine is waiting on a `".to_owned();
    m.append(kind);
    m.append("` dialog the host could not read (id: ");
    match id {
        Some(i) => m.append(i.as_str()),
        None => m.append("none"),
    }
    m.append(")");
    m
}

/// A block of text that is present, or absent because it is blank.
pub open spec fn optional_spec(text: Seq<char>) -> Option<Seq<char>> {
    if blank(text) {
        None
    } else {
        Some(text)
    }
}

/// A block of text that is present, or absent because it is blank.
pub fn optional(text: String) -> (r: Option<String>)
    ensures
        opt_view(r) == optional_spec(text@),
{
    if is_blank(text.as_str()) {
        None
    } else {
        Some(text)
    }
}

/// The response a dialog answer stands for.
#[derive(Debug, Clone, PartialEq, Eq)]
pub enum DialogAnswer {
    /// The dialog was dismissed, or ran out of time.
    Cancelled { timed_out: bool },
    /// A `confirm` answered yes or no.
    Confirmed(bool),
    /// A choice or a text.
    Value(String),
}

/// The refusal of an answer that carries nothing.
pub open spec fn empty_answer_message() -> Seq<char> {
    "an answer must carry one of `value`, `confirmed` or `cancelled`"@
}

/// The one response an answer's shape can mean: a cancellation first, then a confirmation,
/// then a value. One that carries none of the three is refused rather than defaulted — an
/// empty choice, or a silence read as "yes", is worse than an error the window can show.
pub fn resolve_answer(answer: &UiAnswer) -> (r: Result<DialogAnswer, String>)
    ensures
        answer.cancelled == Some(true) ==> r == Ok::<DialogAnswer, String>(DialogAnswer::Cancelled {
            timed_out: answer.timed_out == Some(true),
        }),
        answer.cancelled != Some(true) && answer.confirmed.is_some() ==> r == Ok::<DialogAnswer, String>(DialogAnswer::Confirmed(answer.confirmed->0)),
        answer.cancelled != Some(true) && answer.confirmed.is_none() && answer.value.is_some() ==> (r matches Ok(DialogAnswer::Value(v)) && v@ == answer.value->0@),
        answer.cancelled != Some(true) && answer.confirmed.is_none() && answer.value.is_none() ==> (r matches Err(e) && e@ == empty_answer_message()),
{
    if answer.cancelled == Some(true) {
        let timed_out = match answer.timed_out {
            Some(t) => t,
            None => false,
        };
        return Ok(DialogAnswer::Cancelled { timed_out });
    }
    match answer.confirmed {
        Some(c) => return Ok(DialogAnswer::Confirmed(c)),
        None => {},
    }
    match &answer.value {
        Some(v) => Ok(DialogAnswer::Value(v.clone())),
        None => Err("an answer must carry one of `value`, `confirmed` or `cancelled`".to_owned()),
    }
}

/// One row of a transcript, as far as the failure and answer rules read it.
pub enum TranscriptRow {
    /// An assistant message: why it stopped, the error the engine put on it, and its text.
    Assistant { stop_reason: Option<String>, error_message: Option<String>, text: String },
    /// A notice, at a level.
    Notice { level: String, text: String },
    /// Anything else.
    Other,
}

/// A transcript row as values.
pub enum RowView {
    Assistant { stop_reason: Option<Seq<char>>, error_message: Option<Seq<char>>, text: Seq<char> },
    Notice { level: Seq<char>, text: Seq<char> },
    Other,
}

impl View for TranscriptRow {
    type V = RowView;

    open spec fn view(&self) -> RowView {
        match self {
            TranscriptRow::Assistant { stop_reason, error_message, text } => RowView::Assistant {
                stop_reason: opt_view(*stop_reason),
                error_message: opt_view(*error_message),
                text: text@,
            },
            TranscriptRow::Notice { level, text } => RowView::Notice { level: level@, text: text@ },
            TranscriptRow::Other => RowView::Other,
        }
    }
}

/// The failure one row records: an assistant message the engine stopped with an error (its
/// error, or a sentence saying the turn failed), or an error-level notice.
pub open spec fn failure_of(row: RowView) -> Option<Seq<char>> {
    match row {
        RowView::Assistant { stop_reason, error_message, .. } => if stop_reason == Some("error"@) {
            match error_message {
                Some(e) => Some(e),
                None => Some("the turn failed"@),
            }
        } else {
            None
        },
        RowView::Notice { level, text } => if level == "error"@ {
            Some(text)
        } else {
            None
        },
        RowView::Other => None,
    }
}

/// The conversation's most recent failure.
pub open spec fn last_failure_spec(rows: Seq<RowView>) -> Option<Seq<char>>
    decreases rows.len(),
{
    if rows.len() == 0 {
        None
    } else {
        match failure_of(rows.last()) {
            Some(f) => Some(f),
            None => last_failure_spec(rows.drop_last()),
        }
    }
}

/// The answer one row holds: an assistant message's text, when it is not blank.
pub open spec fn answer_of(row: RowView) -> Option<Seq<char>> {
    match row {
        RowView::Assistant { text, .. } => optional_spec(text),
        _ => None,
    }
}

/// The engine's most recent assistant text, if it has said anything yet.
pub open spec fn last_answer_spec(rows: Seq<RowView>) -> Option<Seq<char>>
    decreases rows.len(),
{
    if rows.len() == 0 {
        None
    } else {
        match answer_of(rows.last()) {
            Some(a) => Some(a),
            None => last_answer_spec(rows.drop_last()),
        }
    }
}

fn row_failure(row: &TranscriptRow) -> (r: Option<String>)
    ensures
        opt_view(r) == failure_of(row@),
{
    proof {
        reveal_strlit("error");
        reveal_strlit("the turn failed");
    }
    match row {
        TranscriptRow::Assistant { stop_reason, error_message, .. } => {
            let stopped = match stop_reason {
                Some(s) => str_eq(s.as_str(), "error"),
                None => false,
            };
            if stopped {
                match error_message {
                    Some(e) => Some(e.clone()),
                    None => Some("the turn failed".to_owned()),
                }
            } else {
                None
            }
        },
        TranscriptRow::Notice { level, text } => {
            if str_eq(level.as_str(), "error") {
                Some(text.clone())
            } else {
                None
            }
        },
        TranscriptRow::Other => None,
    }
}

fn row_answer(row: &TranscriptRow) -> (r: Option<String>)
    ensures
        opt_view(r) == answer_of(row@),
{
    match row {
        TranscriptRow::Assistant { text, .. } => optional(text.clone()),
        _ => None,
    }
}

/// The conversation's most recent failure, as the transcript recorded it.
///
/// Two shapes mean a turn failed: an assistant message the engine marked with an error,
/// and an error-level notice — a retry that gave up, or an event the host could not read.
pub fn last_failure(rows: &[TranscriptRow]) -> (r: Option<String>)
    ensures
        opt_view(r) == last_failure_spec(rows@.map_values(|x: TranscriptRow| x@)),
{
    let ghost rv = rows@.map_values(|x: TranscriptRow| x@);
    let mut i: usize = rows.len();
    assert(rv.take(rv.len() as int) =~= rv);
    while i > 0
        invariant
            i <= rows@.len(),
            rv == rows@.map_values(|x: TranscriptRow| x@),
            last_failure_spec(rv) == last_failure_spec(rv.take(i as int)),
        decreases i,
    {
        let f = row_failure(&rows[i - 1]);
        assert(rv.take(i as int).drop_last() =~= rv.take(i - 1));
        assert(rv.take(i as int).last() == rows@[i - 1]@);
        if f.is_some() {
            return f;
        }
        i = i - 1;
    }
    None
}

/// The engine's most recent assistant text, if it has said anything yet.
pub fn last_answer(rows: &[TranscriptRow]) -> (r: Option<String>)
    ensures
        opt_view(r) == last_answer_spec(rows@.map_values(|x: TranscriptRow| x@)),
{
    let ghost rv = rows@.map_values(|x: TranscriptRow| x@);
    let mut i: usize = rows.len();
    assert(rv.take(rv.len() as int) =~= rv);
    while i > 0
        invariant
            i <= rows@.len(),
            rv == rows@.map_values(|x: TranscriptRow| x@),
            last_answer_spec(rv) == last_answer_spec(rv.take(i as int)),
        decreases i,
    {
        let a = row_answer(&rows[i - 1]);
        assert(rv.take(i as int).drop_last() =~= rv.take(i - 1));
        assert(rv.take(i as int).last() == rows@[i - 1]@);
        if a.is_some() {
            return a;
        }
        i = i - 1;
    }
    None
}

/// What the host knows about a thread when a notification trigger fires: its id, the
/// session's name, and what its transcript says.
pub fn facts(thread: &str, name: Option<String>, rows: &[TranscriptRow]) -> (r: Facts)
    ensures
        r@ == (FactsView {
            thread: thread@,
            name: opt_view(name),
            failure: last_failure_spec(rows@.map_values(|x: TranscriptRow| x@)),
            answer: last_answer_spec(rows@.map_values(|x: TranscriptRow| x@)),
        }),
{
    Facts { thread: thread.to_owned(), name, failure: last_failure(rows), answer: last_answer(rows) }
}

/// `shell_words::split`: the words of a command as a POSIX shell would split them, or `None`
/// when a quote is left open.
pub uninterp spec fn shell_words_of(command: Seq<char>) -> Option<Seq<Seq<char>>>;

/// The parse error of `shell_words`.
#[verifier::external_type_specification]
#[verifier::external_body]
pub struct ExShellParseError(shell_words::ParseError);

/// `shell_words::split`. How quotes and escapes are read is the crate's to say; the result
/// depends on the command alone.
#[verifier::external_body]
fn shell_split(command: &str) -> (r: Result<Vec<String>, shell_words::ParseError>)
    ensures
        match r {
            Ok(v) => shell_words_of(command@) == Some(views(v@)),
            Err(_) => shell_words_of(command@) is None,
        },
{
    shell_words::split(command)
}

/// The executable at the beginning of a command, as its file name — a grant's identity,
/// never run or rewritten — or why there is none.
pub open spec fn program_spec(command: Seq<char>) -> Result<Seq<char>, Seq<char>> {
    match shell_words_of(command) {
        None => Err("the command could not be parsed safely"@),
        Some(ws) => if ws.len() == 0 || ws[0].len() == 0 {
            Err("the command has no executable"@)
        } else {
            match file_name_spec(ws[0]) {
                None => Err("the command executable has no readable name"@),
                Some(n) => match tool_name_verdict(n) {
                    Err(e) => Err(e),
                    Ok(()) => Ok(n),
                },
            }
        },
    }
}

/// The executable at the beginning of a command, normalised to its file name.
pub fn command_program(command: &str) -> (r: Result<String, String>)
    ensures
        match r {
            Ok(p) => program_spec(command@) == Ok::<Seq<char>, Seq<char>>(p@),
            Err(e) => program_spec(command@) == Err::<Seq<char>, Seq<char>>(e@),
        },
{
    let words = match shell_split(command) {
        Ok(w) => w,
        Err(_) => return Err("the command could not be parsed safely".to_owned()),
    };
    if words.len() == 0 || words[0].unicode_len() == 0 {
        assert(words.len() > 0 ==> views(words@)[0] == words@[0]@);
        return Err("the command has no executable".to_owned());
    }
    assert(views(words@)[0] == words@[0]@);
    let program = match file_name(words[0].as_str()) {
        Some(n) => n,
        None => return Err("the command executable has no readable name".to_owned()),
    };
    match validate_tool_name(program.as_str()) {
        Err(e) => Err(e),
        Ok(()) => Ok(program),
    }
}

/// The index of the first line after the first that starts with `Command:`.
pub open spec fn command_line_index(ls: Seq<Seq<char>>) -> Option<int> {
    if exists|i: int| 1 <= i < ls.len() && prefix_of("Command:"@, ls[i]) {
        Some(choose|i: int| 1 <= i < ls.len() && prefix_of("Command:"@, ls[i]) && forall|j: int| 1 <= j < i ==> !prefix_of("Command:"@, #[trigger] ls[j]))
    } else {
        None
    }
}

/// The command an approval asks about: the first line after the title's first that starts
/// with `Command:`, the rest of it trimmed — unless that is empty.
pub open spec fn approval_command(title: Seq<char>) -> Option<Seq<char>> {
    let ls = lines_spec(title);
    match command_line_index(ls) {
        Some(i) => {
            let c = trim(ls[i].skip(8));
            if c.len() == 0 {
                None
            } else {
                Some(c)
            }
        },
        None => None,
    }
}

proof fn lemma_command_line_index(ls: Seq<Seq<char>>, k: int)
    requires
        1 <= k < ls.len(),
        prefix_of("Command:"@, ls[k]),
        forall|j: int| 1 <= j < k ==> !prefix_of("Command:"@, #[trigger] ls[j]),
    ensures
        command_line_index(ls) == Some(k),
{
    let w = choose|i: int| 1 <= i < ls.len() && prefix_of("Command:"@, ls[i]) && forall|j: int| 1 <= j < i ==> !prefix_of("Command:"@, #[trigger] ls[j]);
    assert(1 <= k < ls.len() && prefix_of("Command:"@, ls[k]) && forall|j: int| 1 <= j < k ==> !prefix_of("Command:"@, #[trigger] ls[j]));
    if w < k {
        assert(!prefix_of("Command:"@, ls[w]));
    } else if k < w {
        assert(!prefix_of("Command:"@, ls[k]));
    }
}

/// The command an approval dialog asks about.
pub fn command_from_approval(title: &str) -> (r: Option<String>)
    ensures
        opt_view(r) == approval_command(title@),
{
    let ls = lines(title);
    let ghost lv = views(ls@);
    let prefix = "Command:";
    proof {
        reveal_strlit("Command:");
    }
    let mut i: usize = 1;
    while i < ls.len()
        invariant
            1 <= i,
            lv == views(ls@),
            lv == lines_spec(title@),
            prefix@ == "Command:"@,
            prefix@.len() == 8,
            forall|j: int| 1 <= j < i && j < lv.len() ==> !prefix_of(prefix@, #[trigger] lv[j]),
        decreases ls@.len() - i,
    {
        assert(lv[i as int] == ls@[i as int]@);
        if starts_with(ls[i].as_str(), prefix) {
            proof {
                lemma_command_line_index(lv, i as int);
            }
            let rest = ls[i].as_str().substring_char(8, ls[i].unicode_len());
            assert(rest@ =~= lv[i as int].skip(8));
            let c = trim_str(rest);
            if c.unicode_len() == 0 {
                return None;
            }
            return Some(c.to_owned());
        }
        i = i + 1;
    }
    proof {
        if command_line_index(lv) is Some {
            let k = choose|k: int| 1 <= k < lv.len() && prefix_of("Command:"@, lv[k]);
            assert(!prefix_of(prefix@, lv[k]));
        }
    }
    None
}

/// A character that lets a shell command invoke another program or expand into a
/// different call.
pub open spec fn shell_operator(c: char) -> bool {
    c == ';' || c == '|' || c == '&' || c == '<' || c == '>' || c == '$' || c == '`' || c == '('
        || c == ')' || c == '{' || c == '}' || c == '*' || c == '?' || c == '[' || c == ']' || c
        == '\n' || c == '\r'
}

/// The program of a command simple enough to be answered for the user: no shell operator
/// anywhere in it, and a readable program. Anything else keeps asking.
pub open spec fn simple_program_spec(command: Seq<char>) -> Option<Seq<char>> {
    if exists|i: int| 0 <= i < command.len() && shell_operator(command[i]) {
        None
    } else {
        match program_spec(command) {
            Ok(p) => Some(p),
            Err(_) => None,
        }
    }
}

/// The program of a command simple enough to be answered for the user.
pub fn simple_command_program(command: &str) -> (r: Option<String>)
    ensures
        opt_view(r) == simple_program_spec(command@),
{
    let n = command.unicode_len();
    let mut i: usize = 0;
    while i < n
        invariant
            n == command@.len(),
            i <= n,
            forall|k: int| 0 <= k < i ==> !shell_operator(#[trigger] command@[k]),
        decreases n - i,
    {
        let c = command.get_char(i);
        if c == ';' || c == '|' || c == '&' || c == '<' || c == '>' || c == '$' || c == '`' || c == '('
            || c == ')' || c == '{' || c == '}' || c == '*' || c == '?' || c == '[' || c == ']' || c
            == '\n' || c == '\r' {
            return None;
        }
        i = i + 1;
    }
    match command_program(command) {
        Ok(p) => Some(p),
        Err(_) => None,
    }
}

/// An approval the engine asks for, as far as the host's grants read it.
#[derive(Debug, Clone)]
pub struct ApprovalRequest {
    pub id: String,
    /// The dialog is a `select`.
    pub select: bool,
    pub title: String,
    pub options: Vec<String>,
}

/// The tool an approval's title names: its first line, after `Allow tool: `, trimmed.
pub open spec fn approval_tool(title: Seq<char>) -> Option<Seq<char>> {
    let ls = lines_spec(title);
    if ls.len() == 0 || !prefix_of("Allow tool: "@, ls[0]) {
        None
    } else {
        Some(trim(ls[0].skip(12)))
    }
}

/// Whether the host answers an approval for the user.
///
/// Only the engine's exact approval shape — a `select` offering `Approve` and `Deny` —
/// naming a tool that is a valid key; then either that tool was granted, or it is the shell
/// and the command is a simple call of a granted program.
pub open spec fn approves(select: bool, title: Seq<char>, options: Seq<Seq<char>>, tools: Seq<Seq<char>>, programs: Seq<Seq<char>>) -> bool {
    &&& select
    &&& options == seq!["Approve"@, "Deny"@]
    &&& match approval_tool(title) {
        None => false,
        Some(tool) => {
            &&& tool_name_verdict(tool) is Ok
            &&& (tools.contains(tool) || ((tool == "bash"@ || tool == "bash_interactive"@) && match approval_command(title) {
                Some(c) => match simple_program_spec(c) {
                    Some(p) => programs.contains(p),
                    None => false,
                },
                None => false,
            }))
        },
    }
}

fn holds(v: &Vec<String>, x: &str) -> (r: bool)
    ensures
        r == views(v@).contains(x@),
{
    let mut i: usize = 0;
    while i < v.len()
        invariant
            i <= v@.len(),
            forall|q: int| 0 <= q < i ==> v@[q]@ != x@,
        decreases v@.len() - i,
    {
        if str_eq(v[i].as_str(), x) {
            assert(views(v@)[i as int] == x@);
            return true;
        }
        i = i + 1;
    }
    assert forall|q: int| 0 <= q < views(v@).len() implies views(v@)[q] != x@ by {
        assert(views(v@)[q] == v@[q]@);
    }
    false
}

/// Whether the host answers an approval for the user, given the tools granted for this
/// sidecar and the programs granted for this conversation.
pub fn auto_approves(request: &ApprovalRequest, granted_tools: &Vec<String>, granted_commands: &Vec<String>) -> (r: bool)
    ensures
        r == approves(request.select, request.title@, views(request.options@), views(granted_tools@), views(granted_commands@)),
{
    proof {
        reveal_strlit("Approve");
        reveal_strlit("Deny");
        reveal_strlit("Allow tool: ");
        reveal_strlit("bash");
        reveal_strlit("bash_interactive");
    }
    if !request.select || request.options.len() != 2 {
        assert(views(request.options@).len() == request.options@.len());
        assert(seq!["Approve"@, "Deny"@].len() == 2);
        return false;
    }
    assert(views(request.options@)[0] == request.options@[0]@);
    assert(views(request.options@)[1] == request.options@[1]@);
    if !str_eq(request.options[0].as_str(), "Approve") || !str_eq(request.options[1].as_str(), "Deny") {
        assert(views(request.options@) != seq!["Approve"@, "Deny"@]);
        return false;
    }
    assert(views(request.options@) =~= seq!["Approve"@, "Deny"@]);
    let ls = lines(request.title.as_str());
    if ls.len() == 0 {
        return false;
    }
    assert(views(ls@)[0] == ls@[0]@);
    if !starts_with(ls[0].as_str(), "Allow tool: ") {
        return false;
    }
    let rest = ls[0].as_str().substring_char(12, ls[0].unicode_len());
    assert(rest@ =~= lines_spec(request.title@)[0].skip(12));
    let tool = trim_str(rest);
    if validate_tool_name(tool).is_err() {
        return false;
    }
    if holds(granted_tools, tool) {
        return true;
    }
    if !(str_eq(tool, "bash") || str_eq(tool, "bash_interactive")) {
        return false;
    }
    match command_from_approval(request.title.as_str()) {
        Some(c) => match simple_command_program(c.as_str()) {
            Some(p) => holds(granted_commands, p.as_str()),
            None => false,
        },
        None => false,
    }
}

/// A grant answers only what it was given for: an approval the host answers is always the
/// engine's exact approval shape, for a tool that can be a key, and either that tool was
/// granted or it is the shell running a granted program with no shell operator in the
/// command. Nothing is answered without some grant.
pub proof fn law_grants_answer_only_their_own_approval(select: bool, title: Seq<char>, options: Seq<Seq<char>>, tools: Seq<Seq<char>>, programs: Seq<Seq<char>>)
    requires
        approves(select, title, options, tools, programs),
    ensures
        select,
        options == seq!["Approve"@, "Deny"@],
        approval_tool(title) is Some,
        tool_name_verdict(approval_tool(title)->0) is Ok,
        tools.len() > 0 || programs.len() > 0,
        !tools.contains(approval_tool(title)->0) ==> {
            &&& approval_command(title) is Some
            &&& forall|i: int| 0 <= i < approval_command(title)->0.len() ==> !shell_operator(#[trigger] approval_command(title)->0[i])
            &&& programs.contains(simple_program_spec(approval_command(title)->0)->0)
        },
{
    let tool = approval_tool(title)->0;
    if tools.contains(tool) {
        assert(tools.len() > 0);
    } else {
        let c = approval_command(title)->0;
        assert(programs.len() > 0);
        assert forall|i: int| 0 <= i < c.len() implies !shell_operator(#[trigger] c[i]) by {
            if shell_operator(c[i]) {
                assert(simple_program_spec(c) is None);
            }
        }
    }
}

/// Whether a row is something the engine said: an assistant message with text that is not
/// blank.
pub open spec fn says_something(row: RowView) -> bool {
    row is Assistant && !blank(row->Assistant_text)
}

/// The answer is the latest thing the engine said: when some assistant row has text that is
/// not blank, the answer is the text of the last such row, whatever came before it and
/// whatever rows without an answer follow it; when none has, there is no answer.
pub proof fn law_the_answer_is_the_latest_thing_said(rows: Seq<RowView>)
    ensures
        last_answer_spec(rows) is None <==> forall|k: int| 0 <= k < rows.len() ==> !says_something(#[trigger] rows[k]),
        forall|k: int|
            0 <= k < rows.len() && says_something(#[trigger] rows[k]) && (forall|j: int| k < j < rows.len() ==> !says_something(rows[j]))
                ==> last_answer_spec(rows) == Some(rows[k]->Assistant_text),
    decreases rows.len(),
{
    if rows.len() > 0 {
        let init = rows.drop_last();
        law_the_answer_is_the_latest_thing_said(init);
        assert forall|k: int| 0 <= k < init.len() implies #[trigger] init[k] == rows[k] by {}
        let last = rows.last();
        assert(says_something(last) <==> answer_of(last) is Some);
        if says_something(last) {
            assert(answer_of(last) == Some(last->Assistant_text));
            assert(says_something(rows[rows.len() - 1]));
            assert forall|k: int|
                0 <= k < rows.len() && says_something(#[trigger] rows[k]) && (forall|j: int| k < j < rows.len() ==> !says_something(rows[j]))
                    implies last_answer_spec(rows) == Some(rows[k]->Assistant_text) by {
                if k < rows.len() - 1 {
                    assert(!says_something(rows[rows.len() - 1]));
                }
            }
        } else {
            assert(answer_of(last) is None);
            assert(last_answer_spec(rows) == last_answer_spec(init));
            if forall|k: int| 0 <= k < init.len() ==> !says_something(#[trigger] init[k]) {
                assert forall|k: int| 0 <= k < rows.len() implies !says_something(#[trigger] rows[k]) by {
                    if k < rows.len() - 1 {
                        assert(init[k] == rows[k]);
                    }
                }
            }
            if forall|k: int| 0 <= k < rows.len() ==> !says_something(#[trigger] rows[k]) {
                assert forall|k: int| 0 <= k < init.len() implies !says_something(#[trigger] init[k]) by {
                    assert(init[k] == rows[k]);
                }
            }
            assert forall|k: int|
                0 <= k < rows.len() && says_something(#[trigger] rows[k]) && (forall|j: int| k < j < rows.len() ==> !says_something(rows[j]))
                    implies last_answer_spec(rows) == Some(rows[k]->Assistant_text) by {
                assert(k < rows.len() - 1);
                assert(init[k] == rows[k]);
                assert forall|j: int| k < j < init.len() implies !says_something(init[j]) by {
                    assert(init[j] == rows[j]);
                }
            }
        }
    }
}

/// Every receipt of the host's own naming is recognised — a rename, a failure to generate
/// a title, and a name left unchanged — and nothing else is: output that starts with none
/// of those sentences reaches the conversation.
pub proof fn law_every_naming_receipt_is_recognised(text: Seq<char>)
    ensures
        prefix_of("Session renamed to "@, text) ==> receipt_spec(text),
        prefix_of("Could not generate a session title."@, text) ==> receipt_spec(text),
        prefix_of("Session name not changed "@, text) ==> receipt_spec(text),
        receipt_spec(text) ==> prefix_of("Session renamed to "@, text) || prefix_of("Could not generate a session title."@, text)
            || prefix_of("Session name not changed "@, text),
{
}

} // verus!
