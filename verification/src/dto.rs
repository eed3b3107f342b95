//! The window's data contract: plain values, no logic.
//!
//! Everything the interface renders crosses the boundary as one of these. They are kept
//! apart from the engine's own types so that a change on the wire is absorbed in one place,
//! and the interface only moves when the host decides it should.
//!
//! The serialised copies (camel-cased field names) live with the host program; the types
//! here are the ones the library's contracts speak of.
use vstd::prelude::*;

verus! {

/// The `ready` handshake, as the debug pane shows it.
#[derive(Debug, Clone, PartialEq, Eq)]
pub struct ReadySnapshot {
    pub protocol_version: u64,
    pub supported_protocol_versions: Vec<u64>,
    pub max_frame_bytes: u64,
    pub max_reassembled_frame_bytes: u64,
    pub negotiated_v2: bool,
}

/// The model a session is on, as far as the engine said.
#[derive(Debug, Clone, PartialEq, Eq)]
pub struct ModelSnapshot {
    pub provider: Option<String>,
    pub id: Option<String>,
    pub name: Option<String>,
}

/// One row of the model picker.
#[derive(Debug, Clone, PartialEq, Eq)]
pub struct ModelOption {
    pub provider: String,
    pub id: String,
    pub name: String,
    pub context_window: Option<u64>,
    pub reasoning: bool,
    /// The effort the engine picks when none is asked for.
    pub default_effort: Option<String>,
    /// The efforts the model accepts, weakest first.
    pub efforts: Vec<String>,
}

/// The picker's whole list, and whether a fetch is under way.
#[derive(Debug, Clone, PartialEq, Eq)]
pub struct ModelCatalogue {
    pub options: Vec<ModelOption>,
    /// When the list was fetched, in Unix milliseconds; `None` before the first fetch.
    pub fetched_at: Option<u64>,
    pub refreshing: bool,
}

/// The transport's counters, for the debug pane.
#[derive(Debug, Clone, Copy, Default, PartialEq, Eq)]
pub struct CounterSnapshot {
    pub events_seen: u64,
    pub frames_seen: u64,
    pub event_kinds: u64,
    pub unknown_events: u64,
    pub malformed_events: u64,
    pub lagged_events: u64,
    pub ui_requests: u64,
    pub blocking_ui_requests: u64,
}

/// One activity tick: what kind of thing happened, and its place in the sequence.
#[derive(Debug, Clone, PartialEq, Eq)]
pub struct ActivitySnapshot {
    pub kind: String,
    pub sequence: u64,
}

/// One entry of the command palette.
#[derive(Debug, Clone, PartialEq, Eq)]
pub struct CommandSnapshot {
    pub name: String,
    /// Where the command comes from: built in, a file, an extension.
    pub source: String,
    pub aliases: Vec<String>,
    pub description: Option<String>,
    /// What the command's argument looks like, when it takes one.
    pub hint: Option<String>,
    pub subcommands: Vec<SubcommandSnapshot>,
}

/// One subcommand of a palette entry.
#[derive(Debug, Clone, PartialEq, Eq)]
pub struct SubcommandSnapshot {
    pub name: String,
    pub description: Option<String>,
}

/// A dialog the engine is waiting on.
#[derive(Debug, Clone, PartialEq, Eq)]
pub struct UiRequestSnapshot {
    pub id: String,
    pub kind: String,
    pub title: String,
    pub message: String,
    pub options: Vec<String>,
    pub prefill: Option<String>,
    pub placeholder: Option<String>,
    pub timeout_ms: Option<u64>,
}

/// The window's answer to a dialog.
#[derive(Debug, Clone, PartialEq, Eq)]
pub struct UiAnswer {
    pub value: Option<String>,
    pub confirmed: Option<bool>,
    pub cancelled: Option<bool>,
    pub timed_out: Option<bool>,
}

/// An image the user attached to a prompt, base64.
#[derive(Debug, Clone, PartialEq, Eq)]
pub struct ImageIn {
    pub data: String,
    pub mime_type: String,
}

/// One row of the conversation.
#[derive(Debug, Clone, PartialEq, Eq)]
pub struct RowSnapshot {
    pub role: String,
    pub text: String,
    pub thinking: Option<String>,
    pub streaming: bool,
    pub tool: Option<ToolSnapshot>,
    pub attachments: Vec<AttachmentSnapshot>,
    pub custom_type: Option<String>,
    pub jobs: Vec<JobDeliverySnapshot>,
}

/// A background job's result, delivered into the conversation.
#[derive(Debug, Clone, PartialEq, Eq)]
pub struct JobDeliverySnapshot {
    pub job_id: String,
    pub kind: String,
    pub duration_ms: u64,
    pub label: Option<String>,
}

/// An attachment on a row, base64.
#[derive(Debug, Clone, PartialEq, Eq)]
pub struct AttachmentSnapshot {
    pub mime_type: String,
    pub data: String,
}

/// A tool call and what came back.
#[derive(Debug, Clone, PartialEq, Eq)]
pub struct ToolSnapshot {
    pub tool_call_id: String,
    pub tool_name: String,
    pub intent: Option<String>,
    pub args: String,
    pub details: String,
    pub output: String,
    pub is_error: bool,
    pub finished: bool,
}

/// The rows from `from` on, replacing what the window had there.
#[derive(Debug, Clone, PartialEq, Eq)]
pub struct RowPatch {
    pub from: usize,
    pub rows: Vec<RowSnapshot>,
}

/// What the app was launched with.
#[derive(Debug, Clone, Default, PartialEq, Eq)]
pub struct LaunchContext {
    pub workspace: Option<String>,
    pub user: Option<String>,
    pub version: String,
}

/// One open thread, as the sidebar draws it.
#[derive(Debug, Clone, PartialEq, Eq)]
pub struct ThreadSnapshot {
    pub id: String,
    pub workspace: String,
    pub title: Option<String>,
    pub streaming: bool,
    pub pending_approvals: usize,
    pub error: Option<String>,
}

/// A point in the conversation a new branch can start from.
#[derive(Debug, Clone, PartialEq, Eq)]
pub struct BranchTarget {
    pub entry_id: String,
    pub text: String,
}

/// One stored session, as the catalogue lists it.
#[derive(Debug, Clone, PartialEq, Eq)]
pub struct SessionSummaryDto {
    pub id: String,
    pub path: String,
    pub bucket: String,
    pub cwd: String,
    pub title: Option<String>,
    pub title_source: Option<String>,
    pub parent_id: Option<String>,
    pub created_at: Option<String>,
    pub modified_at: u64,
    pub message_count: u64,
    pub size: u64,
    pub first_message: String,
    pub status: String,
    pub pinned: bool,
    pub suspended: bool,
}

/// One project of the sidebar.
#[derive(Debug, Clone, PartialEq, Eq)]
pub struct ProjectSnapshot {
    pub path: String,
    pub name: String,
    pub session_count: usize,
    pub hidden: bool,
}

/// A payload and the thread it belongs to.
#[derive(Debug, Clone, PartialEq, Eq)]
pub struct ThreadEvent<T> {
    pub thread: String,
    pub payload: T,
}

/// One search result.
#[derive(Debug, Clone, PartialEq, Eq)]
pub struct SearchHit {
    pub thread: String,
    pub kind: String,
    pub ordinal: u64,
    pub text: String,
}

/// How far the app's own search index has got.
#[derive(Debug, Clone, PartialEq, Eq)]
pub struct IndexStatus {
    pub indexed: u32,
    pub total: u32,
    pub running: bool,
    pub completed_at: Option<u64>,
    pub error: Option<String>,
}

/// One task of the plan.
#[derive(Debug, Clone, PartialEq, Eq)]
pub struct TodoTaskSnapshot {
    pub content: String,
    pub status: String,
    pub blocker: Option<String>,
}

/// One phase of the plan.
#[derive(Debug, Clone, PartialEq, Eq)]
pub struct TodoPhaseSnapshot {
    pub name: String,
    pub tasks: Vec<TodoTaskSnapshot>,
}

/// One task of a plan the window sends.
#[derive(Debug, Clone, PartialEq, Eq)]
pub struct TodoTaskInput {
    pub content: String,
    pub status: String,
    pub blocker: Option<String>,
}

/// One phase of a plan the window sends.
#[derive(Debug, Clone, PartialEq, Eq)]
pub struct TodoPhaseInput {
    pub name: String,
    pub tasks: Vec<TodoTaskInput>,
}

/// One entry of the workspace tree.
#[derive(Debug, Clone, PartialEq, Eq)]
pub struct WorkspaceEntry {
    pub name: String,
    pub path: String,
    pub is_dir: bool,
    pub size: u64,
    pub modified_at: u64,
}

/// An artifact the engine wrote, read back.
#[derive(Debug, Clone, PartialEq, Eq)]
pub struct ArtifactSnapshot {
    pub id: String,
    pub path: String,
    pub bytes: u64,
    pub text: String,
    pub truncated: bool,
}

/// A subagent's retry, while it waits or after it gave up.
#[derive(Debug, Clone, PartialEq, Eq)]
pub struct AgentRetrySnapshot {
    pub attempt: u64,
    pub max_attempts: u64,
    pub delay_ms: u64,
    pub error_message: String,
    pub started_at_ms: u64,
}

/// A subagent whose transcript is on disk but which no live session lists.
#[derive(Debug, Clone, PartialEq, Eq)]
pub struct ParkedAgent {
    pub id: String,
    pub path: String,
    pub bytes: u64,
    pub modified_ms: u64,
    pub cwd: String,
    pub parent: Option<String>,
    pub advisor: bool,
    pub advisor_slug: Option<String>,
}

/// One page of a subagent's transcript.
#[derive(Debug, Clone, PartialEq, Eq)]
pub struct AgentTranscript {
    pub agent: String,
    pub path: String,
    pub next_byte: u64,
    pub reset: bool,
    pub source: String,
    pub rows: Vec<RowSnapshot>,
}

/// One broker scope: a project, or the shared global one.
#[derive(Debug, Clone, PartialEq, Eq)]
pub struct BrokerScope {
    pub kind: String,
    /// The directory the scope belongs to; empty for the global scope.
    pub project_dir: String,
    pub runtime_dir: String,
    pub broker_pid: Option<u64>,
    pub daemons: Vec<BrokerDaemon>,
}

/// One supervised process.
#[derive(Debug, Clone, PartialEq, Eq)]
pub struct BrokerDaemon {
    /// The name the broker's `stop` takes.
    pub name: String,
    /// The engine's own lifecycle word.
    pub state: String,
    /// The session that asked for it, when one did.
    pub owner: Option<String>,
    pub command: String,
    pub cwd: String,
    pub supervised: bool,
    pub persist: bool,
    pub detached: bool,
    pub restart_count: u64,
    pub exit_code: Option<i64>,
    pub output_bytes: u64,
    pub started_at_ms: u64,
    pub exited_at_ms: Option<u64>,
}

/// One app-owned terminal.
#[derive(Debug, Clone, PartialEq, Eq)]
pub struct TerminalSnapshot {
    pub id: String,
    pub cwd: String,
    pub running: bool,
    pub exit: Option<TerminalExit>,
    pub pid: Option<u32>,
}

/// How a terminal's shell ended: a code, or a signal.
#[derive(Debug, Clone, PartialEq, Eq)]
pub struct TerminalExit {
    pub code: Option<i32>,
    pub signal: Option<String>,
}

/// One batch of a terminal's output, base64.
#[derive(Debug, Clone, PartialEq, Eq)]
pub struct TerminalOutput {
    pub id: String,
    pub data: String,
}

/// One fact the host reports about a thread.
#[derive(Debug, Clone, PartialEq, Eq)]
pub struct NotificationEvent {
    /// The session the fact belongs to; empty when it cannot be attributed.
    pub thread: String,
    pub kind: String,
    pub title: String,
    pub body: String,
    /// The job a `job-finished` notification is about.
    pub job_id: Option<String>,
}

/// What restarting live sessions did.
#[derive(Debug, Clone, PartialEq, Eq)]
pub struct SettingsRestartReport {
    pub restarted: Vec<String>,
    pub skipped: Vec<SettingsRestartSkip>,
}

/// One session the restart left alone, and why.
#[derive(Debug, Clone, PartialEq, Eq)]
pub struct SettingsRestartSkip {
    pub thread: String,
    pub reason: String,
}

/// The event that carries activity ticks.
pub const ACTIVITY_EVENT: &'static str = "session-activity";

/// The event that carries the whole pending dialog set.
pub const UI_REQUESTS_EVENT: &'static str = "session-ui-requests";

/// The event that carries a [`RowPatch`].
pub const ROWS_EVENT: &'static str = "session-rows";

/// The event that carries a [`ModelCatalogue`].
pub const MODELS_EVENT: &'static str = "models-updated";

/// The event that carries the palette's list.
pub const COMMANDS_EVENT: &'static str = "commands-updated";

/// The event that carries the live-thread roster.
pub const THREADS_EVENT: &'static str = "threads-updated";

/// The event that carries one thread's agent roster.
pub const AGENTS_EVENT: &'static str = "session-agents";

/// The event that carries an [`IndexStatus`].
pub const INDEX_EVENT: &'static str = "index-progress";

/// The event that carries a [`TerminalOutput`] batch.
pub const TERMINAL_OUTPUT_EVENT: &'static str = "terminal-output";

/// The event that carries the terminal tab set.
pub const TERMINALS_EVENT: &'static str = "terminals-updated";

/// The event that carries a [`NotificationEvent`].
pub const NOTIFICATIONS_EVENT: &'static str = "session-notifications";

/// The event that carries extension chrome.
pub const CHROME_EVENT: &'static str = "session-chrome";

/// A notification as values.
pub struct NotificationView {
    pub thread: Seq<char>,
    pub kind: Seq<char>,
    pub title: Seq<char>,
    pub body: Seq<char>,
    pub job_id: Option<Seq<char>>,
}

/// An optional string as values.
pub open spec fn opt_view(o: Option<String>) -> Option<Seq<char>> {
    match o {
        Some(s) => Some(s@),
        None => None,
    }
}

impl View for NotificationEvent {
    type V = NotificationView;

    open spec fn view(&self) -> NotificationView {
        NotificationView {
            thread: self.thread@,
            kind: self.kind@,
            title: self.title@,
            body: self.body@,
            job_id: opt_view(self.job_id),
        }
    }
}

/// The fields of a daemon the host decides on.
pub struct DaemonView {
    pub name: Seq<char>,
    pub state: Seq<char>,
    pub command: Seq<char>,
    pub owner: Option<Seq<char>>,
}

impl View for BrokerDaemon {
    type V = DaemonView;

    open spec fn view(&self) -> DaemonView {
        DaemonView {
            name: self.name@,
            state: self.state@,
            command: self.command@,
            owner: opt_view(self.owner),
        }
    }
}

/// A scope as values: its directory and its daemons.
pub struct ScopeView {
    pub project_dir: Seq<char>,
    pub daemons: Seq<DaemonView>,
}

impl View for BrokerScope {
    type V = ScopeView;

    open spec fn view(&self) -> ScopeView {
        ScopeView {
            project_dir: self.project_dir@,
            daemons: self.daemons@.map_values(|d: BrokerDaemon| d@),
        }
    }
}

/// A task of a plan as values.
pub struct TaskView {
    pub content: Seq<char>,
    pub status: Seq<char>,
    pub blocker: Option<Seq<char>>,
}

/// A phase of a plan as values.
pub struct PhaseView {
    pub name: Seq<char>,
    pub tasks: Seq<TaskView>,
}

impl View for TodoTaskSnapshot {
    type V = TaskView;

    open spec fn view(&self) -> TaskView {
        TaskView { content: self.content@, status: self.status@, blocker: opt_view(self.blocker) }
    }
}

impl View for TodoPhaseSnapshot {
    type V = PhaseView;

    open spec fn view(&self) -> PhaseView {
        PhaseView { name: self.name@, tasks: self.tasks@.map_values(|t: TodoTaskSnapshot| t@) }
    }
}

impl View for TodoTaskInput {
    type V = TaskView;

    open spec fn view(&self) -> TaskView {
        TaskView { content: self.content@, status: self.status@, blocker: opt_view(self.blocker) }
    }
}

impl View for TodoPhaseInput {
    type V = PhaseView;

    open spec fn view(&self) -> PhaseView {
        PhaseView { name: self.name@, tasks: self.tasks@.map_values(|t: TodoTaskInput| t@) }
    }
}

/// A tree entry as values.
pub struct EntryView {
    pub name: Seq<char>,
    pub path: Seq<char>,
    pub is_dir: bool,
    pub size: u64,
    pub modified_at: u64,
}

impl View for WorkspaceEntry {
    type V = EntryView;

    open spec fn view(&self) -> EntryView {
        EntryView {
            name: self.name@,
            path: self.path@,
            is_dir: self.is_dir,
            size: self.size,
            modified_at: self.modified_at,
        }
    }
}

/// A parked agent as values.
pub struct ParkedView {
    pub id: Seq<char>,
    pub path: Seq<char>,
    pub bytes: u64,
    pub modified_ms: u64,
    pub cwd: Seq<char>,
    pub parent: Option<Seq<char>>,
    pub advisor: bool,
    pub advisor_slug: Option<Seq<char>>,
}

impl View for ParkedAgent {
    type V = ParkedView;

    open spec fn view(&self) -> ParkedView {
        ParkedView {
            id: self.id@,
            path: self.path@,
            bytes: self.bytes,
            modified_ms: self.modified_ms,
            cwd: self.cwd@,
            parent: opt_view(self.parent),
            advisor: self.advisor,
            advisor_slug: opt_view(self.advisor_slug),
        }
    }
}

/// A picker row as values.
pub struct OptionView {
    pub provider: Seq<char>,
    pub id: Seq<char>,
    pub name: Seq<char>,
    pub context_window: Option<u64>,
    pub reasoning: bool,
    pub default_effort: Option<Seq<char>>,
    pub efforts: Seq<Seq<char>>,
}

impl View for ModelOption {
    type V = OptionView;

    open spec fn view(&self) -> OptionView {
        OptionView {
            provider: self.provider@,
            id: self.id@,
            name: self.name@,
            context_window: self.context_window,
            reasoning: self.reasoning,
            default_effort: opt_view(self.default_effort),
            efforts: self.efforts@.map_values(|e: String| e@),
        }
    }
}

impl ModelOption {
    /// A copy of this row.
    pub fn duplicate(&self) -> (r: ModelOption)
        ensures
            r@ == self@,
    {
        let mut efforts: Vec<String> = Vec::new();
        let mut i: usize = 0;
        while i < self.efforts.len()
            invariant
                i <= self.efforts@.len(),
                efforts@.len() == i,
                forall|k: int| 0 <= k < i ==> #[trigger] efforts@[k]@ == self.efforts@[k]@,
            decreases self.efforts@.len() - i,
        {
            efforts.push(self.efforts[i].clone());
            i = i + 1;
        }
        let r = ModelOption {
            provider: self.provider.clone(),
            id: self.id.clone(),
            name: self.name.clone(),
            context_window: self.context_window,
            reasoning: self.reasoning,
            default_effort: match &self.default_effort {
                Some(e) => Some(e.clone()),
                None => None,
            },
            efforts,
        };
        assert(r@.efforts =~= self@.efforts);
        r
    }
}

} // verus!
