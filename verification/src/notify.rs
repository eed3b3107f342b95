//! What the host tells the window about, and when.
//!
//! Two jobs, seen from two sides: the **triggers** — four facts, folded out of a session's
//! event stream and the broker's process list, each firing once per real occurrence — and
//! the **body** of what is said: the engine's own words, cut to one line, never a summary.
//!
//! The rules are a value ([`Notifier`]) fed one event at a time, because "fires once" is a
//! property of a sequence: a dialog replayed on resume must not announce itself twice, and a
//! failure a retry already reported must not be reported again by the end that follows it.
//!
//! Nothing here decides whether a person should be interrupted: the window knows what is on
//! screen, and the host reports facts.
use vstd::prelude::*;

use crate::dto::{opt_view, BrokerDaemon, BrokerScope, DaemonView, NotificationEvent, NotificationView, ScopeView};
use crate::order::{sort_by_key, sorted_by_key, views, Keyed};
use crate::table::{find_key, keys_unique, lemma_table_at, lemma_table_len, table_map, upsert};
use crate::text::{blank, is_blank, str_eq, trim, trim_str};

verus! {

broadcast use vstd::seq_lib::group_to_multiset_ensures;

/// A turn finished and nothing is wrong.
pub const KIND_TURN_FINISHED: &'static str = "turn-finished";

/// The engine is blocked on a dialog.
pub const KIND_NEEDS_YOU: &'static str = "needs-you";

/// The turn failed, or a retry sequence gave up.
pub const KIND_FAILED: &'static str = "failed";

/// A background job left the broker's running list.
pub const KIND_JOB_FINISHED: &'static str = "job-finished";

/// How many characters a notification body may have before it is cut.
///
/// A banner is one line, and the engine's sentences are sometimes a whole tool result: cut
/// on a character boundary rather than summarised.
pub const MAX_BODY_CHARS: usize = 240;

/// What the host knows about a thread the moment a trigger fires.
#[derive(Debug, Clone, Default)]
pub struct Facts {
    /// The engine's session id: the notification's thread.
    pub thread: String,
    /// The session's own name, when it has one.
    pub name: Option<String>,
    /// The conversation's most recent failure, as the transcript recorded it.
    pub failure: Option<String>,
    /// The engine's last assistant text.
    pub answer: Option<String>,
}

/// Facts as values.
pub struct FactsView {
    pub thread: Seq<char>,
    pub name: Option<Seq<char>>,
    pub failure: Option<Seq<char>>,
    pub answer: Option<Seq<char>>,
}

impl View for Facts {
    type V = FactsView;

    open spec fn view(&self) -> FactsView {
        FactsView {
            thread: self.thread@,
            name: opt_view(self.name),
            failure: opt_view(self.failure),
            answer: opt_view(self.answer),
        }
    }
}

/// One streamed event, as far as the trigger rules read it.
pub enum StreamEvent {
    /// The run ended: a terminal end of the agent's loop.
    EndsRun,
    /// A retry sequence ended without success, with the engine's final error when it gave one.
    RetryGaveUp { final_error: Option<String> },
    /// Anything else the stream carries.
    Other,
}

/// A stream event as values.
pub enum EventView {
    EndsRun,
    RetryGaveUp { final_error: Option<Seq<char>> },
    Other,
}

impl View for StreamEvent {
    type V = EventView;

    open spec fn view(&self) -> EventView {
        match self {
            StreamEvent::EndsRun => EventView::EndsRun,
            StreamEvent::RetryGaveUp { final_error } => EventView::RetryGaveUp {
                final_error: opt_view(*final_error),
            },
            StreamEvent::Other => EventView::Other,
        }
    }
}

/// A blocking dialog, as far as the trigger rules read it.
#[derive(Debug, Clone)]
pub struct DialogRequest {
    pub id: String,
    pub title: String,
    pub message: String,
}

/// A dialog as values.
pub struct DialogView {
    pub id: Seq<char>,
    pub title: Seq<char>,
    pub message: Seq<char>,
}

impl View for DialogRequest {
    type V = DialogView;

    open spec fn view(&self) -> DialogView {
        DialogView { id: self.id@, title: self.title@, message: self.message@ }
    }
}

/// The trigger rules, as one value per session.
pub struct Notifier {
    /// Dialog ids already announced.
    announced: Vec<String>,
    /// The failure already reported.
    failure: Option<String>,
}

/// A notifier as values: the dialogs it has announced, and the failure it last reported.
pub struct NotifierView {
    pub announced: Set<Seq<char>>,
    pub failure: Option<Seq<char>>,
}

impl View for Notifier {
    type V = NotifierView;

    closed spec fn view(&self) -> NotifierView {
        NotifierView { announced: views(self.announced@).to_set(), failure: opt_view(self.failure) }
    }
}

/// The session's own name, or its id when it has none that is more than whitespace.
pub open spec fn title_of(f: FactsView) -> Seq<char> {
    match f.name {
        Some(n) => if blank(n) {
            f.thread
        } else {
            n
        },
        None => f.thread,
    }
}

/// One line at most: the text trimmed, and cut after [`MAX_BODY_CHARS`] characters with an
/// ellipsis when it is longer.
pub open spec fn clamp_spec(text: Seq<char>) -> Seq<char> {
    let t = trim(text);
    if t.len() <= MAX_BODY_CHARS {
        t
    } else {
        t.take(MAX_BODY_CHARS as int).push('…')
    }
}

/// The text of an optional string, or nothing.
pub open spec fn or_empty(o: Option<Seq<char>>) -> Seq<char> {
    match o {
        Some(s) => s,
        None => Seq::empty(),
    }
}

/// The notification a turn that finished cleanly earns.
pub open spec fn finished_spec(f: FactsView) -> NotificationView {
    NotificationView {
        thread: f.thread,
        kind: KIND_TURN_FINISHED@,
        title: title_of(f),
        body: clamp_spec(or_empty(f.answer)),
        job_id: None,
    }
}

/// The notification a failure earns.
pub open spec fn failed_spec(f: FactsView, error: Seq<char>) -> NotificationView {
    NotificationView {
        thread: f.thread,
        kind: KIND_FAILED@,
        title: title_of(f),
        body: clamp_spec(error),
        job_id: None,
    }
}

/// One event folded in: the notifier after it, and the notification it earns.
///
/// An end of the run reports a failure when the facts hold one that was not already
/// reported, nothing when they hold the one that was, and a finished turn otherwise. A
/// retry that gave up reports the transcript's failure, or the engine's final error, or an
/// empty body — and remembers it, so the end that follows does not report it again.
pub open spec fn event_spec(n: NotifierView, e: EventView, f: FactsView) -> (NotifierView, Option<NotificationView>) {
    match e {
        EventView::EndsRun => match f.failure {
            Some(error) => if n.failure == Some(error) {
                (n, None)
            } else {
                (NotifierView { failure: Some(error), ..n }, Some(failed_spec(f, error)))
            },
            None => (n, Some(finished_spec(f))),
        },
        EventView::RetryGaveUp { final_error } => {
            let error = match f.failure {
                Some(x) => x,
                None => or_empty(final_error),
            };
            (NotifierView { failure: Some(error), ..n }, Some(failed_spec(f, error)))
        },
        EventView::Other => (n, None),
    }
}

/// What a dialog says: its title, or its message when the title is blank.
pub open spec fn prompt_of(d: DialogView) -> Seq<char> {
    if blank(d.title) {
        d.message
    } else {
        d.title
    }
}

/// One dialog folded in: announced the first time its id is seen, and never again.
pub open spec fn dialog_spec(n: NotifierView, d: DialogView, f: FactsView) -> (NotifierView, Option<NotificationView>) {
    if n.announced.contains(d.id) {
        (n, None)
    } else {
        (
            NotifierView { announced: n.announced.insert(d.id), ..n },
            Some(
                NotificationView {
                    thread: f.thread,
                    kind: KIND_NEEDS_YOU@,
                    title: title_of(f),
                    body: clamp_spec(prompt_of(d)),
                    job_id: None,
                },
            ),
        )
    }
}

fn or_empty_str(o: &Option<String>) -> (r: &str)
    ensures
        r@ == or_empty(opt_view(*o)),
{
    proof {
        reveal_strlit("");
    }
    match o {
        Some(s) => s.as_str(),
        None => "",
    }
}

fn title(facts: &Facts) -> (r: String)
    ensures
        r@ == title_of(facts@),
{
    match &facts.name {
        Some(name) => if is_blank(name.as_str()) {
            facts.thread.clone()
        } else {
            name.clone()
        },
        None => facts.thread.clone(),
    }
}

fn clamp(text: &str) -> (r: String)
    ensures
        r@ == clamp_spec(text@),
{
    let trimmed = trim_str(text);
    let n = trimmed.unicode_len();
    if n <= MAX_BODY_CHARS {
        return trimmed.to_owned();
    }
    let mut cut = trimmed.substring_char(0, MAX_BODY_CHARS).to_owned();
    let ellipsis = "…";
    proof {
        reveal_strlit("…");
    }
    cut.append(ellipsis);
    assert(cut@ =~= clamp_spec(text@));
    cut
}

fn finished(facts: &Facts) -> (r: NotificationEvent)
    ensures
        r@ == finished_spec(facts@),
{
    NotificationEvent {
        thread: facts.thread.clone(),
        kind: KIND_TURN_FINISHED.to_owned(),
        title: title(facts),
        body: clamp(or_empty_str(&facts.answer)),
        job_id: None,
    }
}

fn failed(facts: &Facts, error: &str) -> (r: NotificationEvent)
    ensures
        r@ == failed_spec(facts@, error@),
{
    NotificationEvent {
        thread: facts.thread.clone(),
        kind: KIND_FAILED.to_owned(),
        title: title(facts),
        body: clamp(error),
        job_id: None,
    }
}

fn holds_string(s: &Vec<String>, x: &str) -> (r: bool)
    ensures
        r == views(s@).contains(x@),
{
    let mut i: usize = 0;
    while i < s.len()
        invariant
            i <= s@.len(),
            forall|q: int| 0 <= q < i ==> s@[q]@ != x@,
        decreases s@.len() - i,
    {
        if str_eq(s[i].as_str(), x) {
            assert(views(s@)[i as int] == x@);
            return true;
        }
        i = i + 1;
    }
    assert forall|q: int| 0 <= q < views(s@).len() implies views(s@)[q] != x@ by {
        assert(views(s@)[q] == s@[q]@);
    }
    false
}

impl Notifier {
    /// A notifier that has announced nothing and reported nothing.
    pub fn new() -> (r: Notifier)
        ensures
            r@.announced == Set::<Seq<char>>::empty(),
            r@.failure is None,
    {
        let r = Notifier { announced: Vec::new(), failure: None };
        assert(views(r.announced@) =~= Seq::<Seq<char>>::empty());
        assert(r@.announced =~= Set::<Seq<char>>::empty());
        r
    }

    /// Fold one streamed event in, returning the notification it earns.
    pub fn event(&mut self, event: &StreamEvent, facts: &Facts) -> (r: Option<NotificationEvent>)
        ensures
            final(self)@ == event_spec(old(self)@, event@, facts@).0,
            match r {
                Some(x) => event_spec(old(self)@, event@, facts@).1 == Some(x@),
                None => event_spec(old(self)@, event@, facts@).1 is None,
            },
    {
        match event {
            StreamEvent::EndsRun => match &facts.failure {
                Some(error) => {
                    let already = match &self.failure {
                        Some(reported) => str_eq(reported.as_str(), error.as_str()),
                        None => false,
                    };
                    if already {
                        None
                    } else {
                        self.failure = Some(error.clone());
                        Some(failed(facts, error.as_str()))
                    }
                },
                None => Some(finished(facts)),
            },
            StreamEvent::RetryGaveUp { final_error } => {
                let error = match &facts.failure {
                    Some(x) => x.clone(),
                    None => or_empty_str(final_error).to_owned(),
                };
                let r = failed(facts, error.as_str());
                self.failure = Some(error);
                Some(r)
            },
            StreamEvent::Other => None,
        }
    }

    /// A blocking dialog arrived: the notification its first arrival earns.
    ///
    /// Once per id: the engine re-publishes its pending set on resume and reconnect, and a
    /// banner per re-publication would be the same question asked again.
    pub fn dialog(&mut self, request: &DialogRequest, facts: &Facts) -> (r: Option<NotificationEvent>)
        ensures
            final(self)@ == dialog_spec(old(self)@, request@, facts@).0,
            match r {
                Some(x) => dialog_spec(old(self)@, request@, facts@).1 == Some(x@),
                None => dialog_spec(old(self)@, request@, facts@).1 is None,
            },
    {
        if holds_string(&self.announced, request.id.as_str()) {
            return None;
        }
        let ghost before = self.announced@;
        self.announced.push(request.id.clone());
        assert(views(self.announced@) =~= views(before).push(request.id@));
        proof {
            views(before).lemma_push_to_set_commute(request.id@);
        }
        let prompt = if is_blank(request.title.as_str()) {
            request.message.as_str()
        } else {
            request.title.as_str()
        };
        Some(
            NotificationEvent {
                thread: facts.thread.clone(),
                kind: KIND_NEEDS_YOU.to_owned(),
                title: title(facts),
                body: clamp(prompt),
                job_id: None,
            },
        )
    }

    /// A failure the host itself saw — a sidecar that died mid-turn — as `failed`.
    pub fn host_failure(&self, facts: &Facts, error: &str) -> (r: NotificationEvent)
        ensures
            r@ == failed_spec(facts@, error@),
    {
        failed(facts, error)
    }

    /// A job left the broker's running list.
    ///
    /// Attributed to the session that started it, when the engine recorded one; otherwise
    /// the thread is left empty rather than guessed.
    pub fn job(&self, job: &DepartedJob, name: Option<&str>) -> (r: NotificationEvent)
        ensures
            r@ == job_spec(job@, match name {
                Some(n) => Some(n@),
                None => None,
            }),
    {
        let owner = or_empty_str(&job.owner).to_owned();
        let status = if job.state.unicode_len() == 0 {
            job.command.clone()
        } else if job.command.unicode_len() == 0 {
            job.state.clone()
        } else {
            let mut s = job.state.clone();
            let sep = ": ";
            proof {
                reveal_strlit(": ");
            }
            s.append(sep);
            s.append(job.command.as_str());
            s
        };
        let title = match name {
            Some(n) => n.to_owned(),
            None => job.name.clone(),
        };
        NotificationEvent {
            thread: owner,
            kind: KIND_JOB_FINISHED.to_owned(),
            title,
            body: clamp(status.as_str()),
            job_id: Some(job.name.clone()),
        }
    }
}

/// One broker daemon as it was last seen running.
#[derive(Debug, Clone, PartialEq, Eq)]
pub struct DepartedJob {
    /// The broker's own name for the daemon.
    pub name: String,
    /// The engine's lifecycle word.
    pub state: String,
    /// The command the broker launched.
    pub command: String,
    /// The session that started it, when the engine recorded one.
    pub owner: Option<String>,
}

/// A departed job as values.
pub struct JobView {
    pub name: Seq<char>,
    pub state: Seq<char>,
    pub command: Seq<char>,
    pub owner: Option<Seq<char>>,
}

impl View for DepartedJob {
    type V = JobView;

    open spec fn view(&self) -> JobView {
        JobView {
            name: self.name@,
            state: self.state@,
            command: self.command@,
            owner: opt_view(self.owner),
        }
    }
}

impl DepartedJob {
    /// A copy of this job.
    pub fn duplicate(&self) -> (r: DepartedJob)
        ensures
            r@ == self@,
    {
        let owner = match &self.owner {
            Some(o) => Some(o.clone()),
            None => None,
        };
        DepartedJob {
            name: self.name.clone(),
            state: self.state.clone(),
            command: self.command.clone(),
            owner,
        }
    }
}

impl Keyed for DepartedJob {
    open spec fn key_of(v: JobView) -> Seq<char> {
        v.name
    }

    fn key(&self) -> (r: &str) {
        self.name.as_str()
    }
}

/// What a departed job's notification says about it: its state and its command.
pub open spec fn status_of(job: JobView) -> Seq<char> {
    if job.state.len() == 0 {
        job.command
    } else if job.command.len() == 0 {
        job.state
    } else {
        job.state + ": "@ + job.command
    }
}

/// The notification a departed job earns; `name` is its owner session's name, when known.
pub open spec fn job_spec(job: JobView, name: Option<Seq<char>>) -> NotificationView {
    NotificationView {
        thread: or_empty(job.owner),
        kind: KIND_JOB_FINISHED@,
        title: match name {
            Some(n) => n,
            None => job.name,
        },
        body: clamp_spec(status_of(job)),
        job_id: Some(job.name),
    }
}

/// A daemon as a job to watch: an empty owner is no owner.
pub open spec fn job_of(d: DaemonView) -> JobView {
    JobView {
        name: d.name,
        state: d.state,
        command: d.command,
        owner: match d.owner {
            Some(o) => if o.len() == 0 {
                None
            } else {
                Some(o)
            },
            None => None,
        },
    }
}

/// A daemon's identity in the broker's list: its scope, a NUL, and its name.
///
/// Names are unique per scope, not per machine, so the scope is part of the key.
pub open spec fn key_spec(scope: Seq<char>, name: Seq<char>) -> Seq<char> {
    scope + seq!['\u{0}'] + name
}

/// Whether the engine still lists a daemon in this state as running: every state but the
/// two terminal ones, `exited` and `failed`.
pub open spec fn running_state(state: Seq<char>) -> bool {
    state != "exited"@ && state != "failed"@
}

/// The running daemons of one scope, keyed, in the order the broker listed them.
pub open spec fn daemon_entries(scope: Seq<char>, daemons: Seq<DaemonView>) -> Seq<(Seq<char>, JobView)>
    decreases daemons.len(),
{
    if daemons.len() == 0 {
        Seq::empty()
    } else {
        let rest = daemon_entries(scope, daemons.drop_last());
        let d = daemons.last();
        if running_state(d.state) {
            rest.push((key_spec(scope, d.name), job_of(d)))
        } else {
            rest
        }
    }
}

/// The running daemons of every scope, keyed, in the order the broker listed them.
pub open spec fn running_entries(scopes: Seq<ScopeView>) -> Seq<(Seq<char>, JobView)>
    decreases scopes.len(),
{
    if scopes.len() == 0 {
        Seq::empty()
    } else {
        running_entries(scopes.drop_last()) + daemon_entries(scopes.last().project_dir, scopes.last().daemons)
    }
}

/// Entries as a map, a later entry replacing an earlier one under the same key.
pub open spec fn entries_map(entries: Seq<(Seq<char>, JobView)>) -> Map<Seq<char>, JobView>
    decreases entries.len(),
{
    if entries.len() == 0 {
        Map::empty()
    } else {
        entries_map(entries.drop_last()).insert(entries.last().0, entries.last().1)
    }
}

/// Every daemon the broker lists as running, keyed by scope and name.
pub struct RunningJobs {
    entries: Vec<(String, DepartedJob)>,
}

impl View for RunningJobs {
    type V = Map<Seq<char>, JobView>;

    closed spec fn view(&self) -> Map<Seq<char>, JobView> {
        table_map(self.entries@).map_values(|j: DepartedJob| j@)
    }
}

impl RunningJobs {
    #[verifier::type_invariant]
    spec fn well_formed(self) -> bool {
        keys_unique(self.entries@)
    }

    /// No job is running.
    pub fn empty() -> (r: RunningJobs)
        ensures
            r@ == Map::<Seq<char>, JobView>::empty(),
    {
        let r = RunningJobs { entries: Vec::new() };
        assert(r@ =~= Map::<Seq<char>, JobView>::empty());
        r
    }

    /// How many jobs are running.
    pub fn len(&self) -> (r: usize)
        ensures
            r == self@.len(),
    {
        proof {
            use_type_invariant(self);
            lemma_table_len(self.entries@);
            assert(self@.dom() =~= table_map(self.entries@).dom());
        }
        self.entries.len()
    }

    /// Whether no job is running.
    pub fn is_empty(&self) -> (r: bool)
        ensures
            r == (self@.len() == 0),
    {
        self.len() == 0
    }

    /// Whether a job is running under `key`.
    pub fn contains(&self, key: &str) -> (r: bool)
        ensures
            r == self@.contains_key(key@),
    {
        find_key(&self.entries, key).is_some()
    }
}

fn job_from(daemon: &BrokerDaemon) -> (r: DepartedJob)
    ensures
        r@ == job_of(daemon@),
{
    let owner = match &daemon.owner {
        Some(o) => if o.unicode_len() == 0 {
            None
        } else {
            Some(o.clone())
        },
        None => None,
    };
    DepartedJob {
        name: daemon.name.clone(),
        state: daemon.state.clone(),
        command: daemon.command.clone(),
        owner,
    }
}

fn key(scope: &str, daemon: &BrokerDaemon) -> (r: String)
    ensures
        r@ == key_spec(scope@, daemon.name@),
{
    let mut k = scope.to_owned();
    let nul = "\u{0}";
    proof {
        reveal_strlit("\u{0}");
    }
    k.append(nul);
    k.append(daemon.name.as_str());
    k
}

fn still_running(daemon: &BrokerDaemon) -> (r: bool)
    ensures
        r == running_state(daemon.state@),
{
    let exited = "exited";
    let failed = "failed";
    proof {
        reveal_strlit("exited");
        reveal_strlit("failed");
    }
    !(str_eq(daemon.state.as_str(), exited) || str_eq(daemon.state.as_str(), failed))
}

proof fn lemma_entries_map_push(a: Seq<(Seq<char>, JobView)>, x: (Seq<char>, JobView))
    ensures
        entries_map(a.push(x)) == entries_map(a).insert(x.0, x.1),
{
    assert(a.push(x).drop_last() =~= a);
}

/// Every daemon the broker currently lists as running, keyed by scope and name, ready to
/// be compared with the next poll's list.
pub fn running_jobs(scopes: &[BrokerScope]) -> (r: RunningJobs)
    ensures
        r@ == entries_map(running_entries(scopes@.map_values(|s: BrokerScope| s@))),
{
    let ghost sv = scopes@.map_values(|s: BrokerScope| s@);
    let mut entries: Vec<(String, DepartedJob)> = Vec::new();
    assert(table_map(entries@).map_values(|j: DepartedJob| j@) =~= Map::<Seq<char>, JobView>::empty());
    let mut i: usize = 0;
    while i < scopes.len()
        invariant
            i <= scopes@.len(),
            sv == scopes@.map_values(|s: BrokerScope| s@),
            keys_unique(entries@),
            table_map(entries@).map_values(|j: DepartedJob| j@) == entries_map(running_entries(sv.take(i as int))),
        decreases scopes@.len() - i,
    {
        let scope = &scopes[i];
        let ghost done = running_entries(sv.take(i as int));
        assert(sv.take(i + 1).drop_last() =~= sv.take(i as int));
        assert(sv[i as int] == scope@);
        let mut j: usize = 0;
        assert(scope@.daemons.take(0) =~= Seq::<DaemonView>::empty());
        assert(done + daemon_entries(scope@.project_dir, scope@.daemons.take(0)) =~= done);
        while j < scope.daemons.len()
            invariant
                j <= scope.daemons@.len(),
                scope@ == sv[i as int],
                keys_unique(entries@),
                table_map(entries@).map_values(|jb: DepartedJob| jb@) == entries_map(done + daemon_entries(scope@.project_dir, scope@.daemons.take(j as int))),
            decreases scope.daemons@.len() - j,
        {
            let daemon = &scope.daemons[j];
            let ghost dv = scope@.daemons;
            assert(dv.take(j + 1).drop_last() =~= dv.take(j as int));
            assert(dv[j as int] == daemon@);
            let ghost prior = done + daemon_entries(scope@.project_dir, dv.take(j as int));
            if still_running(daemon) {
                let k = key(scope.project_dir.as_str(), daemon);
                let job = job_from(daemon);
                let ghost e = (k@, job@);
                let ghost before = entries@;
                upsert(&mut entries, k, job);
                proof {
                    assert(done + daemon_entries(scope@.project_dir, dv.take(j + 1)) =~= prior.push(e));
                    lemma_entries_map_push(prior, e);
                    assert(table_map(entries@).map_values(|jb: DepartedJob| jb@) =~= table_map(before).map_values(|jb: DepartedJob| jb@).insert(e.0, e.1));
                }
            } else {
                assert(done + daemon_entries(scope@.project_dir, dv.take(j + 1)) =~= prior);
            }
            j = j + 1;
        }
        assert(scope@.daemons.take(scope@.daemons.len() as int) =~= scope@.daemons);
        assert(running_entries(sv.take(i + 1)) == done + daemon_entries(scope@.project_dir, scope@.daemons));
        i = i + 1;
    }
    assert(sv.take(scopes@.len() as int) =~= sv);
    RunningJobs { entries }
}

/// The jobs that are in `previous` and not in `current`.
pub open spec fn departed_keys(previous: Map<Seq<char>, JobView>, current: Map<Seq<char>, JobView>) -> Set<Seq<char>> {
    previous.dom().filter(|k: Seq<char>| !current.contains_key(k))
}

/// The jobs that were running at the previous poll and are not running now, in order by
/// name — so two departures in one poll arrive in a stable order.
///
/// Exactly one job per departed key: the result is the previous poll's jobs under some
/// listing of those keys, each once, sorted.
pub fn departures(previous: &RunningJobs, current: &RunningJobs) -> (r: Vec<DepartedJob>)
    ensures
        sorted_by_key::<DepartedJob>(views(r@)),
        exists|ks: Seq<Seq<char>>|
            #![trigger ks.to_set()]
            {
                &&& ks.no_duplicates()
                &&& ks.to_set() == departed_keys(previous@, current@)
                &&& views(r@).to_multiset() == ks.map_values(|k: Seq<char>| previous@[k]).to_multiset()
            },
{
    proof {
        use_type_invariant(previous);
        use_type_invariant(current);
    }
    let ghost pe = previous.entries@;
    let mut left: Vec<DepartedJob> = Vec::new();
    let ghost mut ks: Seq<Seq<char>> = Seq::empty();
    let ghost mut ps: Seq<int> = Seq::empty();
    let mut i: usize = 0;
    while i < previous.entries.len()
        invariant
            i <= pe.len(),
            pe == previous.entries@,
            keys_unique(pe),
            ks.len() == left@.len(),
            ps.len() == ks.len(),
            forall|q: int| 0 <= q < ks.len() ==> 0 <= #[trigger] ps[q] < i,
            forall|q: int| 0 <= q < ks.len() ==> #[trigger] ks[q] == pe[ps[q]].0@,
            forall|q: int| 0 <= q < ks.len() ==> !current@.contains_key(#[trigger] ks[q]),
            forall|q: int| 0 <= q < ks.len() ==> #[trigger] left@[q]@ == pe[ps[q]].1@,
            forall|p: int| 0 <= p < i && !current@.contains_key(#[trigger] pe[p].0@) ==> ks.contains(pe[p].0@),
            ks.no_duplicates(),
        decreases pe.len() - i,
    {
        let entry = &previous.entries[i];
        if !current.contains(entry.0.as_str()) {
            proof {
                assert(!ks.contains(pe[i as int].0@)) by {
                    if ks.contains(pe[i as int].0@) {
                        let q = choose|q: int| 0 <= q < ks.len() && ks[q] == pe[i as int].0@;
                        let p = ps[q];
                        assert(ks[q] == pe[p].0@);
                        assert(pe[p].0@ != pe[i as int].0@);
                    }
                }
            }
            let ghost old_ks = ks;
            let ghost old_ps = ps;
            let ghost old_left = left@;
            left.push(entry.1.duplicate());
            proof {
                ks = ks.push(pe[i as int].0@);
                ps = ps.push(i as int);
                assert forall|q: int| 0 <= q < ks.len() implies #[trigger] left@[q]@ == pe[ps[q]].1@ by {
                    if q < old_ks.len() {
                        assert(left@[q] == old_left[q]);
                    }
                }
                assert forall|p: int| 0 <= p < i + 1 && !current@.contains_key(#[trigger] pe[p].0@) implies ks.contains(pe[p].0@) by {
                    if p < i {
                        let q = choose|q: int| 0 <= q < old_ks.len() && old_ks[q] == pe[p].0@;
                        assert(ks[q] == old_ks[q]);
                    } else {
                        assert(ks[ks.len() - 1] == pe[p].0@);
                    }
                }
            }
        }
        i = i + 1;
    }
    proof {
        let pm = previous@;
        assert forall|k: Seq<char>| ks.to_set().contains(k) <==> departed_keys(pm, current@).contains(k) by {
            if ks.to_set().contains(k) {
                let q = choose|q: int| 0 <= q < ks.len() && ks[q] == k;
                lemma_table_at(pe, ps[q]);
                assert(ks[q] == pe[ps[q]].0@);
            }
            if departed_keys(pm, current@).contains(k) {
                let p = choose|p: int| 0 <= p < pe.len() && pe[p].0@ == k;
                assert(ks.contains(pe[p].0@));
            }
        }
        assert(ks.to_set() =~= departed_keys(pm, current@));
        assert(views(left@) =~= ks.map_values(|k: Seq<char>| pm[k])) by {
            assert forall|q: int| 0 <= q < ks.len() implies views(left@)[q] == pm[ks[q]] by {
                assert(views(left@)[q] == left@[q]@);
                lemma_table_at(pe, ps[q]);
                assert(ks[q] == pe[ps[q]].0@);
            }
        }
    }
    let r = sort_by_key(left);
    r
}

/// A dialog is announced once per id: after a dialog has been folded in, any dialog with
/// the same id — its re-publication on resume, whatever its text — earns nothing.
pub proof fn law_dialog_announced_once(n: NotifierView, d: DialogView, f: FactsView, again: DialogView, f2: FactsView)
    requires
        again.id == d.id,
    ensures
        dialog_spec(dialog_spec(n, d, f).0, again, f2).1 is None,
        dialog_spec(n, d, f).1 is Some <==> !n.announced.contains(d.id),
{
}

/// A failure is reported once: after an end of the run or a retry that gave up was folded
/// in while the transcript held a failure, an end of the run that still sees that failure
/// reports nothing.
pub proof fn law_failure_reported_once(n: NotifierView, e: EventView, f: FactsView, f2: FactsView)
    requires
        !(e is Other),
        f.failure is Some,
        f2.failure == f.failure,
    ensures
        event_spec(event_spec(n, e, f).0, EventView::EndsRun, f2).1 is None,
{
}

/// The two rules keep separate memories: an event never changes which dialogs were
/// announced, and a dialog never changes which failure was reported.
pub proof fn law_rules_are_independent(n: NotifierView, e: EventView, d: DialogView, f: FactsView)
    ensures
        event_spec(n, e, f).0.announced == n.announced,
        dialog_spec(n, d, f).0.failure == n.failure,
{
}

/// A body is the engine's text cut, never rewritten: at most one character longer than the
/// limit; the trimmed text itself when it fits; otherwise its first [`MAX_BODY_CHARS`]
/// characters followed by an ellipsis.
pub proof fn law_body_is_cut_not_summarised(text: Seq<char>)
    ensures
        clamp_spec(text).len() <= MAX_BODY_CHARS + 1,
        trim(text).len() <= MAX_BODY_CHARS ==> clamp_spec(text) == trim(text),
        trim(text).len() > MAX_BODY_CHARS ==> {
            &&& clamp_spec(text).len() == MAX_BODY_CHARS + 1
            &&& clamp_spec(text).take(MAX_BODY_CHARS as int) == trim(text).take(MAX_BODY_CHARS as int)
            &&& clamp_spec(text).last() == '…'
        },
{
    if trim(text).len() > MAX_BODY_CHARS {
        assert(clamp_spec(text).take(MAX_BODY_CHARS as int) =~= trim(text).take(MAX_BODY_CHARS as int));
    }
}

/// A retry that gave up is always reported as a failure, and says why: the failure the
/// transcript records when it records one, and otherwise the final error the engine gave
/// (cut to one line), so the engine's own reason is never dropped. It is remembered as the
/// failure reported.
pub proof fn law_a_retry_that_gave_up_says_why(n: NotifierView, f: FactsView, final_error: Option<Seq<char>>)
    ensures
        ({
            let (after, note) = event_spec(n, EventView::RetryGaveUp { final_error }, f);
            &&& note is Some
            &&& note->0.kind == KIND_FAILED@
            &&& note->0.thread == f.thread
            &&& note->0.title == title_of(f)
            &&& note->0.job_id is None
            &&& (f.failure matches Some(x) ==> note->0.body == clamp_spec(x) && after.failure == Some(x))
            &&& (f.failure is None ==> (final_error matches Some(e) ==> note->0.body == clamp_spec(e) && after.failure == Some(e)))
            &&& (f.failure is None && final_error is None ==> note->0.body.len() == 0)
            &&& after.announced == n.announced
        }),
{
    if f.failure is None && final_error is None {
        assert(trim(Seq::<char>::empty()).len() == 0);
    }
}

/// A departed job's body joins its state and its command with `: ` only when it has both;
/// with one of them empty the body is the other alone, never a dangling separator. The
/// notification is a finished job, titled by its owner session's name when known and by the
/// job's own name otherwise, and carries the job's name as its id.
pub proof fn law_a_job_body_never_dangles(job: JobView, name: Option<Seq<char>>)
    ensures
        job.command.len() == 0 ==> job_spec(job, name).body == clamp_spec(job.state),
        job.state.len() == 0 ==> job_spec(job, name).body == clamp_spec(job.command),
        job.state.len() > 0 && job.command.len() > 0 ==> job_spec(job, name).body == clamp_spec(job.state + ": "@ + job.command),
        job_spec(job, name).kind == KIND_JOB_FINISHED@,
        job_spec(job, name).job_id == Some(job.name),
        name matches Some(t) ==> job_spec(job, name).title == t,
        name is None ==> job_spec(job, name).title == job.name,
{
    if job.state.len() == 0 && job.command.len() == 0 {
        assert(job.state =~= job.command);
    }
}

} // verus!
