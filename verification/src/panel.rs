//! The right panel's data: the plan, the workspace tree, and the engine's spilled
//! artifacts.
//!
//! Everything the panel opens is under one of two roots — the thread's workspace and the
//! session's own artifacts directory — and two rules keep it there:
//!
//! * the tree compares resolved paths by components, so a symlink or a `..` segment cannot
//!   walk out of the workspace (the host resolves; [`contained`] decides);
//! * an artifact id must be purely digits, so a crafted id cannot name a file outside the
//!   session's directory even though the lookup is a prefix match.
//!
//! The plan has one rule of its own: an empty plan is refused rather than sent, because
//! replacing a real plan with nothing is the destructive accident this command can cause.
use vstd::prelude::*;

use crate::dto::{opt_view, ArtifactSnapshot, EntryView, PhaseView, TaskView, TodoPhaseInput, TodoPhaseSnapshot, TodoTaskInput, TodoTaskSnapshot, WorkspaceEntry};
use crate::json::{field_views, json_views, list, object, text, Json, JsonView};
use crate::order::{lex_le, lemma_lex_antisym, lemma_lex_total, lemma_lex_trans, sort_by, sorted_by, str_le, views, Ordered};
use crate::paths::{absolute, is_absolute, path_starts_with, starts_with_path};
use crate::text::{all_digits, blank, is_blank, is_ascii_digit, join, join_path, lossy_text, prefix_of, starts_with, str_eq, strip_suffix, suffix_of, utf8_lossy};

verus! {

broadcast use vstd::seq_lib::group_to_multiset_ensures;

/// The most entries one level of the tree answers with.
///
/// A cap on the read rather than on what is shown: a directory with a million names must
/// not stall the window.
pub const MAX_ENTRIES: usize = 2000;

/// The most of an artifact a read hands to the window, in bytes.
pub const MAX_ARTIFACT_BYTES: u64 = 262144;

/// One task of a plan, as the engine's decoded plan holds it.
#[derive(Debug, Clone, PartialEq, Eq)]
pub struct TodoTask {
    pub content: String,
    pub status: String,
    pub blocker: Option<String>,
}

/// One phase of a plan, as the engine's decoded plan holds it.
#[derive(Debug, Clone, PartialEq, Eq)]
pub struct TodoPhase {
    pub name: String,
    pub tasks: Vec<TodoTask>,
}

impl View for TodoTask {
    type V = TaskView;

    open spec fn view(&self) -> TaskView {
        TaskView { content: self.content@, status: self.status@, blocker: opt_view(self.blocker) }
    }
}

impl View for TodoPhase {
    type V = PhaseView;

    open spec fn view(&self) -> PhaseView {
        PhaseView { name: self.name@, tasks: self.tasks@.map_values(|t: TodoTask| t@) }
    }
}

/// A blocker as the panel draws it: a blank one is no blocker.
pub open spec fn shown_blocker(b: Option<Seq<char>>) -> Option<Seq<char>> {
    match b {
        Some(x) => if blank(x) {
            None
        } else {
            Some(x)
        },
        None => None,
    }
}

/// A task as the panel draws it.
pub open spec fn shown_task(t: TaskView) -> TaskView {
    TaskView { blocker: shown_blocker(t.blocker), ..t }
}

/// A phase as the panel draws it.
pub open spec fn shown_phase(p: PhaseView) -> PhaseView {
    PhaseView { name: p.name, tasks: p.tasks.map_values(|t: TaskView| shown_task(t)) }
}

fn shown_task_of(task: &TodoTask) -> (r: TodoTaskSnapshot)
    ensures
        r@ == shown_task(task@),
{
    let blocker = match &task.blocker {
        Some(b) => if is_blank(b.as_str()) {
            None
        } else {
            Some(b.clone())
        },
        None => None,
    };
    TodoTaskSnapshot { content: task.content.clone(), status: task.status.clone(), blocker }
}

/// The panel's shape for a plan, from the engine's decoded one: the same phases and tasks,
/// with a blank blocker drawn as none.
pub fn phases(plan: &[TodoPhase]) -> (r: Vec<TodoPhaseSnapshot>)
    ensures
        r@.map_values(|p: TodoPhaseSnapshot| p@) == plan@.map_values(|p: TodoPhase| shown_phase(p@)),
{
    let mut out: Vec<TodoPhaseSnapshot> = Vec::new();
    let mut i: usize = 0;
    while i < plan.len()
        invariant
            i <= plan@.len(),
            out@.len() == i,
            forall|q: int| 0 <= q < i ==> #[trigger] out@[q]@ == shown_phase(plan@[q]@),
        decreases plan@.len() - i,
    {
        let phase = &plan[i];
        let mut tasks: Vec<TodoTaskSnapshot> = Vec::new();
        let mut j: usize = 0;
        while j < phase.tasks.len()
            invariant
                j <= phase.tasks@.len(),
                tasks@.len() == j,
                forall|q: int| 0 <= q < j ==> #[trigger] tasks@[q]@ == shown_task(phase.tasks@[q]@),
            decreases phase.tasks@.len() - j,
        {
            tasks.push(shown_task_of(&phase.tasks[j]));
            j = j + 1;
        }
        let snapshot = TodoPhaseSnapshot { name: phase.name.clone(), tasks };
        assert(snapshot@.tasks =~= phase@.tasks.map_values(|t: TaskView| shown_task(t)));
        out.push(snapshot);
        i = i + 1;
    }
    assert(out@.map_values(|p: TodoPhaseSnapshot| p@) =~= plan@.map_values(|p: TodoPhase| shown_phase(p@)));
    out
}

/// What the engine receives for a task: its content and status, and its blocker only when
/// it has one — an absent field rather than a null.
pub open spec fn task_json(t: TaskView) -> JsonView {
    let base = seq![("content"@, JsonView::Text(t.content)), ("status"@, JsonView::Text(t.status))];
    match t.blocker {
        Some(b) => JsonView::Object(base.push(("blocker"@, JsonView::Text(b)))),
        None => JsonView::Object(base),
    }
}

/// What the engine receives for a phase.
pub open spec fn phase_json(p: PhaseView) -> JsonView {
    JsonView::Object(
        seq![
            ("name"@, JsonView::Text(p.name)),
            ("tasks"@, JsonView::List(p.tasks.map_values(|t: TaskView| task_json(t)))),
        ],
    )
}

/// The refusal of an empty plan.
pub open spec fn empty_plan_message() -> Seq<char> {
    "refusing to replace the plan with nothing: send one empty phase to clear it"@
}

fn task_to_json(task: &TodoTaskInput) -> (r: Json)
    ensures
        crate::json::json_view(r) == task_json(task@),
{
    let mut fields: Vec<(String, Json)> = Vec::new();
    fields.push(("content".to_owned(), text(task.content.clone())));
    fields.push(("status".to_owned(), text(task.status.clone())));
    match &task.blocker {
        Some(b) => {
            fields.push(("blocker".to_owned(), text(b.clone())));
        },
        None => {},
    }
    let r = object(fields);
    assert(field_views(fields@) =~= task_json(task@)->Object_0);
    r
}

/// The plan to send, or the refusal of an empty one.
///
/// The one place the panel second-guesses a caller: sending is a replace, and the plan it
/// replaces cannot be recovered, so clearing it has to be meant — one empty phase is how
/// the panel says so.
pub fn outgoing(phases: &[TodoPhaseInput]) -> (r: Result<Json, String>)
    ensures
        match r {
            Ok(j) => phases@.len() > 0 && crate::json::json_view(j) == JsonView::List(phases@.map_values(|p: TodoPhaseInput| phase_json(p@))),
            Err(e) => phases@.len() == 0 && e@ == empty_plan_message(),
        },
{
    if phases.len() == 0 {
        return Err("refusing to replace the plan with nothing: send one empty phase to clear it".to_owned());
    }
    let mut items: Vec<Json> = Vec::new();
    let mut i: usize = 0;
    while i < phases.len()
        invariant
            i <= phases@.len(),
            items@.len() == i,
            forall|q: int| 0 <= q < i ==> crate::json::json_view(#[trigger] items@[q]) == phase_json(phases@[q]@),
        decreases phases@.len() - i,
    {
        let phase = &phases[i];
        let mut tasks: Vec<Json> = Vec::new();
        let mut j: usize = 0;
        while j < phase.tasks.len()
            invariant
                j <= phase.tasks@.len(),
                tasks@.len() == j,
                forall|q: int| 0 <= q < j ==> crate::json::json_view(#[trigger] tasks@[q]) == task_json(phase.tasks@[q]@),
            decreases phase.tasks@.len() - j,
        {
            tasks.push(task_to_json(&phase.tasks[j]));
            j = j + 1;
        }
        let ghost tv = tasks@;
        let task_list = list(tasks);
        assert(json_views(tv) =~= phase@.tasks.map_values(|t: TaskView| task_json(t)));
        let mut fields: Vec<(String, Json)> = Vec::new();
        fields.push(("name".to_owned(), text(phase.name.clone())));
        fields.push(("tasks".to_owned(), task_list));
        let item = object(fields);
        assert(field_views(fields@) =~= phase_json(phase@)->Object_0);
        items.push(item);
        i = i + 1;
    }
    let ghost iv = items@;
    let r = list(items);
    assert(json_views(iv) =~= phases@.map_values(|p: TodoPhaseInput| phase_json(p@)));
    Ok(r)
}

/// The directory a tree request names: an absolute path as it is, a relative one under the
/// workspace root.
pub open spec fn requested_spec(root: Seq<char>, given: Seq<char>) -> Seq<char> {
    if absolute(given) {
        given
    } else {
        join_path(root, given)
    }
}

/// The directory a tree request names, before it is resolved.
pub fn requested(root: &str, given: &str) -> (r: String)
    ensures
        r@ == requested_spec(root@, given@),
{
    if is_absolute(given) {
        given.to_owned()
    } else {
        join(root, given)
    }
}

/// The refusal of a resolved directory outside the workspace.
pub open spec fn outside_message(resolved: Seq<char>) -> Seq<char> {
    "`"@ + resolved + "` is outside the thread's workspace, so it will not be listed"@
}

/// Whether a resolved directory may be listed: only one inside the resolved workspace root,
/// compared by components.
pub fn contained(root: &str, resolved: &str) -> (r: Result<(), String>)
    ensures
        r is Ok <==> path_starts_with(resolved@, root@),
        r matches Err(e) ==> e@ == outside_message(resolved@),
{
    if starts_with_path(resolved, root) {
        Ok(())
    } else {
        let mut m = "`".to_owned();
        m.append(resolved);
        m.append("` is outside the thread's workspace, so it will not be listed");
        Err(m)
    }
}

/// `str::to_lowercase`: the text with every character mapped to its Unicode lowercase.
pub uninterp spec fn lowercase(s: Seq<char>) -> Seq<char>;

/// `str::to_lowercase`. The Unicode mappings are std's and are not restated; the result
/// depends on the text alone.
#[verifier::external_body]
fn to_lowercase(s: &str) -> (r: String)
    ensures
        r@ == lowercase(s@),
{
    s.to_lowercase()
}

/// The tree's order: directories first, then by lowercased name, then by name.
pub open spec fn entry_before(a: EntryView, b: EntryView) -> bool {
    if a.is_dir != b.is_dir {
        a.is_dir
    } else if lowercase(a.name) != lowercase(b.name) {
        lex_le(lowercase(a.name), lowercase(b.name))
    } else {
        lex_le(a.name, b.name)
    }
}

impl Ordered for WorkspaceEntry {
    open spec fn before(a: EntryView, b: EntryView) -> bool {
        entry_before(a, b)
    }

    proof fn lemma_total(a: EntryView, b: EntryView) {
        lemma_lex_total(lowercase(a.name), lowercase(b.name));
        lemma_lex_total(a.name, b.name);
    }

    proof fn lemma_trans(a: EntryView, b: EntryView, c: EntryView) {
        let (la, lb, lc) = (lowercase(a.name), lowercase(b.name), lowercase(c.name));
        if a.is_dir == b.is_dir && b.is_dir == c.is_dir {
            if la != lb && lb != lc {
                lemma_lex_trans(la, lb, lc);
                if la == lc {
                    lemma_lex_antisym(la, lb);
                }
            } else if la != lb || lb != lc {
            } else {
                lemma_lex_trans(a.name, b.name, c.name);
            }
        }
    }

    fn le(&self, other: &WorkspaceEntry) -> (r: bool) {
        if self.is_dir != other.is_dir {
            return self.is_dir;
        }
        let a = to_lowercase(self.name.as_str());
        let b = to_lowercase(other.name.as_str());
        if !str_eq(a.as_str(), b.as_str()) {
            str_le(a.as_str(), b.as_str())
        } else {
            str_le(self.name.as_str(), other.name.as_str())
        }
    }
}

/// One level of the tree, from the entries read: at most [`MAX_ENTRIES`] of them — the
/// first ones the filesystem handed over — in the tree's order.
pub fn level(entries: Vec<WorkspaceEntry>) -> (r: Vec<WorkspaceEntry>)
    ensures
        sorted_by::<WorkspaceEntry>(views(r@)),
        views(r@).to_multiset() == views(entries@).take(
            if entries@.len() <= MAX_ENTRIES {
                entries@.len() as int
            } else {
                MAX_ENTRIES as int
            },
        ).to_multiset(),
{
    let mut kept = entries;
    let ghost all = kept@;
    if kept.len() > MAX_ENTRIES {
        kept.truncate(MAX_ENTRIES);
        assert(views(kept@) =~= views(all).take(MAX_ENTRIES as int));
    } else {
        assert(views(kept@) =~= views(all).take(all.len() as int));
    }
    sort_by(kept)
}

/// Whether an id is one the engine could have minted: digits, and nothing else.
pub open spec fn valid_id(id: Seq<char>) -> bool {
    id.len() > 0 && forall|i: int| 0 <= i < id.len() ==> is_ascii_digit(#[trigger] id[i])
}

/// The refusal of an id that is not an artifact id.
pub open spec fn bad_id_message(id: Seq<char>) -> Seq<char> {
    "`"@ + id + "` is not an artifact id: an id is the number the session's tool card named"@
}

/// Refuse an id the engine could not have minted.
///
/// This is the whole of the traversal defence, and it is a gate rather than a filter,
/// because the lookup is a prefix match.
pub fn validate_id(id: &str) -> (r: Result<(), String>)
    ensures
        r is Ok <==> valid_id(id@),
        r matches Err(e) ==> e@ == bad_id_message(id@),
{
    let n = id.unicode_len();
    let mut ok = n > 0;
    let mut i: usize = 0;
    while i < n
        invariant
            n == id@.len(),
            i <= n,
            ok == (n > 0 && forall|k: int| 0 <= k < i ==> is_ascii_digit(#[trigger] id@[k])),
        decreases n - i,
    {
        let c = id.get_char(i);
        if !('0' <= c && c <= '9') {
            ok = false;
        }
        i = i + 1;
    }
    if ok {
        Ok(())
    } else {
        let mut m = "`".to_owned();
        m.append(id);
        m.append("` is not an artifact id: an id is the number the session's tool card named");
        Err(m)
    }
}

/// The refusal of a file that is not a session file.
pub open spec fn not_session_message(file: Seq<char>) -> Seq<char> {
    "`"@ + file + "` is not a session file, so it has no artifacts directory"@
}

/// The artifacts directory a session file implies, by the engine's own rule: the file's
/// path without `.jsonl`. A file that does not end in `.jsonl`, or is nothing else, has
/// none.
pub fn artifacts_dir(session_file: &str) -> (r: Result<String, String>)
    ensures
        match r {
            Ok(d) => suffix_of(".jsonl"@, session_file@) && session_file@.len() > 6 && d@ == session_file@.subrange(0, session_file@.len() - 6),
            Err(e) => !(suffix_of(".jsonl"@, session_file@) && session_file@.len() > 6) && e@ == not_session_message(session_file@),
        },
{
    let suffix = ".jsonl";
    proof {
        reveal_strlit(".jsonl");
    }
    match strip_suffix(session_file, suffix) {
        Some(d) => {
            if d.unicode_len() > 0 {
                return Ok(d.to_owned());
            }
        },
        None => {},
    }
    let mut m = "`".to_owned();
    m.append(session_file);
    m.append("` is not a session file, so it has no artifacts directory");
    Err(m)
}

/// What a missing artifact is, as the panel says it.
pub open spec fn gone_message(id: Seq<char>) -> Seq<char> {
    "artifact `"@ + id + "` is gone: the engine archives a cold session's artifacts (`omp gc`)"@
}

/// What a missing artifact is, as the panel says it.
pub fn gone(id: &str) -> (r: String)
    ensures
        r@ == gone_message(id@),
{
    let mut m = "artifact `".to_owned();
    m.append(id);
    m.append("` is gone: the engine archives a cold session's artifacts (`omp gc`)");
    m
}

/// Whether a file name belongs to artifact `id`: it starts with the id and a dot.
pub open spec fn names_artifact(name: Seq<char>, id: Seq<char>) -> bool {
    prefix_of(id.push('.'), name)
}

/// The file an id names among a directory's entries: the first, in sorted order, whose
/// name starts with `<id>.` — so two ids that share a prefix (`1.` and `10.`) cannot
/// resolve differently between two reads. `names` is `None` when the directory could not
/// be read, which is the same answer as no match: the artifact is gone.
pub fn pick_artifact(id: &str, names: Option<Vec<String>>) -> (r: Result<String, String>)
    ensures
        !valid_id(id@) ==> r == Err::<String, String>(r->Err_0) && r->Err_0@ == bad_id_message(id@),
        valid_id(id@) ==> match r {
            Ok(n) => names is Some && views(names->0@).contains(n@) && names_artifact(n@, id@) && forall|k: int| 0 <= k < names->0@.len() && names_artifact(#[trigger] names->0@[k]@, id@) ==> lex_le(n@, names->0@[k]@),
            Err(e) => e@ == gone_message(id@) && (names is None || forall|k: int| 0 <= k < names->0@.len() ==> !names_artifact(#[trigger] names->0@[k]@, id@)),
        },
{
    match validate_id(id) {
        Err(e) => return Err(e),
        Ok(()) => {},
    }
    let listing = match names {
        Some(n) => n,
        None => return Err(gone(id)),
    };
    let mut prefix = id.to_owned();
    prefix.append(".");
    proof {
        reveal_strlit(".");
        assert(prefix@ =~= id@.push('.'));
    }
    let mut best: Option<usize> = None;
    let mut i: usize = 0;
    while i < listing.len()
        invariant
            i <= listing@.len(),
            prefix@ == id@.push('.'),
            match best {
                Some(b) => b < i && names_artifact(listing@[b as int]@, id@) && forall|k: int| 0 <= k < i && names_artifact(#[trigger] listing@[k]@, id@) ==> lex_le(listing@[b as int]@, listing@[k]@),
                None => forall|k: int| 0 <= k < i ==> !names_artifact(#[trigger] listing@[k]@, id@),
            },
        decreases listing@.len() - i,
    {
        if starts_with(listing[i].as_str(), prefix.as_str()) {
            match best {
                Some(b) => {
                    if !str_le(listing[b].as_str(), listing[i].as_str()) {
                        proof {
                            lemma_lex_total(listing@[b as int]@, listing@[i as int]@);
                            assert forall|k: int| 0 <= k < i + 1 && names_artifact(#[trigger] listing@[k]@, id@) implies lex_le(listing@[i as int]@, listing@[k]@) by {
                                if k < i {
                                    lemma_lex_trans(listing@[i as int]@, listing@[b as int]@, listing@[k]@);
                                } else {
                                    crate::order::lemma_lex_refl(listing@[i as int]@);
                                }
                            }
                        }
                        best = Some(i);
                    }
                },
                None => {
                    proof {
                        crate::order::lemma_lex_refl(listing@[i as int]@);
                    }
                    best = Some(i);
                },
            }
        }
        i = i + 1;
    }
    match best {
        Some(b) => {
            assert(views(listing@)[b as int] == listing@[b as int]@);
            Ok(listing[b].clone())
        },
        None => Err(gone(id)),
    }
}

/// How much of an artifact is shown: the first [`MAX_ARTIFACT_BYTES`] bytes of what was read.
pub open spec fn shown_bytes(content: Seq<u8>) -> Seq<u8> {
    if content.len() <= MAX_ARTIFACT_BYTES {
        content
    } else {
        content.take(MAX_ARTIFACT_BYTES as int)
    }
}

/// An artifact read back: `bytes` is the file's size, `content` what was read of it from the
/// start. At most [`MAX_ARTIFACT_BYTES`] of it is kept. The artifact is truncated exactly when
/// the file holds more than was kept — a file of exactly the cap is complete — and its text is
/// the bytes kept, invalid sequences replaced.
pub fn artifact_snapshot(id: &str, path: String, bytes: u64, content: &[u8]) -> (r: ArtifactSnapshot)
    ensures
        r.id@ == id@,
        r.path@ == path@,
        r.bytes == bytes,
        r.truncated == (bytes > shown_bytes(content@).len()),
        r.text@ == utf8_lossy(shown_bytes(content@)),
{
    let kept: usize = if (content.len() as u64) <= MAX_ARTIFACT_BYTES {
        content.len()
    } else {
        MAX_ARTIFACT_BYTES as usize
    };
    let shown = vstd::slice::slice_subrange(content, 0, kept);
    assert(shown@ =~= shown_bytes(content@));
    ArtifactSnapshot {
        id: id.to_owned(),
        path,
        bytes,
        truncated: (kept as u64) < bytes,
        text: lossy_text(shown),
    }
}

/// An id that is accepted cannot climb out of the artifacts directory: it holds no
/// separator and no dot, so `<id>.` names a file directly inside it.
pub proof fn law_valid_ids_stay_inside(id: Seq<char>)
    requires
        valid_id(id),
    ensures
        !id.contains('/'),
        !id.contains('.'),
        id.len() > 0,
{
}

/// The tree lists nothing outside the workspace: a directory is listed only when the
/// resolved workspace's components begin the resolved directory's — so `/work/app` does
/// not contain `/work/apple`.
pub proof fn law_listing_stays_inside(root: Seq<char>, resolved: Seq<char>)
    requires
        path_starts_with(resolved, root),
    ensures
        crate::paths::components(root).len() <= crate::paths::components(resolved).len(),
        forall|i: int| 0 <= i < crate::paths::components(root).len() ==> crate::paths::components(resolved)[i] == #[trigger] crate::paths::components(root)[i],
{
    let a = crate::paths::components(resolved);
    let b = crate::paths::components(root);
    assert forall|i: int| 0 <= i < b.len() implies a[i] == #[trigger] b[i] by {
        assert(a.take(b.len() as int)[i] == a[i]);
    }
}

} // verus!
