//! The window's commands, as far as they decide anything: the sidebar's project groups, the
//! session catalogue's rows, and a project's display name.
//!
//! The commands themselves are the host's — they are the adapter between the window and
//! the live sessions, and decide nothing of their own.
use vstd::prelude::*;

use crate::dto::{opt_view, LaunchContext, ProjectSnapshot, SessionSummaryDto};
use crate::order::views;
use crate::paths::{file_name, file_name_spec};
use crate::text::str_eq;

verus! {

/// What the app was launched with, held beside the rest of the host's state.
#[derive(Debug, Clone, Default)]
pub struct LaunchState {
    pub context: LaunchContext,
}

/// A project's display name: its last path segment, or the path itself when it has none.
pub open spec fn project_name_spec(path: Seq<char>) -> Seq<char> {
    match file_name_spec(path) {
        Some(n) => n,
        None => path,
    }
}

/// A project's display name.
pub fn project_name(path: &str) -> (r: String)
    ensures
        r@ == project_name_spec(path@),
{
    match file_name(path) {
        Some(n) => n,
        None => path.to_owned(),
    }
}

/// The distinct working directories of a catalogue, in the order they first appear, an
/// empty one left out.
pub open spec fn project_order(cwds: Seq<Seq<char>>) -> Seq<Seq<char>>
    decreases cwds.len(),
{
    if cwds.len() == 0 {
        Seq::empty()
    } else {
        let rest = project_order(cwds.drop_last());
        let c = cwds.last();
        if c.len() == 0 || rest.contains(c) {
            rest
        } else {
            rest.push(c)
        }
    }
}

/// How many sessions of a catalogue were worked on in `cwd`.
pub open spec fn session_count(cwds: Seq<Seq<char>>, cwd: Seq<char>) -> nat {
    cwds.filter(|c: Seq<char>| c == cwd).len()
}

/// A project group as values.
pub open spec fn group_matches(g: ProjectSnapshot, cwds: Seq<Seq<char>>, hidden: Seq<Seq<char>>, path: Seq<char>) -> bool {
    &&& g.path@ == path
    &&& g.name@ == project_name_spec(path)
    &&& g.session_count == session_count(cwds, path)
    &&& g.hidden == hidden.contains(path)
}

fn holds(v: &Vec<String>, x: &str) -> (r: bool)
    ensures
        r == views(v@).contains(x@),
{
    let mut i: usize = 0;
    while i < v.len()
        invariant
            i <= v@.len(),
            forall|q: int| 0 <= q < i ==> v@[q]@ != x@,
        decreases v@.len() - i,
    {
        if str_eq(v[i].as_str(), x) {
            assert(views(v@)[i as int] == x@);
            return true;
        }
        i = i + 1;
    }
    assert forall|q: int| 0 <= q < views(v@).len() implies views(v@)[q] != x@ by {
        assert(views(v@)[q] == v@[q]@);
    }
    false
}

fn count_of(cwds: &Vec<String>, cwd: &str) -> (r: usize)
    ensures
        r == session_count(views(cwds@), cwd@),
{
    let ghost cv = views(cwds@);
    let mut n: usize = 0;
    let mut i: usize = 0;
    assert(cv.take(0).filter(|c: Seq<char>| c == cwd@) =~= Seq::<Seq<char>>::empty());
    while i < cwds.len()
        invariant
            i <= cwds@.len(),
            cv == views(cwds@),
            n == cv.take(i as int).filter(|c: Seq<char>| c == cwd@).len(),
            n <= i,
        decreases cwds@.len() - i,
    {
        proof {
            assert(cv.take(i + 1) =~= cv.take(i as int).push(cv[i as int]));
            cv.take(i as int).lemma_filter_push(cv[i as int], |c: Seq<char>| c == cwd@);
            assert(cv[i as int] == cwds@[i as int]@);
        }
        if str_eq(cwds[i].as_str(), cwd) {
            n = n + 1;
        }
        i = i + 1;
    }
    assert(cv.take(cwds@.len() as int) =~= cv);
    n
}

/// The sidebar's project groups: one per working directory the catalogue's sessions
/// recorded, in the catalogue's order (newest first, so the project worked in last leads),
/// with its name, its number of sessions, and whether the user hid it. A session with no
/// working directory cannot be attributed and is left out.
pub fn project_groups(cwds: &Vec<String>, hidden: &Vec<String>) -> (r: Vec<ProjectSnapshot>)
    ensures
        r@.len() == project_order(views(cwds@)).len(),
        forall|k: int| 0 <= k < r@.len() ==> group_matches(#[trigger] r@[k], views(cwds@), views(hidden@), project_order(views(cwds@))[k]),
{
    let ghost cv = views(cwds@);
    let mut order: Vec<String> = Vec::new();
    let mut i: usize = 0;
    assert(cv.take(0) =~= Seq::<Seq<char>>::empty());
    assert(views(order@) =~= Seq::<Seq<char>>::empty());
    while i < cwds.len()
        invariant
            i <= cwds@.len(),
            cv == views(cwds@),
            views(order@) == project_order(cv.take(i as int)),
        decreases cwds@.len() - i,
    {
        assert(cv.take(i + 1).drop_last() =~= cv.take(i as int));
        assert(cv.take(i + 1).last() == cwds@[i as int]@);
        let c = cwds[i].as_str();
        if c.unicode_len() > 0 && !holds(&order, c) {
            let ghost before = order@;
            order.push(c.to_owned());
            assert(views(order@) =~= views(before).push(c@));
        }
        i = i + 1;
    }
    assert(cv.take(cwds@.len() as int) =~= cv);
    let ghost ov = views(order@);
    let mut groups: Vec<ProjectSnapshot> = Vec::new();
    let mut j: usize = 0;
    while j < order.len()
        invariant
            j <= order@.len(),
            ov == views(order@),
            ov == project_order(views(cwds@)),
            groups@.len() == j,
            forall|k: int| 0 <= k < j ==> group_matches(#[trigger] groups@[k], views(cwds@), views(hidden@), ov[k]),
        decreases order@.len() - j,
    {
        let path = order[j].as_str();
        assert(ov[j as int] == path@);
        let g = ProjectSnapshot {
            name: project_name(path),
            session_count: count_of(cwds, path),
            hidden: holds(hidden, path),
            path: path.to_owned(),
        };
        groups.push(g);
        j = j + 1;
    }
    groups
}

/// One session of the engine's store, as the catalogue reads it.
#[derive(Debug, Clone, PartialEq, Eq)]
pub struct StoredSession {
    pub id: String,
    pub path: String,
    pub bucket: String,
    pub cwd: String,
    pub title: Option<String>,
    pub title_source: Option<String>,
    pub parent_id: Option<String>,
    pub created_at: Option<String>,
    pub modified_at: u64,
    pub message_count: u64,
    pub size: u64,
    pub first_message: String,
    /// The session's lifecycle word.
    pub status: String,
}

/// A catalogue row carries its session's own fields, whether the user pinned it, and
/// whether the app released its sidecar for being idle.
pub open spec fn row_matches(row: SessionSummaryDto, s: StoredSession, pinned: Seq<Seq<char>>, suspended: Seq<Seq<char>>) -> bool {
    &&& row.id@ == s.id@
    &&& row.path@ == s.path@
    &&& row.bucket@ == s.bucket@
    &&& row.cwd@ == s.cwd@
    &&& opt_view(row.title) == opt_view(s.title)
    &&& opt_view(row.title_source) == opt_view(s.title_source)
    &&& opt_view(row.parent_id) == opt_view(s.parent_id)
    &&& opt_view(row.created_at) == opt_view(s.created_at)
    &&& row.modified_at == s.modified_at
    &&& row.message_count == s.message_count
    &&& row.size == s.size
    &&& row.first_message@ == s.first_message@
    &&& row.status@ == s.status@
    &&& row.pinned == pinned.contains(s.id@)
    &&& row.suspended == suspended.contains(s.id@)
}

/// The catalogue's rows, in the store's order. `suspended` names the threads the app
/// released for being idle — app-owned state the file cannot say, and what separates a
/// session nobody opened from one whose process this app stopped.
pub fn session_catalogue(sessions: Vec<StoredSession>, pinned: &Vec<String>, suspended: &Vec<String>) -> (r: Vec<SessionSummaryDto>)
    ensures
        r@.len() == sessions@.len(),
        forall|k: int| 0 <= k < r@.len() ==> row_matches(#[trigger] r@[k], sessions@[k], views(pinned@), views(suspended@)),
{
    let ghost all = sessions@;
    let mut rows: Vec<SessionSummaryDto> = Vec::new();
    let mut rest = sessions;
    let mut k: usize = 0;
    let total = rest.len();
    assert(all.skip(0) =~= all);
    while rest.len() > 0
        invariant
            total == all.len(),
            k + rest@.len() == total,
            rest@ == all.skip(k as int),
            rows@.len() == k,
            forall|q: int| 0 <= q < k ==> row_matches(#[trigger] rows@[q], all[q], views(pinned@), views(suspended@)),
        decreases rest@.len(),
    {
        let s = rest.remove(0);
        assert(s == all[k as int]);
        assert(rest@ =~= all.skip(k + 1));
        let is_pinned = holds(pinned, s.id.as_str());
        let is_suspended = holds(suspended, s.id.as_str());
        let row = SessionSummaryDto {
            id: s.id,
            path: s.path,
            bucket: s.bucket,
            cwd: s.cwd,
            title: s.title,
            title_source: s.title_source,
            parent_id: s.parent_id,
            created_at: s.created_at,
            modified_at: s.modified_at,
            message_count: s.message_count,
            size: s.size,
            first_message: s.first_message,
            status: s.status,
            pinned: is_pinned,
            suspended: is_suspended,
        };
        rows.push(row);
        k = k + 1;
    }
    rows
}

/// Every project group is a distinct directory some session recorded: none is empty and
/// none appears twice.
pub proof fn law_groups_are_distinct_directories(cwds: Seq<Seq<char>>)
    ensures
        project_order(cwds).no_duplicates(),
        forall|k: int| 0 <= k < project_order(cwds).len() ==> #[trigger] project_order(cwds)[k].len() > 0 && cwds.contains(project_order(cwds)[k]),
    decreases cwds.len(),
{
    if cwds.len() > 0 {
        let t = cwds.drop_last();
        law_groups_are_distinct_directories(t);
        let rest = project_order(t);
        let c = cwds.last();
        assert forall|k: int| 0 <= k < project_order(cwds).len() implies #[trigger] project_order(cwds)[k].len() > 0 && cwds.contains(project_order(cwds)[k]) by {
            if k < rest.len() {
                assert(project_order(cwds)[k] == rest[k]);
                let i = choose|i: int| 0 <= i < t.len() && t[i] == rest[k];
                assert(cwds[i] == t[i]);
            } else {
                assert(cwds[cwds.len() - 1] == c);
            }
        }
        if !(c.len() == 0 || rest.contains(c)) {
            let r2 = rest.push(c);
            assert forall|i: int, j: int| 0 <= i < r2.len() && 0 <= j < r2.len() && i != j implies r2[i] != r2[j] by {
                if i < rest.len() && j < rest.len() {
                } else if i < rest.len() {
                    assert(rest.contains(r2[i]));
                } else {
                    assert(rest.contains(r2[j]));
                }
            }
        }
    }
}

} // verus!
