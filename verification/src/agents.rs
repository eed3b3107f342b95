//! The agents panel's engine-free surface: the subagents a session has ever spawned, from
//! the transcripts beside it, and the broker's process list.
//!
//! A session's artifacts live in the directory named after its file without `.jsonl`; a
//! subagent's transcript is `<agentId>.jsonl` in it, and a nested one is one directory
//! down. Only `<id>.jsonl` names count (the same directory holds other artifacts), a name
//! containing `.bak` is skipped, and `__advisor.jsonl` / `__advisor.<slug>.jsonl` are the
//! advisor's transcripts rather than a peer agent's.
//!
//! The host walks the directory and reads each transcript's header; which entries are
//! agents, and what the panel says about them, is decided here.
use vstd::prelude::*;

use crate::dto::{opt_view, BrokerDaemon, BrokerScope, ParkedAgent, ParkedView};
use crate::order::{key_sorted, sort_by_key, sorted_by_key, views, Keyed};
use crate::json::{array_of, as_array, as_bool, as_i64, as_str, as_u64, bool_of, field, get, i64_of, str_of, u64_of, JsonValue};
use crate::panel::{artifacts_dir, not_session_message};
use crate::text::{contains, ends_with, is_ws, occurs_in, prefix_of, signed_decimal, signed_decimal_spec, str_eq, strip_prefix, strip_suffix, suffix_of, trim, trim_str};

verus! {

/// How many entries one level of the scan looks at.
pub const MAX_ENTRIES: usize = 2000;

/// The advisor's transcript name, and the prefix a named one carries.
pub const ADVISOR: &'static str = "__advisor";

/// The suffix of a transcript.
pub const JSONL_SUFFIX: &'static str = ".jsonl";

/// The engine's advisor naming rule: `__advisor` is the default advisor, `__advisor.<slug>`
/// a named one.
pub open spec fn advisor_spec(id: Seq<char>) -> (bool, Option<Seq<char>>) {
    if id == "__advisor"@ {
        (true, None)
    } else if prefix_of("__advisor."@, id) && id.len() > 10 {
        (true, Some(id.skip(10)))
    } else {
        (false, None)
    }
}

/// The engine's advisor naming rule.
pub fn advisor_of(id: &str) -> (r: (bool, Option<String>))
    ensures
        r.0 == advisor_spec(id@).0,
        opt_view(r.1) == advisor_spec(id@).1,
{
    proof {
        reveal_strlit("__advisor");
        reveal_strlit("__advisor.");
    }
    if str_eq(id, ADVISOR) {
        return (true, None);
    }
    match strip_prefix(id, "__advisor.") {
        Some(slug) => if slug.unicode_len() > 0 {
            (true, Some(slug.to_owned()))
        } else {
            (false, None)
        },
        None => (false, None),
    }
}

/// The agent id a file name is the transcript of: `<id>.jsonl`, with no `.bak` anywhere
/// in the name.
pub open spec fn transcript_spec(name: Seq<char>) -> Option<Seq<char>> {
    if suffix_of(".jsonl"@, name) && !occurs_in(name, ".bak"@) {
        Some(name.subrange(0, name.len() - 6))
    } else {
        None
    }
}

/// The agent id a file name is the transcript of.
pub fn transcript_id(name: &str) -> (r: Option<String>)
    ensures
        opt_view(r) == transcript_spec(name@),
{
    proof {
        reveal_strlit(".jsonl");
    }
    if contains(name, ".bak") {
        return None;
    }
    match strip_suffix(name, JSONL_SUFFIX) {
        Some(id) => Some(id.to_owned()),
        None => None,
    }
}

/// What a transcript's header says: the working directory, and the parent session file a
/// nested child names.
#[derive(Debug, Clone, PartialEq, Eq)]
pub struct SessionHeader {
    pub cwd: String,
    pub parent: Option<String>,
}

/// One entry of an artifacts directory, as the host read it.
pub enum ArtifactEntry {
    /// A directory: a nested agent's own, named after its id, with its entries as read.
    Dir { entries: Vec<ArtifactEntry> },
    /// A file, with its size and modification time (0 when the filesystem would not say),
    /// and the header of a transcript when it could be read.
    File { name: String, path: String, bytes: u64, modified_ms: u64, header: Option<SessionHeader> },
}

/// The parked row a file is, when it is a transcript.
pub open spec fn file_row(e: ArtifactEntry) -> Option<ParkedView> {
    match e {
        ArtifactEntry::File { name, path, bytes, modified_ms, header } => match transcript_spec(name@) {
            Some(id) => Some(
                ParkedView {
                    id,
                    path: path@,
                    bytes,
                    modified_ms,
                    cwd: match header {
                        Some(h) => h.cwd@,
                        None => Seq::empty(),
                    },
                    parent: match header {
                        Some(h) => opt_view(h.parent),
                        None => None,
                    },
                    advisor: advisor_spec(id).0,
                    advisor_slug: advisor_spec(id).1,
                },
            ),
            None => None,
        },
        ArtifactEntry::Dir { .. } => None,
    }
}

/// The rows of one level's files, in the order they were read.
pub open spec fn file_rows(entries: Seq<ArtifactEntry>) -> Seq<ParkedView>
    decreases entries.len(),
{
    if entries.len() == 0 {
        Seq::empty()
    } else {
        let rest = file_rows(entries.drop_last());
        match file_row(entries.last()) {
            Some(r) => rest.push(r),
            None => rest,
        }
    }
}

/// The first [`MAX_ENTRIES`] entries of a level.
pub open spec fn capped(entries: Seq<ArtifactEntry>) -> Seq<ArtifactEntry> {
    if entries.len() <= MAX_ENTRIES {
        entries
    } else {
        entries.take(MAX_ENTRIES as int)
    }
}

/// The rows of the nested directories of a level, one level down, directory by directory.
pub open spec fn nested_rows(entries: Seq<ArtifactEntry>) -> Seq<ParkedView>
    decreases entries.len(),
{
    if entries.len() == 0 {
        Seq::empty()
    } else {
        let rest = nested_rows(entries.drop_last());
        match entries.last() {
            ArtifactEntry::Dir { entries: inner } => rest + file_rows(capped(inner@)),
            ArtifactEntry::File { .. } => rest,
        }
    }
}

/// Every subagent transcript a session's artifacts directory holds: the top level's
/// transcripts, then each nested directory's, one level deep — as deep as the engine nests.
pub open spec fn scan_spec(entries: Seq<ArtifactEntry>) -> Seq<ParkedView> {
    file_rows(capped(entries)) + nested_rows(capped(entries))
}

fn row_of(entry: &ArtifactEntry) -> (r: Option<ParkedAgent>)
    ensures
        match r {
            Some(a) => file_row(*entry) == Some(a@),
            None => file_row(*entry) is None,
        },
{
    match entry {
        ArtifactEntry::File { name, path, bytes, modified_ms, header } => match transcript_id(name.as_str()) {
            Some(id) => {
                let (advisor, slug) = advisor_of(id.as_str());
                let cwd = match header {
                    Some(h) => h.cwd.clone(),
                    None => {
                        proof {
                            reveal_strlit("");
                        }
                        let empty = "";
                        assert(empty@ =~= Seq::<char>::empty());
                        empty.to_owned()
                    },
                };
                let parent = match header {
                    Some(h) => match &h.parent {
                        Some(p) => Some(p.clone()),
                        None => None,
                    },
                    None => None,
                };
                Some(
                    ParkedAgent {
                        id,
                        path: path.clone(),
                        bytes: *bytes,
                        modified_ms: *modified_ms,
                        cwd,
                        parent,
                        advisor,
                        advisor_slug: slug,
                    },
                )
            },
            None => None,
        },
        ArtifactEntry::Dir { .. } => None,
    }
}

fn level_rows(entries: &Vec<ArtifactEntry>, out: &mut Vec<ParkedAgent>)
    ensures
        final(out)@.map_values(|a: ParkedAgent| a@) == old(out)@.map_values(|a: ParkedAgent| a@) + file_rows(capped(entries@)),
{
    let n = if entries.len() <= MAX_ENTRIES {
        entries.len()
    } else {
        MAX_ENTRIES
    };
    let ghost c = capped(entries@);
    let ghost start = old(out)@.map_values(|a: ParkedAgent| a@);
    assert(c.take(0) =~= Seq::<ArtifactEntry>::empty());
    assert(start + file_rows(c.take(0)) =~= start);
    let mut i: usize = 0;
    while i < n
        invariant
            i <= n,
            n == c.len(),
            c == capped(entries@),
            n <= entries@.len(),
            out@.map_values(|a: ParkedAgent| a@) == start + file_rows(c.take(i as int)),
        decreases n - i,
    {
        assert(c.take(i + 1).drop_last() =~= c.take(i as int));
        assert(c[i as int] == entries@[i as int]);
        match row_of(&entries[i]) {
            Some(row) => {
                let ghost before = out@;
                out.push(row);
                assert(out@.map_values(|a: ParkedAgent| a@) =~= before.map_values(|a: ParkedAgent| a@).push(file_row(c[i as int])->0));
            },
            None => {},
        }
        i = i + 1;
    }
    assert(c.take(n as int) =~= c);
}

impl Keyed for ParkedAgent {
    open spec fn key_of(v: ParkedView) -> Seq<char> {
        v.id
    }

    fn key(&self) -> (r: &str) {
        self.id.as_str()
    }
}

/// The rows a listing holds, ordered by agent id (rows with one id in the order the scan
/// found them); none when the directory could not be read.
pub open spec fn parked_rows(listing: Option<Vec<ArtifactEntry>>) -> Seq<ParkedView> {
    key_sorted::<ParkedAgent>(listed_rows(listing))
}

/// Every subagent transcript a session's artifacts directory holds, given what the host
/// read there (`None` when the directory could not be read: a session that never spilled
/// anything has none, which is no parked agents rather than an error).
///
/// The rows are ordered by the agent id the engine uses. A file that is not a session file
/// has no artifacts directory, which is an error.
pub fn parked(session_file: &str, listing: Option<Vec<ArtifactEntry>>) -> (r: Result<Vec<ParkedAgent>, String>)
    ensures
        match r {
            Ok(rows) => {
                &&& suffix_of(".jsonl"@, session_file@) && session_file@.len() > 6
                &&& rows@.map_values(|a: ParkedAgent| a@) == parked_rows(listing)
                &&& sorted_by_key::<ParkedAgent>(rows@.map_values(|a: ParkedAgent| a@))
            },
            Err(e) => !(suffix_of(".jsonl"@, session_file@) && session_file@.len() > 6) && e@ == not_session_message(session_file@),
        },
{
    match artifacts_dir(session_file) {
        Err(e) => return Err(e),
        Ok(_) => {},
    }
    let mut rows: Vec<ParkedAgent> = Vec::new();
    let entries = match listing {
        Some(e) => e,
        None => {
            assert(rows@.map_values(|a: ParkedAgent| a@) =~= Seq::<ParkedView>::empty());
            assert(parked_rows(None) =~= Seq::<ParkedView>::empty());
            return Ok(rows);
        },
    };
    assert(rows@.map_values(|a: ParkedAgent| a@) =~= Seq::<ParkedView>::empty());
    level_rows(&entries, &mut rows);
    let n = if entries.len() <= MAX_ENTRIES {
        entries.len()
    } else {
        MAX_ENTRIES
    };
    let ghost c = capped(entries@);
    let ghost top = file_rows(c);
    assert(c.take(0) =~= Seq::<ArtifactEntry>::empty());
    assert(top + nested_rows(c.take(0)) =~= top);
    let mut i: usize = 0;
    while i < n
        invariant
            i <= n,
            n == c.len(),
            c == capped(entries@),
            top == file_rows(c),
            n <= entries@.len(),
            rows@.map_values(|a: ParkedAgent| a@) == top + nested_rows(c.take(i as int)),
        decreases n - i,
    {
        assert(c.take(i + 1).drop_last() =~= c.take(i as int));
        assert(c[i as int] == entries@[i as int]);
        match &entries[i] {
            ArtifactEntry::Dir { entries: inner } => {
                let ghost before = rows@.map_values(|a: ParkedAgent| a@);
                level_rows(inner, &mut rows);
                assert(rows@.map_values(|a: ParkedAgent| a@) =~= top + nested_rows(c.take(i + 1)));
            },
            ArtifactEntry::File { .. } => {},
        }
        i = i + 1;
    }
    assert(c.take(n as int) =~= c);
    assert(views(rows@) == listed_rows(Some(entries)));
    let sorted = sort_by_key(rows);
    Ok(sorted)
}

/// The rows a listing holds; none when the directory could not be read.
pub open spec fn listed_rows(listing: Option<Vec<ArtifactEntry>>) -> Seq<ParkedView> {
    match listing {
        Some(entries) => scan_spec(entries@),
        None => Seq::empty(),
    }
}

/// The position of the first row for `agent`.
pub open spec fn first_with_id(rows: Seq<ParkedView>, agent: Seq<char>) -> Option<int> {
    if exists|k: int| 0 <= k < rows.len() && rows[k].id == agent {
        Some(choose|k: int| 0 <= k < rows.len() && rows[k].id == agent && forall|j: int| 0 <= j < k ==> #[trigger] rows[j].id != agent)
    } else {
        None
    }
}

proof fn lemma_first_with_id(rows: Seq<ParkedView>, agent: Seq<char>, k: int)
    requires
        0 <= k < rows.len(),
        rows[k].id == agent,
        forall|j: int| 0 <= j < k ==> #[trigger] rows[j].id != agent,
    ensures
        first_with_id(rows, agent) == Some(k),
{
    let w = choose|i: int| 0 <= i < rows.len() && rows[i].id == agent && forall|j: int| 0 <= j < i ==> #[trigger] rows[j].id != agent;
    assert(0 <= k < rows.len() && rows[k].id == agent && forall|j: int| 0 <= j < k ==> #[trigger] rows[j].id != agent);
    if w < k {
        assert(rows[w].id != agent);
    } else if k < w {
        assert(rows[k].id != agent);
    }
}

/// A lookup by id finds the first of the parked rows with that id, and finds nothing only
/// when no parked row has it: the id is matched against what is listed, never used as a path.
pub proof fn law_a_lookup_is_the_first_parked_row_with_the_id(listing: Option<Vec<ArtifactEntry>>, agent: Seq<char>)
    ensures
        ({
            let rows = parked_rows(listing);
            &&& first_with_id(rows, agent) is None <==> forall|k: int| 0 <= k < rows.len() ==> #[trigger] rows[k].id != agent
            &&& forall|k: int|
                first_with_id(rows, agent) == Some(k) <==> (0 <= k < rows.len() && rows[k].id == agent && forall|j: int|
                    0 <= j < k ==> #[trigger] rows[j].id != agent)
        }),
{
    let rows = parked_rows(listing);
    if exists|k: int| 0 <= k < rows.len() && rows[k].id == agent {
        let w = choose|k: int| 0 <= k < rows.len() && rows[k].id == agent && forall|j: int| 0 <= j < k ==> #[trigger] rows[j].id != agent;
        let k0 = choose|k: int| 0 <= k < rows.len() && rows[k].id == agent;
        lemma_least_with_id(rows, agent, k0);
        assert forall|k: int|
            first_with_id(rows, agent) == Some(k) <==> (0 <= k < rows.len() && rows[k].id == agent && forall|j: int|
                0 <= j < k ==> #[trigger] rows[j].id != agent) by {
            if 0 <= k < rows.len() && rows[k].id == agent && forall|j: int| 0 <= j < k ==> #[trigger] rows[j].id != agent {
                lemma_first_with_id(rows, agent, k);
            }
        }
    }
}

proof fn lemma_least_with_id(rows: Seq<ParkedView>, agent: Seq<char>, k: int)
    requires
        0 <= k < rows.len(),
        rows[k].id == agent,
    ensures
        exists|m: int| 0 <= m < rows.len() && rows[m].id == agent && forall|j: int| 0 <= j < m ==> #[trigger] rows[j].id != agent,
    decreases k,
{
    if exists|j: int| 0 <= j < k && rows[j].id == agent {
        let j = choose|j: int| 0 <= j < k && rows[j].id == agent;
        lemma_least_with_id(rows, agent, j);
    } else {
        assert(forall|j: int| 0 <= j < k ==> #[trigger] rows[j].id != agent);
    }
}

/// The refusal of an id this session has no transcript for.
pub open spec fn unknown_agent_message(agent: Seq<char>) -> Seq<char> {
    "this session has no transcript for `"@ + agent
        + "`: the engine never reported that agent for it, and no file named after it is beside the session"@
}

/// The parked row for one agent id, if this session has a transcript for it: the first row
/// with that id. The id is looked up among what is there, never used as a path.
pub fn parked_by_id(session_file: &str, listing: Option<Vec<ArtifactEntry>>, agent: &str) -> (r: Result<ParkedAgent, String>)
    ensures
        !(suffix_of(".jsonl"@, session_file@) && session_file@.len() > 6) ==> (r matches Err(e) && e@ == not_session_message(session_file@)),
        (suffix_of(".jsonl"@, session_file@) && session_file@.len() > 6) ==> {
            let rows = parked_rows(listing);
            match r {
                Ok(a) => first_with_id(rows, agent@) is Some && rows[first_with_id(rows, agent@)->0] == a@,
                Err(e) => first_with_id(rows, agent@) is None && e@ == unknown_agent_message(agent@),
            }
        },
{
    let ghost expected = parked_rows(listing);
    let rows = match parked(session_file, listing) {
        Err(e) => return Err(e),
        Ok(rows) => rows,
    };
    let ghost rv = rows@.map_values(|a: ParkedAgent| a@);
    assert(rv == expected);
    let mut i: usize = 0;
    while i < rows.len()
        invariant
            i <= rows@.len(),
            rv == rows@.map_values(|a: ParkedAgent| a@),
            rv == expected,
            expected == parked_rows(listing),
            suffix_of(".jsonl"@, session_file@) && session_file@.len() > 6,
            forall|j: int| 0 <= j < i ==> #[trigger] rv[j].id != agent@,
        decreases rows@.len() - i,
    {
        assert(rv[i as int] == rows@[i as int]@);
        if str_eq(rows[i].id.as_str(), agent) {
            let ghost before = rows@;
            let mut rows = rows;
            let found = rows.swap_remove(i);
            assert(found == before[i as int]);
            assert(found@.id == agent@);
            proof {
                lemma_first_with_id(expected, agent@, i as int);
            }
            assert(expected[i as int] == found@);

            return Ok(found);
        }
        i = i + 1;
    }
    let mut m = "this session has no transcript for `".to_owned();
    m.append(agent);
    m.append("`: the engine never reported that agent for it, and no file named after it is beside the session");
    Err(m)
}

/// A string field of the engine's JSON, or empty.
pub open spec fn text_spec(raw: JsonValue, key: Seq<char>) -> Seq<char> {
    match str_of(field(raw, key)) {
        Some(s) => s,
        None => Seq::empty(),
    }
}

/// A string field of the engine's JSON, or empty.
pub fn text(raw: &JsonValue, key: &str) -> (r: String)
    ensures
        r@ == text_spec(*raw, key@),
{
    match as_str(get(raw, key)) {
        Some(s) => s.to_owned(),
        None => {
            proof {
                reveal_strlit("");
            }
            "".to_owned()
        },
    }
}

/// An optional value as what it is or a default.
pub open spec fn or_default<T>(o: Option<T>, d: T) -> T {
    match o {
        Some(x) => x,
        None => d,
    }
}

/// Whether `d` is the engine's daemon `raw`, field by field: a missing string is empty, a
/// missing flag false, a missing count zero, and an absent code or time absent.
pub open spec fn daemon_decoded(d: BrokerDaemon, raw: JsonValue) -> bool {
    &&& d.name@ == text_spec(raw, "name"@)
    &&& d.state@ == text_spec(raw, "state"@)
    &&& opt_view(d.owner) == str_of(field(raw, "owner"@))
    &&& d.command@ == text_spec(raw, "command"@)
    &&& d.cwd@ == text_spec(raw, "cwd"@)
    &&& d.supervised == or_default(bool_of(field(raw, "supervised"@)), false)
    &&& d.persist == or_default(bool_of(field(raw, "persist"@)), false)
    &&& d.detached == or_default(bool_of(field(raw, "detached"@)), false)
    &&& d.restart_count == or_default(u64_of(field(raw, "restartCount"@)), 0)
    &&& d.exit_code == i64_of(field(raw, "exitCode"@))
    &&& d.output_bytes == or_default(u64_of(field(raw, "outputBytes"@)), 0)
    &&& d.started_at_ms == or_default(u64_of(field(raw, "startedAt"@)), 0)
    &&& d.exited_at_ms == u64_of(field(raw, "exitedAt"@))
}

/// Whether `scope` is the engine's scope `raw`: its own fields, and one daemon per entry of
/// its `daemons` array, in order (none when there is no array).
pub open spec fn scope_decoded(scope: BrokerScope, raw: JsonValue) -> bool {
    &&& scope.kind@ == text_spec(raw, "kind"@)
    &&& scope.project_dir@ == text_spec(raw, "projectDir"@)
    &&& scope.runtime_dir@ == text_spec(raw, "runtimeDir"@)
    &&& scope.broker_pid == u64_of(field(raw, "brokerPid"@))
    &&& match array_of(field(raw, "daemons"@)) {
        Some(items) => scope.daemons@.len() == items.len() && forall|k: int|
            0 <= k < items.len() ==> daemon_decoded(#[trigger] scope.daemons@[k], items[k]),
        None => scope.daemons@.len() == 0,
    }
}

/// One supervised process, as the engine's `ps` prints it.
pub fn decode_daemon(raw: &JsonValue) -> (r: BrokerDaemon)
    ensures
        daemon_decoded(r, *raw),
{
    BrokerDaemon {
        name: text(raw, "name"),
        state: text(raw, "state"),
        owner: match as_str(get(raw, "owner")) {
            Some(s) => Some(s.to_owned()),
            None => None,
        },
        command: text(raw, "command"),
        cwd: text(raw, "cwd"),
        supervised: match as_bool(get(raw, "supervised")) {
            Some(b) => b,
            None => false,
        },
        persist: match as_bool(get(raw, "persist")) {
            Some(b) => b,
            None => false,
        },
        detached: match as_bool(get(raw, "detached")) {
            Some(b) => b,
            None => false,
        },
        restart_count: match as_u64(get(raw, "restartCount")) {
            Some(n) => n,
            None => 0,
        },
        exit_code: as_i64(get(raw, "exitCode")),
        output_bytes: match as_u64(get(raw, "outputBytes")) {
            Some(n) => n,
            None => 0,
        },
        started_at_ms: match as_u64(get(raw, "startedAt")) {
            Some(n) => n,
            None => 0,
        },
        exited_at_ms: as_u64(get(raw, "exitedAt")),
    }
}

/// One broker scope, as the engine's `ps` prints it: its own fields, and every daemon
/// under it.
pub fn decode_scope(raw: &JsonValue) -> (r: BrokerScope)
    ensures
        scope_decoded(r, *raw),
{
    let mut daemons: Vec<BrokerDaemon> = Vec::new();
    match as_array(get(raw, "daemons")) {
        Some(items) => {
            let mut i: usize = 0;
            while i < items.len()
                invariant
                    i <= items@.len(),
                    daemons@.len() == i,
                    forall|k: int| 0 <= k < i ==> daemon_decoded(#[trigger] daemons@[k], items@[k]),
                decreases items@.len() - i,
            {
                daemons.push(decode_daemon(&items[i]));
                i = i + 1;
            }
        },
        None => {},
    }
    BrokerScope {
        kind: text(raw, "kind"),
        project_dir: text(raw, "projectDir"),
        runtime_dir: text(raw, "runtimeDir"),
        broker_pid: as_u64(get(raw, "brokerPid")),
        daemons,
    }
}

/// The refusal of output that is not the JSON the host reads; `error` is the parser's.
pub open spec fn not_json_message(error: Seq<char>) -> Seq<char> {
    "`omp ps --json` did not print the JSON this app reads: "@ + error
}

/// The broker's scopes, from its `ps --json` output as parsed: an array of scopes, or the
/// parser's reason it is not one — reported rather than read as "no processes".
pub fn decode_scopes(parsed: Result<Vec<JsonValue>, String>) -> (r: Result<Vec<BrokerScope>, String>)
    ensures
        match parsed {
            Ok(items) => (r matches Ok(scopes) && scopes@.len() == items@.len() && forall|k: int| 0 <= k < items@.len() ==> scope_decoded(#[trigger] scopes@[k], items@[k])),
            Err(e) => (r matches Err(m) && m@ == not_json_message(e@)),
        },
{
    match parsed {
        Err(e) => {
            let mut m = "`omp ps --json` did not print the JSON this app reads: ".to_owned();
            m.append(e.as_str());
            Err(m)
        },
        Ok(items) => {
            let mut scopes: Vec<BrokerScope> = Vec::new();
            let mut i: usize = 0;
            while i < items.len()
                invariant
                    i <= items@.len(),
                    scopes@.len() == i,
                    forall|k: int| 0 <= k < i ==> scope_decoded(#[trigger] scopes@[k], items@[k]),
                decreases items@.len() - i,
            {
                scopes.push(decode_scope(&items[i]));
                i = i + 1;
            }
            Ok(scopes)
        },
    }
}

/// A control character: Unicode's `Cc` category, which is what `char::is_control` answers.
pub open spec fn control_char(c: char) -> bool {
    ('\u{0}' <= c && c <= '\u{1f}') || ('\u{7f}' <= c && c <= '\u{9f}')
}

/// Whether a name can be passed to the broker's `stop` as a process name: not empty, not
/// a flag, and no whitespace or control character — so it can never become another option.
pub open spec fn process_name_ok(name: Seq<char>) -> bool {
    name.len() > 0 && name[0] != '-' && forall|i: int| 0 <= i < name.len() ==> !is_ws(#[trigger] name[i]) && !control_char(name[i])
}

/// Refuse a name that could be taken as something other than a process name.
pub fn check_process_name(name: &str) -> (r: Result<(), String>)
    ensures
        r is Ok <==> process_name_ok(name@),
        r matches Err(e) ==> e@ == "`"@ + name@ + "` is not a process name"@,
{
    let n = name.unicode_len();
    let mut ok = n > 0 && name.get_char(0) != '-';
    let mut i: usize = 0;
    while i < n
        invariant
            n == name@.len(),
            i <= n,
            ok == (n > 0 && name@[0] != '-' && forall|k: int| 0 <= k < i ==> !is_ws(#[trigger] name@[k]) && !control_char(name@[k])),
        decreases n - i,
    {
        let c = name.get_char(i);
        if crate::text::is_whitespace(c) || (('\u{0}' <= c && c <= '\u{1f}') || ('\u{7f}' <= c && c <= '\u{9f}')) {
            ok = false;
        }
        i = i + 1;
    }
    if ok {
        Ok(())
    } else {
        let mut m = "`".to_owned();
        m.append(name);
        m.append("` is not a process name");
        Err(m)
    }
}

/// What the broker's `stop` answered, from its exit, its exit code (`None` for a signal)
/// and its output as text: its stdout, or its stderr when stdout is empty; on failure its
/// stderr, or a sentence naming the exit code when it printed nothing.
pub open spec fn stop_outcome_spec(name: Seq<char>, success: bool, code: Option<i32>, stdout: Seq<char>, stderr: Seq<char>) -> Result<Seq<char>, Seq<char>> {
    let out = trim(stdout);
    let err = trim(stderr);
    if !success {
        if err.len() == 0 {
            Err("`omp ps stop "@ + name + "` exited with "@ + signed_decimal_spec(or_default(code, -1i32) as int))
        } else {
            Err(err)
        }
    } else if out.len() == 0 {
        Ok(err)
    } else {
        Ok(out)
    }
}

/// What the broker's `stop` answered.
pub fn stop_outcome(name: &str, success: bool, code: Option<i32>, stdout: &str, stderr: &str) -> (r: Result<String, String>)
    ensures
        match r {
            Ok(t) => stop_outcome_spec(name@, success, code, stdout@, stderr@) == Ok::<Seq<char>, Seq<char>>(t@),
            Err(e) => stop_outcome_spec(name@, success, code, stdout@, stderr@) == Err::<Seq<char>, Seq<char>>(e@),
        },
{
    let out = trim_str(stdout);
    let err = trim_str(stderr);
    if !success {
        if err.unicode_len() == 0 {
            let c: i32 = match code {
                Some(c) => c,
                None => -1,
            };
            let mut m = "`omp ps stop ".to_owned();
            m.append(name);
            m.append("` exited with ");
            m.append(signed_decimal(c as i64).as_str());
            return Err(m);
        }
        return Err(err.to_owned());
    }
    if out.unicode_len() == 0 {
        Ok(err.to_owned())
    } else {
        Ok(out.to_owned())
    }
}

/// The refusal of a `ps` that failed: its exit code (`-1` for a signal) and its trimmed
/// error output.
pub fn ps_failure(code: Option<i32>, stderr: &str) -> (r: String)
    ensures
        r@ == "`omp ps` exited with "@ + signed_decimal_spec(or_default(code, -1i32) as int) + ": "@ + trim(stderr@),
{
    let c: i32 = match code {
        Some(c) => c,
        None => -1,
    };
    let mut m = "`omp ps` exited with ".to_owned();
    m.append(signed_decimal(c as i64).as_str());
    m.append(": ");
    m.append(trim_str(stderr));
    m
}

/// A name the broker's `stop` is given can never be read as a flag or split into two
/// arguments.
pub proof fn law_stop_names_are_single_arguments(name: Seq<char>)
    requires
        process_name_ok(name),
    ensures
        name.len() > 0,
        name[0] != '-',
        forall|i: int| 0 <= i < name.len() ==> !is_ws(#[trigger] name[i]),
{
}

} // verus!
