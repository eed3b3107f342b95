//! The record behind "always allow <tool>": `tools.approval.<tool> = allow`.
//!
//! The write goes through the engine's own config command rather than the file, because the
//! file is one layer of the engine's merge and not the host's to serialise. That command
//! refuses per-tool subkeys, so the whole record is read, merged and written back; and there
//! is no clean removal, so a write here is always a merge.
//!
//! The write is not live: the engine reads the record when it constructs a session, so a
//! click takes effect from the next session on, and [`PolicyOutcome`] says what was written
//! rather than claiming the prompt is gone.
//!
//! Running the command is the host's; what is checked before it runs, how the record is
//! merged, and what a failure says are here.
use vstd::prelude::*;

use crate::order::views;
use crate::table::{find_key, keys_unique, lemma_table_at, lemma_table_len, table_map, upsert};
use crate::text::{blank, decimal, decimal_spec, is_ascii_alnum, is_blank, join_from, join_spec, lines, lines_spec, lossy_text, str_eq, utf8_lossy};

verus! {

/// The engine setting holding the per-tool policies.
pub const KEY: &'static str = "tools.approval";

/// The engine setting holding the session's approval mode.
pub const MODE_KEY: &'static str = "tools.approvalMode";

/// The ladder, exactly as the engine's schema spells it.
pub const APPROVAL_MODES: [&'static str; 3] = ["always-ask", "write", "yolo"];

/// The one policy this module records.
pub const ALLOW: &'static str = "allow";

/// Longest tool name accepted, in characters.
///
/// The name becomes a key in a file the engine parses at startup, so it is bounded rather
/// than trusted.
pub const MAX_TOOL_NAME_CHARS: usize = 128;

/// How many of the engine's error lines a failure message carries.
pub const STDERR_TAIL_LINES: usize = 4;

/// What one "always allow" click did to the engine's config.
#[derive(Debug, Clone, PartialEq, Eq)]
pub struct PolicyOutcome {
    /// The tool the policy was written for.
    pub tool: String,
    /// The policy now recorded for it — always `"allow"`.
    pub policy: String,
    /// The policy that was recorded before, when there was one.
    pub previous: Option<String>,
}

/// `char`'s `Debug` text: the character quoted, with escapes where `char::escape_debug`
/// puts them.
pub uninterp spec fn char_debug(c: char) -> Seq<char>;

/// `format!("{c:?}")`. Which characters are escaped, and how, is std's to say; the result
/// depends on the character alone.
#[verifier::external_body]
fn debug_char(c: char) -> (r: String)
    ensures
        r@ == char_debug(c),
{
    format!("{c:?}")
}

/// Whether a character may appear in a policy key: an ASCII letter or digit, `.`, `_`,
/// `:` or `-`.
pub open spec fn name_char(c: char) -> bool {
    is_ascii_alnum(c) || c == '.' || c == '_' || c == ':' || c == '-'
}

/// Whether a character may appear in a policy key.
pub fn is_name_character(c: char) -> (r: bool)
    ensures
        r == name_char(c),
{
    (('a' <= c && c <= 'z') || ('A' <= c && c <= 'Z') || ('0' <= c && c <= '9')) || c == '.' || c
        == '_' || c == ':' || c == '-'
}

/// The first character of `s` that cannot be in a key, if there is one.
pub open spec fn first_offender(s: Seq<char>) -> Option<int> {
    if exists|i: int| 0 <= i < s.len() && !name_char(s[i]) {
        Some(choose|i: int| 0 <= i < s.len() && !name_char(s[i]) && forall|j: int| 0 <= j < i ==> name_char(#[trigger] s[j]))
    } else {
        None
    }
}

/// The refusal for a name with a character outside the key alphabet.
pub open spec fn offender_message(c: char) -> Seq<char> {
    "the tool name contains "@ + char_debug(c)
        + ", which cannot be a config key — letters, digits, `.`, `_`, `:` and `-` only"@
}

/// The refusal for a name past the limit.
pub open spec fn length_message(length: nat) -> Seq<char> {
    "the tool name is too long ("@ + decimal_spec(length) + " characters; the limit is 128)"@
}

/// Whether a tool name can safely become a config key, and if not, why: empty, then too
/// long, then the first character outside the alphabet.
pub open spec fn tool_name_verdict(tool: Seq<char>) -> Result<(), Seq<char>> {
    if tool.len() == 0 {
        Err("the tool name is empty"@)
    } else if tool.len() > MAX_TOOL_NAME_CHARS {
        Err(length_message(tool.len()))
    } else {
        match first_offender(tool) {
            Some(i) => Err(offender_message(tool[i])),
            None => Ok(()),
        }
    }
}

proof fn lemma_first_offender(s: Seq<char>, k: int)
    requires
        0 <= k < s.len(),
        !name_char(s[k]),
        forall|j: int| 0 <= j < k ==> name_char(#[trigger] s[j]),
    ensures
        first_offender(s) == Some(k),
{
    let w = choose|i: int| 0 <= i < s.len() && !name_char(s[i]) && forall|j: int| 0 <= j < i ==> name_char(#[trigger] s[j]);
    assert(0 <= k < s.len() && !name_char(s[k]) && forall|j: int| 0 <= j < k ==> name_char(#[trigger] s[j]));
    if w < k {
        assert(name_char(s[w]));
    } else if k < w {
        assert(name_char(s[k]));
    }
}

/// Refuse a tool name that cannot safely become a config key.
///
/// The allowed set is what a tool name can be — `read`, `mcp__server.read`, `web:fetch` —
/// so that a name can never end the key, add a sibling entry, or reach into another part of
/// the document.
pub fn validate_tool_name(tool: &str) -> (r: Result<(), String>)
    ensures
        match r {
            Ok(()) => tool_name_verdict(tool@) == Ok::<(), Seq<char>>(()),
            Err(e) => tool_name_verdict(tool@) == Err::<(), Seq<char>>(e@),
        },
{
    let n = tool.unicode_len();
    if n == 0 {
        let m = "the tool name is empty";
        return Err(m.to_owned());
    }
    if n > MAX_TOOL_NAME_CHARS {
        let mut m = "the tool name is too long (".to_owned();
        m.append(decimal(n as u64).as_str());
        m.append(" characters; the limit is 128)");
        return Err(m);
    }
    let mut i: usize = 0;
    while i < n
        invariant
            n == tool@.len(),
            0 < n <= MAX_TOOL_NAME_CHARS,
            i <= n,
            forall|j: int| 0 <= j < i ==> name_char(#[trigger] tool@[j]),
        decreases n - i,
    {
        let c = tool.get_char(i);
        if !is_name_character(c) {
            proof {
                lemma_first_offender(tool@, i as int);
            }
            let mut m = "the tool name contains ".to_owned();
            m.append(debug_char(c).as_str());
            m.append(", which cannot be a config key — letters, digits, `.`, `_`, `:` and `-` only");
            return Err(m);
        }
        i = i + 1;
    }
    Ok(())
}

/// Whether `mode` is on the engine's ladder.
pub open spec fn is_mode(mode: Seq<char>) -> bool {
    mode == "always-ask"@ || mode == "write"@ || mode == "yolo"@
}

/// Refuse a mode the engine does not have, naming the ladder.
pub fn validate_mode(mode: &str) -> (r: Result<(), String>)
    ensures
        r is Ok <==> is_mode(mode@),
        r matches Err(e) ==> e@ == "`"@ + mode@ + "` is not an approval mode — one of always-ask, write, yolo"@,
{
    if str_eq(mode, "always-ask") || str_eq(mode, "write") || str_eq(mode, "yolo") {
        return Ok(());
    }
    let mut m = "`".to_owned();
    m.append(mode);
    m.append("` is not an approval mode — one of always-ask, write, yolo");
    Err(m)
}

/// One value of the policy record.
#[derive(Debug, PartialEq, Eq)]
pub enum RecordValue {
    /// A policy: the string the engine stores for a tool.
    Policy(String),
    /// Anything that is not a string, as its JSON text — a hand-edited config can hold one.
    Other(String),
}

/// A record value as values.
pub enum RecordValueView {
    Policy(Seq<char>),
    Other(Seq<char>),
}

impl View for RecordValue {
    type V = RecordValueView;

    open spec fn view(&self) -> RecordValueView {
        match self {
            RecordValue::Policy(s) => RecordValueView::Policy(s@),
            RecordValue::Other(s) => RecordValueView::Other(s@),
        }
    }
}

impl RecordValue {
    /// A copy of this value.
    pub fn duplicate(&self) -> (r: RecordValue)
        ensures
            r@ == self@,
    {
        match self {
            RecordValue::Policy(s) => RecordValue::Policy(s.clone()),
            RecordValue::Other(s) => RecordValue::Other(s.clone()),
        }
    }
}

/// The record of tool to policy, as the engine's `tools.approval` holds it.
#[derive(Debug)]
pub struct PolicyRecord {
    entries: Vec<(String, RecordValue)>,
}

impl View for PolicyRecord {
    type V = Map<Seq<char>, RecordValueView>;

    closed spec fn view(&self) -> Map<Seq<char>, RecordValueView> {
        table_map(self.entries@).map_values(|v: RecordValue| v@)
    }
}

impl PolicyRecord {
    #[verifier::type_invariant]
    spec fn well_formed(self) -> bool {
        keys_unique(self.entries@)
    }

    /// An empty record.
    pub fn new() -> (r: PolicyRecord)
        ensures
            r@ == Map::<Seq<char>, RecordValueView>::empty(),
    {
        let r = PolicyRecord { entries: Vec::new() };
        assert(r@ =~= Map::<Seq<char>, RecordValueView>::empty());
        r
    }

    /// Set the value recorded for `tool`.
    pub fn insert(&mut self, tool: String, value: RecordValue)
        ensures
            final(self)@ == old(self)@.insert(tool@, value@),
    {
        proof {
            use_type_invariant(&*self);
        }
        let ghost before = self.entries@;
        let ghost k = tool@;
        let ghost v = value@;
        let mut entries: Vec<(String, RecordValue)> = Vec::new();
        std::mem::swap(&mut entries, &mut self.entries);
        upsert(&mut entries, tool, value);
        self.entries = entries;
        assert(self@ =~= table_map(before).map_values(|x: RecordValue| x@).insert(k, v));
    }

    /// The value recorded for `tool`.
    pub fn get(&self, tool: &str) -> (r: Option<&RecordValue>)
        ensures
            match r {
                Some(v) => self@.contains_key(tool@) && self@[tool@] == v@,
                None => !self@.contains_key(tool@),
            },
    {
        proof {
            use_type_invariant(self);
        }
        match find_key(&self.entries, tool) {
            Some(i) => {
                proof {
                    lemma_table_at(self.entries@, i as int);
                }
                Some(&self.entries[i].1)
            },
            None => None,
        }
    }

    /// How many tools the record holds.
    pub fn len(&self) -> (r: usize)
        ensures
            r == self@.len(),
    {
        proof {
            use_type_invariant(self);
            lemma_table_len(self.entries@);
            assert(self@.dom() =~= table_map(self.entries@).dom());
        }
        self.entries.len()
    }

    /// The record's entries, each tool once, in the order they were first set.
    pub fn entries(&self) -> (r: &Vec<(String, RecordValue)>)
        ensures
            keys_unique(r@),
            table_map(r@).map_values(|v: RecordValue| v@) == self@,
    {
        proof {
            use_type_invariant(self);
        }
        &self.entries
    }

    /// A copy of this record.
    pub fn duplicate(&self) -> (r: PolicyRecord)
        ensures
            r@ == self@,
    {
        proof {
            use_type_invariant(self);
        }
        let mut entries: Vec<(String, RecordValue)> = Vec::new();
        let mut i: usize = 0;
        while i < self.entries.len()
            invariant
                i <= self.entries@.len(),
                keys_unique(self.entries@),
                entries@.len() == i,
                forall|q: int| 0 <= q < i ==> #[trigger] entries@[q].0@ == self.entries@[q].0@ && entries@[q].1@ == self.entries@[q].1@,
            decreases self.entries@.len() - i,
        {
            let e = &self.entries[i];
            entries.push((e.0.clone(), e.1.duplicate()));
            i = i + 1;
        }
        proof {
            let a = self.entries@;
            let b = entries@;
            assert forall|x: int, y: int| 0 <= x < y < b.len() implies b[x].0@ != b[y].0@ by {
                assert(b[x].0@ == a[x].0@ && b[y].0@ == a[y].0@);
            }
            assert forall|k: Seq<char>| #[trigger] crate::table::holds_key(b, k) == crate::table::holds_key(a, k) by {
                if crate::table::holds_key(b, k) {
                    let q = choose|q: int| 0 <= q < b.len() && b[q].0@ == k;
                    assert(a[q].0@ == k);
                }
                if crate::table::holds_key(a, k) {
                    let q = choose|q: int| 0 <= q < a.len() && a[q].0@ == k;
                    assert(b[q].0@ == k);
                }
            }
            assert forall|k: Seq<char>| table_map(a).contains_key(k) implies table_map(b)[k]@ == table_map(a)[k]@ by {
                let q = choose|q: int| 0 <= q < a.len() && a[q].0@ == k;
                lemma_table_at(a, q);
                assert(b[q].0@ == k);
                lemma_table_at(b, q);
            }
        }
        let r = PolicyRecord { entries };
        assert(r@ =~= self@);
        r
    }
}

/// What a record held for a tool, when it held a policy; a value that is not a string is
/// no previous policy.
pub open spec fn previous_policy(record: Map<Seq<char>, RecordValueView>, tool: Seq<char>) -> Option<Seq<char>> {
    if record.contains_key(tool) {
        match record[tool] {
            RecordValueView::Policy(p) => Some(p),
            RecordValueView::Other(_) => None,
        }
    } else {
        None
    }
}

/// The record with `tool` set to `policy`, and the policy that tool held before.
///
/// Merging rather than replacing is forced by the config command: the write carries the
/// whole record, and every other tool's policy goes with it.
pub fn merge_record(record: &PolicyRecord, tool: &str, policy: &str) -> (r: (PolicyRecord, Option<String>))
    ensures
        r.0@ == record@.insert(tool@, RecordValueView::Policy(policy@)),
        record@.dom().finite(),
        r.0@.dom().finite(),
        match r.1 {
            Some(p) => previous_policy(record@, tool@) == Some(p@),
            None => previous_policy(record@, tool@) is None,
        },
{
    let previous = match record.get(tool) {
        Some(RecordValue::Policy(p)) => Some(p.clone()),
        _ => None,
    };
    let mut merged = record.duplicate();
    merged.insert(tool.to_owned(), RecordValue::Policy(policy.to_owned()));
    proof {
        use_type_invariant(record);
        lemma_table_len(record.entries@);
        assert(record@.dom() =~= table_map(record.entries@).dom());
    }
    (merged, previous)
}

/// The non-blank lines of a text.
pub open spec fn nonblank_lines(text: Seq<char>) -> Seq<Seq<char>> {
    lines_spec(text).filter(|l: Seq<char>| !blank(l))
}

/// The engine's own explanation of a failure, from its error output: its last
/// [`STDERR_TAIL_LINES`] non-blank lines joined with ` / `, or a sentence saying it printed
/// nothing.
pub open spec fn tail_of(text: Seq<char>) -> Seq<char> {
    let ls = nonblank_lines(text);
    if ls.len() == 0 {
        "it printed no error output"@
    } else if ls.len() <= STDERR_TAIL_LINES {
        join_spec(ls, " / "@)
    } else {
        join_spec(ls.skip(ls.len() - STDERR_TAIL_LINES), " / "@)
    }
}

/// The engine's explanation of a failure, for a message the user reads.
///
/// The tail rather than the whole stream: a failure prints its reason last.
pub fn stderr_tail(stderr: &[u8]) -> (r: String)
    ensures
        r@ == tail_of(utf8_lossy(stderr@)),
{
    let text = lossy_text(stderr);
    let all = lines(text.as_str());
    let ghost lv = views(all@);
    let mut kept: Vec<String> = Vec::new();
    let mut i: usize = 0;
    while i < all.len()
        invariant
            i <= all@.len(),
            lv == views(all@),
            views(kept@) == lv.take(i as int).filter(|l: Seq<char>| !blank(l)),
        decreases all@.len() - i,
    {
        proof {
            assert(lv.take(i + 1) =~= lv.take(i as int).push(lv[i as int]));
            lv.take(i as int).lemma_filter_push(lv[i as int], |l: Seq<char>| !blank(l));
            assert(lv[i as int] == all@[i as int]@);
        }
        if !is_blank(all[i].as_str()) {
            let ghost before = kept@;
            kept.push(all[i].clone());
            assert(views(kept@) =~= views(before).push(lv[i as int]));
        }
        i = i + 1;
    }
    assert(lv.take(all@.len() as int) =~= lv);
    if kept.len() == 0 {
        return "it printed no error output".to_owned();
    }
    let start = if kept.len() > STDERR_TAIL_LINES {
        kept.len() - STDERR_TAIL_LINES
    } else {
        0
    };
    assert(views(kept@).skip(0) =~= views(kept@));
    join_from(&kept, start, " / ")
}

/// A merge never loses another tool's policy: every tool but the one written keeps what it
/// held, and the one written holds the new policy.
pub proof fn law_merge_keeps_other_policies(record: Map<Seq<char>, RecordValueView>, tool: Seq<char>, policy: Seq<char>)
    ensures
        ({
            let merged = record.insert(tool, RecordValueView::Policy(policy));
            &&& merged[tool] == RecordValueView::Policy(policy)
            &&& merged.dom() == record.dom().insert(tool)
            &&& forall|t: Seq<char>| t != tool && record.contains_key(t) ==> merged[t] == record[t]
        }),
{
    let merged = record.insert(tool, RecordValueView::Policy(policy));
    assert(merged.dom() =~= record.dom().insert(tool));
}

/// A tool name that is accepted is non-empty, within the limit, and made of key
/// characters only; one that holds a character outside the alphabet is always refused.
pub proof fn law_accepted_names_are_keys(tool: Seq<char>)
    ensures
        tool_name_verdict(tool) is Ok <==> (0 < tool.len() <= MAX_TOOL_NAME_CHARS && forall|i: int| 0 <= i < tool.len() ==> name_char(#[trigger] tool[i])),
{
    if exists|i: int| 0 <= i < tool.len() && !name_char(tool[i]) {
        let i = choose|i: int| 0 <= i < tool.len() && !name_char(tool[i]);
        lemma_min_offender(tool, i);
    }
}

proof fn lemma_min_offender(s: Seq<char>, i: int)
    requires
        0 <= i < s.len(),
        !name_char(s[i]),
    ensures
        exists|k: int| 0 <= k < s.len() && !name_char(s[k]) && forall|j: int| 0 <= j < k ==> name_char(#[trigger] s[j]),
    decreases i,
{
    if exists|j: int| 0 <= j < i && !name_char(s[j]) {
        let j = choose|j: int| 0 <= j < i && !name_char(s[j]);
        lemma_min_offender(s, j);
    } else {
        assert(0 <= i < s.len() && !name_char(s[i]) && forall|j: int| 0 <= j < i ==> name_char(#[trigger] s[j]));
    }
}

} // verus!
