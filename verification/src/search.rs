//! The app's own cross-thread search index.
//!
//! The engine has no cross-thread search, so the index is the app's: a full-text table in the
//! app's config directory, fed from the engine's session store. The host owns the database;
//! this module owns the decisions around it — what a typed query becomes, how many hits a
//! caller gets, which sessions a pass drops, whether a file is the one already indexed, and
//! the state a scan moves through and announces.
//!
//! The index is a cache of the store, so nothing here fails loudly: a query that is not a
//! query language, an index that is not a database and a directory that cannot be written all
//! end as an empty result, a count of `0`, or a rebuild.
use vstd::prelude::*;

use crate::dto::IndexStatus;
use crate::order::views;
use crate::text::{blank, concat3, is_whitespace, is_ws, join, join_from, join_path, join_spec, str_eq};

verus! {

/// The index file, beside the app's other files.
pub const INDEX_FILE: &'static str = "search-index.db";

/// How many hits a query returns when the caller does not say.
pub const DEFAULT_LIMIT: u32 = 50;

/// The most hits any caller may ask for: a larger ask is clamped rather than refused.
pub const MAX_LIMIT: u32 = 100;

/// How often a running scan may announce itself, in milliseconds.
pub const PROGRESS_INTERVAL_MS: u64 = 250;

/// How long a statement waits for the index's other connection, in seconds.
pub const BUSY_TIMEOUT_SECS: u64 = 5;

/// Where a scan's progress goes: one whole status, whenever a scan starts, advances or ends.
pub trait ProgressSink {
    fn progress(&self, status: &IndexStatus);
}

/// A sink that drops what it is told, for a caller with no window.
#[derive(Debug, Default)]
pub struct NullSink;

impl ProgressSink for NullSink {
    fn progress(&self, status: &IndexStatus) {
    }
}

/// The scan's state.
pub struct Index {
    /// `None` when the platform gave no config directory: queries then answer with nothing
    /// and a scan refuses.
    dir: Option<String>,
    running: bool,
    /// Sessions in the store, from the listing the last scan took.
    total: u32,
    /// Unix milliseconds of the last pass that got to the end.
    completed_at: Option<u64>,
    /// Why the last pass did not get to the end; `None` once one does.
    error: Option<String>,
    /// When the last event went out, in milliseconds on the host's monotonic clock.
    announced_at: Option<u64>,
}

/// The scan's state as values.
pub struct IndexView {
    pub dir: Option<Seq<char>>,
    pub running: bool,
    pub total: u32,
    pub completed_at: Option<u64>,
    pub error: Option<Seq<char>>,
    pub announced_at: Option<u64>,
}

impl View for Index {
    type V = IndexView;

    closed spec fn view(&self) -> IndexView {
        IndexView {
            dir: crate::dto::opt_view(self.dir),
            running: self.running,
            total: self.total,
            completed_at: self.completed_at,
            error: crate::dto::opt_view(self.error),
            announced_at: self.announced_at,
        }
    }
}

/// The status the overlay reads: the scan's state, and the index's own count of sessions.
pub open spec fn status_of(v: IndexView, indexed: u32, s: IndexStatus) -> bool {
    &&& s.indexed == indexed
    &&& s.total == v.total
    &&& s.running == v.running
    &&& s.completed_at == v.completed_at
    &&& crate::dto::opt_view(s.error) == v.error
}

/// Whether an announcement is due at `now`: always when forced (a start or an end), and
/// otherwise once the interval has passed since the last one.
pub open spec fn announce_due(v: IndexView, now: u64, force: bool) -> bool {
    force || match v.announced_at {
        None => true,
        Some(last) => now >= last && now - last >= PROGRESS_INTERVAL_MS,
    }
}

fn copy_opt(o: &Option<String>) -> (r: Option<String>)
    ensures
        crate::dto::opt_view(r) == crate::dto::opt_view(*o),
{
    match o {
        Some(s) => Some(s.clone()),
        None => None,
    }
}

impl Index {
    /// An index kept under `config_dir`, or one with nowhere to live.
    pub fn new(config_dir: Option<String>) -> (r: Index)
        ensures
            r@.dir == crate::dto::opt_view(config_dir),
            !r@.running,
            r@.total == 0,
            r@.completed_at is None,
            r@.error is None,
            r@.announced_at is None,
    {
        Index { dir: config_dir, running: false, total: 0, completed_at: None, error: None, announced_at: None }
    }

    /// The index file, when there is a directory to keep it in.
    pub fn path(&self) -> (r: Option<String>)
        ensures
            match r {
                Some(p) => self@.dir is Some && p@ == join_path(self@.dir->0, INDEX_FILE@),
                None => self@.dir is None,
            },
    {
        match &self.dir {
            Some(d) => Some(join(d.as_str(), INDEX_FILE)),
            None => None,
        }
    }

    /// The status as of now, given how many sessions the index holds.
    pub fn snapshot(&self, indexed: u32) -> (r: IndexStatus)
        ensures
            status_of(self@, indexed, r),
    {
        IndexStatus {
            indexed,
            total: self.total,
            running: self.running,
            completed_at: self.completed_at,
            error: copy_opt(&self.error),
        }
    }

    /// The index as the overlay's footer reads it.
    pub fn status(&self, indexed: u32) -> (r: IndexStatus)
        ensures
            status_of(self@, indexed, r),
    {
        self.snapshot(indexed)
    }

    /// Record the listing a pass took: its length is the overlay's denominator.
    pub fn set_total(&mut self, sessions: usize)
        ensures
            final(self)@ == (IndexView { total: sessions as u32, ..old(self)@ }),
    {
        self.total = sessions as u32;
    }

    /// The status to tell the window, unless the last announcement was a moment ago; `force`
    /// bypasses the interval for a start and an end. `None` means nothing is announced.
    pub fn announce(&mut self, now: u64, force: bool, indexed: u32) -> (r: Option<IndexStatus>)
        ensures
            r is Some == announce_due(old(self)@, now, force),
            final(self)@ == if r is Some {
                IndexView { announced_at: Some(now), ..old(self)@ }
            } else {
                old(self)@
            },
            r matches Some(s) ==> status_of(final(self)@, indexed, s),
    {
        let due = force || match self.announced_at {
            None => true,
            Some(last) => now >= last && now - last >= PROGRESS_INTERVAL_MS,
        };
        if !due {
            return None;
        }
        self.announced_at = Some(now);
        Some(self.snapshot(indexed))
    }

    /// Mark a scan as started, unless one is already running, and give the one status that
    /// announces it: running, with no error.
    ///
    /// `None` means this caller did not start one and there is nothing to announce: two passes
    /// would write the same rows, so a repeated "rebuild" is cheap rather than doubled.
    pub fn begin(&mut self, now: u64, indexed: u32) -> (r: Option<IndexStatus>)
        ensures
            r is Some == !old(self)@.running,
            r is Some ==> final(self)@ == (IndexView { running: true, error: None, announced_at: Some(now), ..old(self)@ }),
            r is None ==> final(self)@ == old(self)@,
            r matches Some(s) ==> status_of(final(self)@, indexed, s) && s.running && s.error is None,
    {
        if self.running {
            return None;
        }
        self.running = true;
        self.error = None;
        self.announce(now, true, indexed)
    }

    /// Settle a pass that ended at wall-clock time `at`, with the reason it failed if it did,
    /// and give the status that announces it is over.
    ///
    /// A failed pass leaves `completed_at` where it was: the last complete index is the honest
    /// answer to "when was this last right?".
    pub fn settle_at(&mut self, error: Option<String>, at: u64, now: u64, indexed: u32) -> (r: IndexStatus)
        ensures
            final(self)@ == (IndexView {
                running: false,
                error: crate::dto::opt_view(error),
                completed_at: if error is None {
                    Some(at)
                } else {
                    old(self)@.completed_at
                },
                announced_at: Some(now),
                ..old(self)@
            }),
            status_of(final(self)@, indexed, r),
            !r.running,
    {
        let failed = error.is_some();
        self.running = false;
        self.error = error;
        if !failed {
            self.completed_at = Some(at);
        }
        self.announced_at = Some(now);
        self.snapshot(indexed)
    }

    /// Settle a pass that ended now. Which moment "now" is, is the system clock's; the rest
    /// is [`Index::settle_at`].
    pub fn settle(&mut self, error: Option<String>, now: u64, indexed: u32) -> (r: IndexStatus)
        ensures
            final(self)@.running == false,
            final(self)@.error == crate::dto::opt_view(error),
            error is None ==> final(self)@.completed_at is Some,
            error is Some ==> final(self)@.completed_at == old(self)@.completed_at,
            final(self)@.total == old(self)@.total,
            final(self)@.dir == old(self)@.dir,
            final(self)@.announced_at == Some(now),
            status_of(final(self)@, indexed, r),
            !r.running,
    {
        let at = crate::clock::now_ms();
        self.settle_at(error, at, now, indexed)
    }

    /// The database a pass writes into, or why there is none to write.
    pub fn database(&self) -> (r: Result<String, String>)
        ensures
            match r {
                Ok(p) => self@.dir is Some && p@ == join_path(self@.dir->0, INDEX_FILE@),
                Err(e) => self@.dir is None && e@ == no_directory_message(),
            },
    {
        match self.path() {
            Some(p) => Ok(p),
            None => Err("the app has no config directory, so it has nowhere to keep a search index".to_owned()),
        }
    }
}

/// The refusal of a scan or a query with nowhere to keep the index.
pub open spec fn no_directory_message() -> Seq<char> {
    "the app has no config directory, so it has nowhere to keep a search index"@
}

/// How many hits a caller gets: the default when it does not say, and never fewer than one
/// or more than the ceiling.
pub open spec fn limit_spec(limit: Option<u32>) -> u32 {
    let asked = match limit {
        Some(l) => l,
        None => DEFAULT_LIMIT,
    };
    if asked < 1 {
        1
    } else if asked > MAX_LIMIT {
        MAX_LIMIT
    } else {
        asked
    }
}

/// How many hits a caller gets.
pub fn effective_limit(limit: Option<u32>) -> (r: u32)
    ensures
        r == limit_spec(limit),
        1 <= r <= MAX_LIMIT,
{
    let asked = match limit {
        Some(l) => l,
        None => DEFAULT_LIMIT,
    };
    if asked < 1 {
        1
    } else if asked > MAX_LIMIT {
        MAX_LIMIT
    } else {
        asked
    }
}

/// The pieces of a text between whitespace characters, empty ones included.
pub open spec fn ws_pieces(s: Seq<char>) -> Seq<Seq<char>>
    decreases s.len(),
{
    if s.len() == 0 {
        seq![Seq::empty()]
    } else {
        let p = ws_pieces(s.drop_last());
        if is_ws(s.last()) {
            p.push(Seq::empty())
        } else {
            p.update(p.len() - 1, p.last().push(s.last()))
        }
    }
}

proof fn lemma_ws_pieces_nonempty(s: Seq<char>)
    ensures
        ws_pieces(s).len() >= 1,
    decreases s.len(),
{
    if s.len() > 0 {
        lemma_ws_pieces_nonempty(s.drop_last());
    }
}

/// `str::split_whitespace`: the non-empty runs of non-whitespace, in order.
pub open spec fn words(s: Seq<char>) -> Seq<Seq<char>> {
    ws_pieces(s).filter(|w: Seq<char>| w.len() > 0)
}

proof fn lemma_filter_push_nonempty(s: Seq<Seq<char>>, x: Seq<char>)
    ensures
        s.push(x).filter(|w: Seq<char>| w.len() > 0) == if x.len() > 0 {
            s.filter(|w: Seq<char>| w.len() > 0).push(x)
        } else {
            s.filter(|w: Seq<char>| w.len() > 0)
        },
{
    s.lemma_filter_push(x, |w: Seq<char>| w.len() > 0);
}

/// The words of a text.
pub fn split_whitespace(s: &str) -> (r: Vec<String>)
    ensures
        views(r@) == words(s@),
{
    let n = s.unicode_len();
    let mut done: Vec<String> = Vec::new();
    let mut cur = String::new();
    let mut i: usize = 0;
    proof {
        assert(s@.take(0) =~= Seq::<char>::empty());
        assert(ws_pieces(s@.take(0)).drop_last() =~= Seq::<Seq<char>>::empty());
        assert(views(done@) =~= Seq::<Seq<char>>::empty());
        assert(Seq::<Seq<char>>::empty().filter(|w: Seq<char>| w.len() > 0) =~= Seq::<Seq<char>>::empty());
    }
    while i < n
        invariant
            n == s@.len(),
            i <= n,
            ws_pieces(s@.take(i as int)).len() >= 1,
            views(done@) == ws_pieces(s@.take(i as int)).drop_last().filter(|w: Seq<char>| w.len() > 0),
            cur@ == ws_pieces(s@.take(i as int)).last(),
        decreases n - i,
    {
        let c = s.get_char(i);
        let ghost p = ws_pieces(s@.take(i as int));
        proof {
            assert(s@.take(i + 1).drop_last() =~= s@.take(i as int));
            assert(s@.take(i + 1).last() == c);
        }
        if is_whitespace(c) {
            proof {
                lemma_filter_push_nonempty(p.drop_last(), p.last());
                assert(p.drop_last().push(p.last()) =~= p);
                assert(ws_pieces(s@.take(i + 1)) == p.push(Seq::<char>::empty()));
                assert(ws_pieces(s@.take(i + 1)).drop_last() =~= p);
            }
            if cur.unicode_len() > 0 {
                let ghost before = done@;
                let mut taken = String::new();
                std::mem::swap(&mut taken, &mut cur);
                done.push(taken);
                assert(views(done@) =~= views(before).push(p.last()));
            } else {
                cur = String::new();
            }
            proof {
                reveal_strlit("");
            }
            assert(cur@ =~= Seq::<char>::empty());
        } else {
            let ghost q = p.update(p.len() - 1, p.last().push(c));
            proof {
                assert(ws_pieces(s@.take(i + 1)) == q);
                assert(q.drop_last() =~= p.drop_last());
            }
            let piece = s.substring_char(i, i + 1);
            assert(piece@ =~= seq![c]);
            cur.append(piece);
            assert(cur@ =~= q.last());
        }
        i = i + 1;
    }
    let ghost p = ws_pieces(s@.take(n as int));
    proof {
        assert(s@.take(n as int) =~= s@);
        lemma_filter_push_nonempty(p.drop_last(), p.last());
        assert(p.drop_last().push(p.last()) =~= p);
    }
    if cur.unicode_len() > 0 {
        let ghost before = done@;
        done.push(cur);
        assert(views(done@) =~= views(before).push(p.last()));
    }
    done
}

/// A word with every `"` doubled, as a quoted string of the query language escapes it.
pub open spec fn doubled_quotes(w: Seq<char>) -> Seq<char>
    decreases w.len(),
{
    if w.len() == 0 {
        Seq::empty()
    } else if w.last() == '"' {
        doubled_quotes(w.drop_last()) + seq!['"', '"']
    } else {
        doubled_quotes(w.drop_last()).push(w.last())
    }
}

/// A word as a phrase: quoted, its quotes doubled.
pub open spec fn phrase(w: Seq<char>) -> Seq<char> {
    seq!['"'] + doubled_quotes(w) + seq!['"']
}

/// The phrases of the words, the last one marked as a prefix with `*`.
pub open spec fn terms(ws: Seq<Seq<char>>) -> Seq<Seq<char>> {
    let q = ws.map_values(|w: Seq<char>| phrase(w));
    q.update(q.len() - 1, q.last().push('*'))
}

/// The full-text `MATCH` expression for what a user typed, or `None` when it holds nothing
/// but whitespace.
///
/// The query language has operators, and a person typing `"` or `naive AND rust` is not
/// writing in it: so every word is quoted, which makes it a phrase, and the phrases are
/// joined with `AND`. The last word is a prefix, because the overlay searches on every
/// keystroke and the word still being typed has to match the words it begins.
pub open spec fn match_spec(query: Seq<char>) -> Option<Seq<char>> {
    let ws = words(query);
    if ws.len() == 0 {
        None
    } else {
        Some(join_spec(terms(ws), " AND "@))
    }
}

fn quote(w: &str) -> (r: String)
    ensures
        r@ == phrase(w@),
{
    let n = w.unicode_len();
    let mut out = "\"".to_owned();
    proof {
        reveal_strlit("\"");
        reveal_strlit("\"\"");
    }
    let mut i: usize = 0;
    assert(w@.take(0) =~= Seq::<char>::empty());
    while i < n
        invariant
            n == w@.len(),
            i <= n,
            out@ == seq!['"'] + doubled_quotes(w@.take(i as int)),
        decreases n - i,
    {
        let c = w.get_char(i);
        proof {
            assert(w@.take(i + 1).drop_last() =~= w@.take(i as int));
            assert(w@.take(i + 1).last() == c);
        }
        if c == '"' {
            let ghost before = out@;
            proof {
                reveal_strlit("\"\"");
            }
            out.append("\"\"");
            assert(out@ =~= seq!['"'] + doubled_quotes(w@.take(i + 1)));
        } else {
            let ghost before = out@;
            let piece = w.substring_char(i, i + 1);
            out.append(piece);
            assert(out@ =~= seq!['"'] + doubled_quotes(w@.take(i + 1)));
        }
        i = i + 1;
    }
    assert(w@.take(n as int) =~= w@);
    out.append("\"");
    assert(out@ =~= phrase(w@));
    out
}

/// The full-text `MATCH` expression for what a user typed.
pub fn match_expression(query: &str) -> (r: Option<String>)
    ensures
        match r {
            Some(e) => match_spec(query@) == Some(e@),
            None => match_spec(query@) is None,
        },
{
    let ws = split_whitespace(query);
    if ws.len() == 0 {
        return None;
    }
    let ghost wv = views(ws@);
    let mut quoted: Vec<String> = Vec::new();
    let mut i: usize = 0;
    while i < ws.len()
        invariant
            i <= ws@.len(),
            wv == views(ws@),
            quoted@.len() == i,
            forall|q: int| 0 <= q < i ==> #[trigger] quoted@[q]@ == phrase(wv[q]),
        decreases ws@.len() - i,
    {
        quoted.push(quote(ws[i].as_str()));
        i = i + 1;
    }
    let k = quoted.len() - 1;
    let mut last = quoted.remove(k);
    let star = "*";
    proof {
        reveal_strlit("*");
    }
    last.append(star);
    let ghost lv = last@;
    quoted.push(last);
    proof {
        let t = terms(wv);
        assert forall|q: int| 0 <= q < t.len() implies views(quoted@)[q] == t[q] by {
            assert(views(quoted@)[q] == quoted@[q]@);
        }
        assert(views(quoted@) =~= terms(wv));
        assert(views(quoted@).skip(0) =~= views(quoted@));
    }
    Some(join_from(&quoted, 0, " AND "))
}

/// The sessions the index holds that the listing does not name: gone, and to be dropped.
pub open spec fn missing_spec(indexed: Seq<Seq<char>>, present: Seq<Seq<char>>) -> Seq<Seq<char>> {
    indexed.filter(|id: Seq<char>| !present.contains(id))
}

fn holds(v: &Vec<String>, x: &str) -> (r: bool)
    ensures
        r == views(v@).contains(x@),
{
    let mut i: usize = 0;
    while i < v.len()
        invariant
            i <= v@.len(),
            forall|q: int| 0 <= q < i ==> v@[q]@ != x@,
        decreases v@.len() - i,
    {
        if str_eq(v[i].as_str(), x) {
            assert(views(v@)[i as int] == x@);
            return true;
        }
        i = i + 1;
    }
    assert forall|q: int| 0 <= q < views(v@).len() implies views(v@)[q] != x@ by {
        assert(views(v@)[q] == v@[q]@);
    }
    false
}

/// The sessions the index holds that the listing does not name, in the index's order.
pub fn missing(indexed: &Vec<String>, present: &Vec<String>) -> (r: Vec<String>)
    ensures
        views(r@) == missing_spec(views(indexed@), views(present@)),
{
    let ghost iv = views(indexed@);
    let ghost pv = views(present@);
    let mut out: Vec<String> = Vec::new();
    let mut i: usize = 0;
    assert(iv.take(0) =~= Seq::<Seq<char>>::empty());
    assert(views(out@) =~= Seq::<Seq<char>>::empty());
    assert(Seq::<Seq<char>>::empty().filter(|id: Seq<char>| !pv.contains(id)) =~= Seq::<Seq<char>>::empty());
    while i < indexed.len()
        invariant
            i <= indexed@.len(),
            iv == views(indexed@),
            pv == views(present@),
            views(out@) == iv.take(i as int).filter(|id: Seq<char>| !pv.contains(id)),
        decreases indexed@.len() - i,
    {
        proof {
            assert(iv.take(i + 1) =~= iv.take(i as int).push(iv[i as int]));
            iv.take(i as int).lemma_filter_push(iv[i as int], |id: Seq<char>| !pv.contains(id));
            assert(iv[i as int] == indexed@[i as int]@);
        }
        if !holds(present, indexed[i].as_str()) {
            let ghost before = out@;
            out.push(indexed[i].clone());
            assert(views(out@) =~= views(before).push(iv[i as int]));
        }
        i = i + 1;
    }
    assert(iv.take(indexed@.len() as int) =~= iv);
    out
}

/// Whether a session file is the one the index already has: its recorded modification time
/// and size are the file's, as the database stores them.
pub fn unchanged(recorded: Option<(i64, i64)>, modified_ms: u64, size: u64) -> (r: bool)
    ensures
        r == (recorded == Some((modified_ms as i64, size as i64))),
{
    match recorded {
        Some((m, s)) => m == modified_ms as i64 && s == size as i64,
        None => false,
    }
}

/// The index's own files: the database, and the two its write-ahead log keeps beside it.
pub fn index_files(path: &str) -> (r: Vec<String>)
    ensures
        views(r@) == seq![path@, path@ + "-wal"@, path@ + "-shm"@],
{
    let mut r: Vec<String> = Vec::new();
    r.push(path.to_owned());
    let mut wal = path.to_owned();
    wal.append("-wal");
    r.push(wal);
    let mut shm = path.to_owned();
    shm.append("-shm");
    r.push(shm);
    assert(views(r@) =~= seq![path@, path@ + "-wal"@, path@ + "-shm"@]);
    r
}

/// A count the database answered, as the status carries it: never negative, and at most
/// what fits.
pub fn count_of(count: i64) -> (r: u32)
    ensures
        r == if count < 0 {
            0
        } else if count > u32::MAX {
            u32::MAX as int
        } else {
            count as int
        },
{
    if count < 0 {
        0
    } else if count > 0xffff_ffff {
        0xffff_ffff
    } else {
        count as u32
    }
}

/// An ordinal the database answered, as a hit carries it: never negative.
pub fn ordinal_of(stored: i64) -> (r: u64)
    ensures
        r == if stored < 0 {
            0
        } else {
            stored as int
        },
{
    if stored < 0 {
        0
    } else {
        stored as u64
    }
}

/// The expression is never empty when a query has a word in it, and there is none when it
/// has only whitespace; every word becomes exactly one quoted phrase.
pub proof fn law_every_word_is_one_phrase(query: Seq<char>)
    ensures
        match_spec(query) is None <==> words(query).len() == 0,
        words(query).len() > 0 ==> terms(words(query)).len() == words(query).len(),
{
}

} // verus!
