//! The app's own terminals: a real PTY per tab, running a real shell.
//!
//! The pseudo-terminals, the processes and the reader threads are the host's. The decisions
//! are here: what a terminal runs, the window size a shell is told, how reads are batched
//! into events and encoded, how a shell's end is reported, and which processes belong to the
//! session a shell led.
use vstd::prelude::*;

use crate::dto::{opt_view, TerminalExit, TerminalOutput, TerminalSnapshot};
use crate::order::views;
use crate::search::{split_whitespace, words};
use crate::text::{blank, decimal, decimal_spec, is_blank, parse_u64, parse_u64_spec};

verus! {

/// The smallest number of columns a shell is told it has.
pub const MIN_COLS: u16 = 20;

/// The largest number of columns a shell is told it has.
pub const MAX_COLS: u16 = 1000;

/// The smallest number of rows a shell is told it has.
pub const MIN_ROWS: u16 = 5;

/// The largest number of rows a shell is told it has.
pub const MAX_ROWS: u16 = 1000;

/// The largest batch one output event carries, in bytes.
pub const MAX_CHUNK: usize = 8192;

/// How many batches may wait between the reader and the pump: the flow control.
pub const QUEUE_DEPTH: usize = 8;

/// How long a shell gets to honour a hang-up before the host stops asking, in milliseconds.
pub const KILL_GRACE_MS: u64 = 250;

/// How long a killed shell gets to be reaped, in seconds.
pub const REAP_GRACE_SECS: u64 = 5;

/// How long a terminal whose output ended gets to produce an exit status, in seconds.
pub const EXIT_GRACE_SECS: u64 = 5;

/// What the shell is told it is talking to.
pub const TERM: &'static str = "xterm-256color";

/// Where terminal events go.
pub trait TerminalSink {
    /// One batch of output, already base64.
    fn output(&self, output: &TerminalOutput);
    /// The whole tab set, whenever it changes.
    fn changed(&self, terminals: &[TerminalSnapshot]);
}

/// A sink that drops what it is told, for a caller with no window.
#[derive(Debug, Default)]
pub struct NullSink;

impl TerminalSink for NullSink {
    fn output(&self, output: &TerminalOutput) {
    }

    fn changed(&self, terminals: &[TerminalSnapshot]) {
    }
}

/// What a terminal runs.
#[derive(Debug, Clone, PartialEq, Eq)]
pub struct Program {
    pub file: String,
    pub args: Vec<String>,
}

impl Program {
    /// A specific program, with no arguments.
    pub fn new(file: String) -> (r: Program)
        ensures
            r.file@ == file@,
            r.args@.len() == 0,
    {
        Program { file, args: Vec::new() }
    }

    /// With one more argument.
    pub fn arg(self, arg: String) -> (r: Program)
        ensures
            r.file@ == self.file@,
            views(r.args@) == views(self.args@).push(arg@),
    {
        let mut p = self;
        let ghost before = p.args@;
        p.args.push(arg);
        assert(views(p.args@) =~= views(before).push(arg@));
        p
    }

    /// The user's shell, given the value of the variable that names it: that value when it
    /// is not blank, `/bin/sh` otherwise.
    pub fn shell_from(value: Option<String>) -> (r: Program)
        ensures
            r.file@ == match value {
                Some(v) => if blank(v@) {
                    "/bin/sh"@
                } else {
                    v@
                },
                None => "/bin/sh"@,
            },
            r.args@.len() == 0,
    {
        let file = match value {
            Some(v) => if is_blank(v.as_str()) {
                "/bin/sh".to_owned()
            } else {
                v
            },
            None => "/bin/sh".to_owned(),
        };
        Program { file, args: Vec::new() }
    }
}

/// A count clamped into a range.
pub open spec fn clamp_spec(value: u16, lowest: u16, highest: u16) -> u16 {
    let raised = if value < lowest {
        lowest
    } else {
        value
    };
    if raised > highest {
        highest
    } else {
        raised
    }
}

/// A count clamped into a sane range: raised to `lowest`, then lowered to `highest`.
pub fn clamp(value: u16, lowest: u16, highest: u16) -> (r: u16)
    ensures
        r == clamp_spec(value, lowest, highest),
{
    let raised = if value < lowest {
        lowest
    } else {
        value
    };
    if raised > highest {
        highest
    } else {
        raised
    }
}

/// The window a shell is told it has: columns and rows, each clamped, so a window that was
/// never laid out (`0`) still gets a usable prompt.
pub fn window_size(cols: u16, rows: u16) -> (r: (u16, u16))
    ensures
        r.0 == clamp_spec(cols, MIN_COLS, MAX_COLS),
        r.1 == clamp_spec(rows, MIN_ROWS, MAX_ROWS),
        MIN_COLS <= r.0 <= MAX_COLS,
        MIN_ROWS <= r.1 <= MAX_ROWS,
{
    (clamp(cols, MIN_COLS, MAX_COLS), clamp(rows, MIN_ROWS, MAX_ROWS))
}

/// The id of the `n`th terminal the host opens.
pub fn terminal_id(n: u64) -> (r: String)
    ensures
        r@ == "pty-"@ + decimal_spec(n as nat),
{
    let mut id = "pty-".to_owned();
    id.append(decimal(n).as_str());
    id
}

/// How a shell ended, as the panel reports it: a death by signal is a signal — the
/// placeholder code the platform pairs with it is not passed on — and anything else is its
/// exit code.
pub fn exit_of(signal: Option<String>, code: u32) -> (r: TerminalExit)
    ensures
        match signal {
            Some(s) => r.code is None && opt_view(r.signal) == Some(s@),
            None => r.code == Some(code as i32) && r.signal is None,
        },
{
    match signal {
        Some(s) => TerminalExit { code: None, signal: Some(s) },
        None => TerminalExit { code: Some(code as i32), signal: None },
    }
}

/// A tab as the panel lists it: running until an exit is recorded.
pub fn snapshot_of(id: &str, cwd: &str, exit: &Option<TerminalExit>, pid: Option<u32>) -> (r: TerminalSnapshot)
    ensures
        r.id@ == id@,
        r.cwd@ == cwd@,
        r.running == exit.is_none(),
        r.pid == pid,
        r.exit is Some == exit is Some,
        r.exit matches Some(e) ==> exit matches Some(x) && e.code == x.code && opt_view(e.signal) == opt_view(x.signal),
{
    let copied = match exit {
        Some(x) => Some(TerminalExit {
            code: x.code,
            signal: match &x.signal {
                Some(s) => Some(s.clone()),
                None => None,
            },
        }),
        None => None,
    };
    TerminalSnapshot { id: id.to_owned(), cwd: cwd.to_owned(), running: exit.is_none(), exit: copied, pid }
}

/// The character of the standard base64 alphabet for a six-bit value.
pub open spec fn b64_char(v: int) -> char {
    "ABCDEFGHIJKLMNOPQRSTUVWXYZabcdefghijklmnopqrstuvwxyz0123456789+/"@[v]
}

/// Standard base64 with padding (RFC 4648 §4): each three bytes become four characters,
/// and a final one or two bytes are padded with `=`.
pub open spec fn base64_spec(bytes: Seq<u8>) -> Seq<char>
    decreases bytes.len(),
{
    if bytes.len() == 0 {
        Seq::empty()
    } else if bytes.len() == 1 {
        let a = bytes[0] as int;
        seq![b64_char(a / 4), b64_char((a % 4) * 16), '=', '=']
    } else if bytes.len() == 2 {
        let (a, b) = (bytes[0] as int, bytes[1] as int);
        seq![b64_char(a / 4), b64_char((a % 4) * 16 + b / 16), b64_char((b % 16) * 4), '=']
    } else {
        let (a, b, c) = (bytes[0] as int, bytes[1] as int, bytes[2] as int);
        seq![b64_char(a / 4), b64_char((a % 4) * 16 + b / 16), b64_char((b % 16) * 4 + c / 64), b64_char(c % 64)]
            + base64_spec(bytes.skip(3))
    }
}

/// `base64::engine::general_purpose::STANDARD.encode`: the standard alphabet, with
/// padding, which is what the crate documents for that engine.
#[verifier::external_body]
fn encode_base64(bytes: &[u8]) -> (r: String)
    ensures
        r@ == base64_spec(bytes@),
{
    base64::Engine::encode(&base64::engine::general_purpose::STANDARD, bytes)
}

/// Output read from a terminal and not yet sent, gathered into one event.
pub struct Batch {
    bytes: Vec<u8>,
}

impl View for Batch {
    type V = Seq<u8>;

    closed spec fn view(&self) -> Seq<u8> {
        self.bytes@
    }
}

impl Batch {
    /// A batch that starts with one read.
    pub fn start(first: Vec<u8>) -> (r: Batch)
        ensures
            r@ == first@,
    {
        Batch { bytes: first }
    }

    /// Whether the batch has room for more: it is under [`MAX_CHUNK`].
    pub fn open(&self) -> (r: bool)
        ensures
            r == (self@.len() < MAX_CHUNK),
    {
        self.bytes.len() < MAX_CHUNK
    }

    /// Offer one more queued read: taken when the batch stays within [`MAX_CHUNK`], and
    /// handed back otherwise, to start the next event — so an event is never merged past
    /// the size the reader asks for.
    pub fn offer(&mut self, next: Vec<u8>) -> (r: Option<Vec<u8>>)
        ensures
            old(self)@.len() + next@.len() > MAX_CHUNK ==> r == Some(next) && final(self)@ == old(self)@,
            old(self)@.len() + next@.len() <= MAX_CHUNK ==> r is None && final(self)@ == old(self)@ + next@,
    {
        if self.bytes.len() > MAX_CHUNK || next.len() > MAX_CHUNK - self.bytes.len() {
            return Some(next);
        }
        let ghost before = self.bytes@;
        let mut i: usize = 0;
        while i < next.len()
            invariant
                i <= next@.len(),
                self.bytes@ == before + next@.take(i as int),
            decreases next@.len() - i,
        {
            self.bytes.push(next[i]);
            assert(next@.take(i + 1) =~= next@.take(i as int).push(next@[i as int]));
            assert(self.bytes@ =~= before + next@.take(i + 1));
            i = i + 1;
        }
        assert(next@.take(next@.len() as int) =~= next@);
        None
    }

    /// The batch as the event for terminal `id`: its bytes, base64.
    pub fn finish(self, id: &str) -> (r: TerminalOutput)
        ensures
            r.id@ == id@,
            r.data@ == base64_spec(self@),
    {
        TerminalOutput { id: id.to_owned(), data: encode_base64(self.bytes.as_slice()) }
    }
}

/// The position of the last occurrence of `c`.
pub open spec fn last_index(s: Seq<char>, c: char) -> Option<int> {
    if exists|i: int| 0 <= i < s.len() && s[i] == c {
        Some(choose|i: int| 0 <= i < s.len() && s[i] == c && forall|j: int| i < j < s.len() ==> #[trigger] s[j] != c)
    } else {
        None
    }
}

/// What `str::parse::<u32>` answers.
pub open spec fn parse_u32_spec(s: Seq<char>) -> Option<u32> {
    match parse_u64_spec(s) {
        Some(v) => if v <= u32::MAX {
            Some(v as u32)
        } else {
            None
        },
        None => None,
    }
}

/// The session a process belongs to, from the text of its `/proc/<pid>/stat`: the fourth
/// field after the last `)` — the second field is the process's name and may hold spaces
/// and parentheses, so the fields after it are counted from the last one.
pub open spec fn session_spec(stat: Seq<char>) -> Option<u32> {
    match last_index(stat, ')') {
        Some(k) => {
            let fields = words(stat.skip(k + 1));
            if fields.len() > 3 {
                parse_u32_spec(fields[3])
            } else {
                None
            }
        },
        None => None,
    }
}

proof fn lemma_last_index(s: Seq<char>, c: char, k: int)
    requires
        0 <= k < s.len(),
        s[k] == c,
        forall|j: int| k < j < s.len() ==> #[trigger] s[j] != c,
    ensures
        last_index(s, c) == Some(k),
{
    let w = choose|i: int| 0 <= i < s.len() && s[i] == c && forall|j: int| i < j < s.len() ==> #[trigger] s[j] != c;
    assert(0 <= k < s.len() && s[k] == c && forall|j: int| k < j < s.len() ==> #[trigger] s[j] != c);
    if w < k {
        assert(s[k] != c);
    } else if k < w {
        assert(s[w] != c);
    }
}

/// The session a process belongs to, out of the text of its `stat` file.
pub fn session_of(stat: &str) -> (r: Option<u32>)
    ensures
        r == session_spec(stat@),
{
    let n = stat.unicode_len();
    let mut i: usize = n;
    while i > 0
        invariant
            n == stat@.len(),
            i <= n,
            forall|j: int| i <= j < n ==> #[trigger] stat@[j] != ')',
        decreases i,
    {
        if stat.get_char(i - 1) == ')' {
            proof {
                lemma_last_index(stat@, ')', i - 1);
            }
            let rest = stat.substring_char(i, n);
            assert(rest@ =~= stat@.skip(i as int));
            let fields = split_whitespace(rest);
            if fields.len() <= 3 {
                return None;
            }
            assert(views(fields@)[3] == fields@[3]@);
            return match parse_u64(fields[3].as_str()) {
                Some(v) => if v <= 0xffff_ffff {
                    Some(v as u32)
                } else {
                    None
                },
                None => None,
            };
        }
        i = i - 1;
    }
    None
}

/// The message for a working directory that is not one.
pub fn not_a_directory(cwd: &str) -> (r: String)
    ensures
        r@ == cwd@ + " is not a directory"@,
{
    let mut m = cwd.to_owned();
    m.append(" is not a directory");
    m
}

/// A window size is always one a shell can draw in, whatever the window reported.
pub proof fn law_window_is_always_usable(cols: u16, rows: u16)
    ensures
        MIN_COLS <= clamp_spec(cols, MIN_COLS, MAX_COLS) <= MAX_COLS,
        MIN_ROWS <= clamp_spec(rows, MIN_ROWS, MAX_ROWS) <= MAX_ROWS,
        MIN_COLS <= cols <= MAX_COLS ==> clamp_spec(cols, MIN_COLS, MAX_COLS) == cols,
        MIN_ROWS <= rows <= MAX_ROWS ==> clamp_spec(rows, MIN_ROWS, MAX_ROWS) == rows,
{
}

/// Batching never loses or reorders output and never exceeds the chunk: a read offered to a
/// batch is either appended whole, keeping the batch within [`MAX_CHUNK`], or handed back
/// untouched for the next event.
pub proof fn law_batches_stay_within_the_chunk(batch: Seq<u8>, next: Seq<u8>)
    requires
        batch.len() <= MAX_CHUNK,
    ensures
        batch.len() + next.len() <= MAX_CHUNK ==> (batch + next).len() <= MAX_CHUNK && (batch + next).take(batch.len() as int) == batch,
{
    if batch.len() + next.len() <= MAX_CHUNK {
        assert((batch + next).take(batch.len() as int) =~= batch);
    }
}

} // verus!
