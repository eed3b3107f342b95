//! The rules a session's pump applies between its streams and the window.
//!
//! The pump itself is the host's loop: it waits on the engine's two streams and a ticker,
//! and performs what these rules decide — counting, coalescing the rows a turn changes into
//! one patch per tick, and republishing the sidebar only when the thread's own state moved.
use vstd::prelude::*;

use crate::dto::{ActivitySnapshot, RowPatch, RowSnapshot};
use crate::order::views;
use crate::session::Counters;
use crate::text::str_eq;

verus! {

/// How an event counts.
#[derive(Debug, Clone, Copy, PartialEq, Eq)]
pub enum EventClass {
    /// An event of a kind the transport knows.
    Known,
    /// An event of a kind the transport does not know.
    Unknown,
    /// A frame the transport could not decode as an event.
    Malformed,
}

/// What the pump remembers between events.
pub struct PumpState {
    /// The counters the status reads.
    pub counters: Counters,
    kinds: Vec<String>,
    sequence: u64,
    first_dirty: Option<usize>,
    last_streaming: bool,
}

/// The pump's memory as values.
pub struct PumpView {
    pub counters: Counters,
    /// The event kinds seen so far.
    pub kinds: Set<Seq<char>>,
    /// How many events have been seen (wrapping).
    pub sequence: u64,
    /// The earliest row changed since the last publish.
    pub first_dirty: Option<usize>,
    /// Whether the last roster published said the thread was streaming.
    pub last_streaming: bool,
}

impl View for PumpState {
    type V = PumpView;

    closed spec fn view(&self) -> PumpView {
        PumpView {
            counters: self.counters,
            kinds: views(self.kinds@).to_set(),
            sequence: self.sequence,
            first_dirty: self.first_dirty,
            last_streaming: self.last_streaming,
        }
    }
}

/// The earlier of a remembered change and a new one.
pub open spec fn earliest(first: Option<usize>, index: usize) -> usize {
    match first {
        Some(f) => if f < index {
            f
        } else {
            index
        },
        None => index,
    }
}

/// `x + 1`, wrapping as the counters do.
pub open spec fn bump(x: u64) -> u64 {
    if x == u64::MAX {
        0
    } else {
        (x + 1) as u64
    }
}

fn bumped(x: u64) -> (r: u64)
    ensures
        r == bump(x),
{
    if x == u64::MAX {
        0
    } else {
        x + 1
    }
}

impl PumpState {
    /// A pump that has seen nothing, on a thread that is or is not streaming.
    pub fn new(streaming: bool) -> (r: PumpState)
        ensures
            r@.counters == Counters::default_spec(),
            r@.kinds == Set::<Seq<char>>::empty(),
            r@.sequence == 0,
            r@.first_dirty is None,
            r@.last_streaming == streaming,
    {
        let r = PumpState {
            counters: Counters {
                events_seen: 0,
                frames_seen: 0,
                distinct_kinds: 0,
                unknown_events: 0,
                malformed_events: 0,
                lagged_events: 0,
                ui_requests: 0,
                blocking_ui_requests: 0,
            },
            kinds: Vec::new(),
            sequence: 0,
            first_dirty: None,
            last_streaming: streaming,
        };
        assert(views(r.kinds@).to_set() =~= Set::<Seq<char>>::empty());
        r
    }

    /// Count one event of `kind`, remember the earliest row it changed, and return the
    /// activity tick the window is told about.
    pub fn event(&mut self, kind: &str, class: EventClass, dirty: Option<usize>) -> (r: ActivitySnapshot)
        ensures
            final(self)@.sequence == bump(old(self)@.sequence),
            r.sequence == final(self)@.sequence,
            r.kind@ == kind@,
            final(self)@.counters.events_seen == bump(old(self)@.counters.events_seen),
            final(self)@.counters.unknown_events == if class == EventClass::Unknown {
                bump(old(self)@.counters.unknown_events)
            } else {
                old(self)@.counters.unknown_events
            },
            final(self)@.counters.malformed_events == if class == EventClass::Malformed {
                bump(old(self)@.counters.malformed_events)
            } else {
                old(self)@.counters.malformed_events
            },
            final(self)@.kinds == old(self)@.kinds.insert(kind@),
            final(self)@.counters.distinct_kinds == if old(self)@.kinds.contains(kind@) {
                old(self)@.counters.distinct_kinds
            } else {
                bump(old(self)@.counters.distinct_kinds)
            },
            final(self)@.first_dirty == match dirty {
                Some(i) => Some(earliest(old(self)@.first_dirty, i)),
                None => old(self)@.first_dirty,
            },
            final(self)@.counters.frames_seen == old(self)@.counters.frames_seen,
            final(self)@.counters.lagged_events == old(self)@.counters.lagged_events,
            final(self)@.counters.ui_requests == old(self)@.counters.ui_requests,
            final(self)@.counters.blocking_ui_requests == old(self)@.counters.blocking_ui_requests,
            final(self)@.last_streaming == old(self)@.last_streaming,
    {
        self.sequence = bumped(self.sequence);
        self.counters.events_seen = bumped(self.counters.events_seen);
        match class {
            EventClass::Unknown => {
                self.counters.unknown_events = bumped(self.counters.unknown_events);
            },
            EventClass::Malformed => {
                self.counters.malformed_events = bumped(self.counters.malformed_events);
            },
            EventClass::Known => {},
        }
        let mut seen = false;
        let mut i: usize = 0;
        while i < self.kinds.len()
            invariant
                i <= self.kinds@.len(),
                seen == exists|q: int| 0 <= q < i && self.kinds@[q]@ == kind@,
            decreases self.kinds@.len() - i,
        {
            if str_eq(self.kinds[i].as_str(), kind) {
                seen = true;
            }
            i = i + 1;
        }
        let ghost before = self.kinds@;
        proof {
            if seen {
                let q = choose|q: int| 0 <= q < before.len() && before[q]@ == kind@;
                assert(views(before)[q] == kind@);
            }
            if views(before).contains(kind@) {
                let q = choose|q: int| 0 <= q < views(before).len() && views(before)[q] == kind@;
                assert(before[q]@ == kind@);
            }
        }
        if !seen {
            self.kinds.push(kind.to_owned());
            self.counters.distinct_kinds = bumped(self.counters.distinct_kinds);
            proof {
                assert(views(self.kinds@) =~= views(before).push(kind@));
                views(before).lemma_push_to_set_commute(kind@);
            }
        } else {
            assert(views(before).to_set().insert(kind@) =~= views(before).to_set());
        }
        match dirty {
            Some(index) => self.mark_dirty(index),
            None => {},
        }
        ActivitySnapshot { kind: kind.to_owned(), sequence: self.sequence }
    }

    /// Remember that rows from `index` on changed.
    pub fn mark_dirty(&mut self, index: usize)
        ensures
            final(self)@ == (PumpView { first_dirty: Some(earliest(old(self)@.first_dirty, index)), ..old(self)@ }),
    {
        let next = match self.first_dirty {
            Some(f) => if f < index {
                f
            } else {
                index
            },
            None => index,
        };
        self.first_dirty = Some(next);
    }

    /// Count an event the stream dropped because the pump fell behind.
    pub fn lagged(&mut self)
        ensures
            final(self)@.counters == (Counters { lagged_events: bump(old(self)@.counters.lagged_events), ..old(self)@.counters }),
            final(self)@.kinds == old(self)@.kinds,
            final(self)@.sequence == old(self)@.sequence,
            final(self)@.first_dirty == old(self)@.first_dirty,
            final(self)@.last_streaming == old(self)@.last_streaming,
    {
        self.counters.lagged_events = bumped(self.counters.lagged_events);
    }

    /// Count one frame: every host request, and the blocking ones apart.
    pub fn frame(&mut self, host_request: bool, blocking: bool)
        ensures
            final(self)@.counters == (Counters {
                frames_seen: bump(old(self)@.counters.frames_seen),
                ui_requests: if host_request {
                    bump(old(self)@.counters.ui_requests)
                } else {
                    old(self)@.counters.ui_requests
                },
                blocking_ui_requests: if host_request && blocking {
                    bump(old(self)@.counters.blocking_ui_requests)
                } else {
                    old(self)@.counters.blocking_ui_requests
                },
                ..old(self)@.counters
            }),
            final(self)@.kinds == old(self)@.kinds,
            final(self)@.sequence == old(self)@.sequence,
            final(self)@.first_dirty == old(self)@.first_dirty,
            final(self)@.last_streaming == old(self)@.last_streaming,
    {
        self.counters.frames_seen = bumped(self.counters.frames_seen);
        if host_request {
            self.counters.ui_requests = bumped(self.counters.ui_requests);
            if blocking {
                self.counters.blocking_ui_requests = bumped(self.counters.blocking_ui_requests);
            }
        }
    }

    /// The earliest changed row to publish from, if any, forgetting it: one patch per tick
    /// however many deltas a turn produced.
    pub fn take_dirty(&mut self) -> (r: Option<usize>)
        ensures
            r == old(self)@.first_dirty,
            final(self)@ == (PumpView { first_dirty: None, ..old(self)@ }),
    {
        let r = self.first_dirty;
        self.first_dirty = None;
        r
    }

    /// Whether the sidebar's roster is republished this tick: when rows changed, or when the
    /// thread started or stopped streaming since the last roster.
    pub fn roster_due(&mut self, streaming: bool, rows_changed: bool) -> (r: bool)
        ensures
            r == (rows_changed || streaming != old(self)@.last_streaming),
            final(self)@ == if r {
                PumpView { last_streaming: streaming, ..old(self)@ }
            } else {
                old(self)@
            },
    {
        if !rows_changed && streaming == self.last_streaming {
            return false;
        }
        self.last_streaming = streaming;
        true
    }
}

impl Counters {
    /// Counters that have counted nothing.
    pub open spec fn default_spec() -> Counters {
        Counters {
            events_seen: 0,
            frames_seen: 0,
            distinct_kinds: 0,
            unknown_events: 0,
            malformed_events: 0,
            lagged_events: 0,
            ui_requests: 0,
            blocking_ui_requests: 0,
        }
    }
}

/// The rows from `from` on, as a patch: `from` is clamped to the transcript's length, so a
/// marker left from a longer transcript publishes nothing rather than slicing past the end.
pub fn patch_from(from: usize, rows: Vec<RowSnapshot>) -> (r: RowPatch)
    ensures
        r.from == if from < rows@.len() {
            from
        } else {
            rows@.len() as usize
        },
        r.rows@ == rows@.skip(r.from as int),
{
    let mut rows = rows;
    let start = if from < rows.len() {
        from
    } else {
        rows.len()
    };
    let rest = rows.split_off(start);
    RowPatch { from: start, rows: rest }
}

/// A patch always starts at the earliest changed row: whatever order rows changed in
/// between two ticks, the one published is the smallest index marked.
pub proof fn law_patch_starts_at_the_earliest_change(first: Option<usize>, a: usize, b: usize)
    ensures
        earliest(Some(earliest(first, a)), b) == earliest(Some(earliest(first, b)), a),
        earliest(Some(earliest(first, a)), b) <= a,
        earliest(Some(earliest(first, a)), b) <= b,
{
}

} // verus!
