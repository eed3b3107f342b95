//! The registry's own memory: the last threads that closed, the threads the app released
//! for being idle, and the order the sidebar draws live threads in.
//!
//! The live sessions themselves are the host's handles; what the registry remembers about
//! them, and for how long, is decided here.
use vstd::prelude::*;

use crate::dto::ThreadSnapshot;
use crate::order::{sort_by_key, sorted_by_key, views, Keyed};
use crate::table::{find_key, holds_key, keys_unique, lemma_table_at, table_map};
use crate::text::str_eq;

verus! {

broadcast use vstd::seq_lib::group_to_multiset_ensures;

/// How many closed threads are remembered: enough for a window's recent history, bounded so
/// a long-running app does not keep every thread it ever opened.
pub const REMEMBERED: usize = 64;

/// The last threads that closed, oldest first, each id once, with what was known of each.
pub struct Closed<T> {
    entries: Vec<(String, T)>,
}

impl<T> Closed<T> {
    /// The ids remembered, oldest first.
    pub closed spec fn order(&self) -> Seq<Seq<char>> {
        self.entries@.map_values(|e: (String, T)| e.0@)
    }

    /// What is remembered under each id.
    pub closed spec fn memory(&self) -> Map<Seq<char>, T> {
        table_map(self.entries@)
    }

    #[verifier::type_invariant]
    spec fn well_formed(self) -> bool {
        keys_unique(self.entries@) && self.entries@.len() <= REMEMBERED
    }

    /// A memory with nothing in it.
    pub fn new() -> (r: Closed<T>)
        ensures
            r.order().len() == 0,
            r.memory() == Map::<Seq<char>, T>::empty(),
    {
        let r = Closed { entries: Vec::new() };
        assert(r.memory() =~= Map::<Seq<char>, T>::empty());
        r
    }

    /// Remember a thread that closed: a new id goes last, a known one keeps its place and
    /// takes the new value, and past [`REMEMBERED`] the oldest is forgotten.
    pub fn remember(&mut self, id: String, thread: T)
        ensures
            final(self).memory().contains_key(id@),
            final(self).memory()[id@] == thread,
            final(self).order().len() <= REMEMBERED,
            final(self).order().no_duplicates(),
            old(self).order().contains(id@) ==> final(self).order() == old(self).order(),
            !old(self).order().contains(id@) ==> final(self).order() == if old(self).order().len() < REMEMBERED {
                old(self).order().push(id@)
            } else {
                old(self).order().push(id@).drop_first()
            },
            forall|k: Seq<char>| k != id@ && final(self).memory().contains_key(k) ==> old(self).memory().contains_key(k) && final(self).memory()[k] == old(self).memory()[k],
            forall|k: Seq<char>| #[trigger] final(self).memory().contains_key(k) <==> final(self).order().contains(k),
    {
        proof {
            use_type_invariant(&*self);
        }
        let ghost old_entries = self.entries@;
        let mut entries: Vec<(String, T)> = Vec::new();
        std::mem::swap(&mut entries, &mut self.entries);
        let ghost k = id@;
        match find_key(&entries, id.as_str()) {
            Some(i) => {
                proof {
                    crate::table::lemma_table_update(entries@, i as int, (id, thread));
                }
                let ghost before = entries@;
                entries.set(i, (id, thread));
                proof {
                    assert(entries@.map_values(|e: (String, T)| e.0@) =~= before.map_values(|e: (String, T)| e.0@));
                    lemma_order_contains(before, i as int);
                }
            },
            None => {
                proof {
                    crate::table::lemma_table_push(entries@, (id, thread));
                    lemma_no_key_not_in_order(entries@, k);
                }
                let ghost before = entries@;
                entries.push((id, thread));
                assert(entries@.map_values(|e: (String, T)| e.0@) =~= before.map_values(|e: (String, T)| e.0@).push(k));
                if entries.len() > REMEMBERED {
                    let ghost full = entries@;
                    let _oldest = entries.remove(0);
                    proof {
                        lemma_drop_first_table(full);
                        assert(entries@ =~= full.drop_first());
                        assert(entries@.map_values(|e: (String, T)| e.0@) =~= full.map_values(|e: (String, T)| e.0@).drop_first());
                        assert(full.len() >= 2);
                        assert(full[full.len() - 1].0@ == k);
                        assert(entries@[entries@.len() - 1] == full[full.len() - 1]);
                        lemma_table_at(entries@, entries@.len() - 1);
                    }
                }
            },
        }
        proof {
            lemma_order_unique(entries@);
            lemma_memory_is_order(entries@);
        }
        self.entries = entries;
    }

    /// What was remembered of a closed thread.
    pub fn get(&self, id: &str) -> (r: Option<&T>)
        ensures
            match r {
                Some(t) => self.memory().contains_key(id@) && self.memory()[id@] == *t,
                None => !self.memory().contains_key(id@),
            },
    {
        proof {
            use_type_invariant(self);
        }
        match find_key(&self.entries, id) {
            Some(i) => {
                proof {
                    lemma_table_at(self.entries@, i as int);
                }
                Some(&self.entries[i].1)
            },
            None => None,
        }
    }

    /// The ids remembered, oldest first.
    pub fn ids(&self) -> (r: Vec<String>)
        ensures
            views(r@) == self.order(),
    {
        let mut out: Vec<String> = Vec::new();
        let mut i: usize = 0;
        while i < self.entries.len()
            invariant
                i <= self.entries@.len(),
                out@.len() == i,
                forall|q: int| 0 <= q < i ==> #[trigger] out@[q]@ == self.entries@[q].0@,
            decreases self.entries@.len() - i,
        {
            out.push(self.entries[i].0.clone());
            i = i + 1;
        }
        assert(views(out@) =~= self.order());
        out
    }
}

proof fn lemma_order_contains<T>(s: Seq<(String, T)>, i: int)
    requires
        0 <= i < s.len(),
    ensures
        s.map_values(|e: (String, T)| e.0@).contains(s[i].0@),
{
    assert(s.map_values(|e: (String, T)| e.0@)[i] == s[i].0@);
}

proof fn lemma_no_key_not_in_order<T>(s: Seq<(String, T)>, k: Seq<char>)
    requires
        !holds_key(s, k),
    ensures
        !s.map_values(|e: (String, T)| e.0@).contains(k),
{
    let o = s.map_values(|e: (String, T)| e.0@);
    if o.contains(k) {
        let i = choose|i: int| 0 <= i < o.len() && #[trigger] o[i] == k;
        assert(s[i].0@ == k);
    }
}

proof fn lemma_order_unique<T>(s: Seq<(String, T)>)
    requires
        keys_unique(s),
    ensures
        s.map_values(|e: (String, T)| e.0@).no_duplicates(),
{
    let o = s.map_values(|e: (String, T)| e.0@);
    assert forall|i: int, j: int| 0 <= i < o.len() && 0 <= j < o.len() && i != j implies o[i] != o[j] by {
        if i < j {
            assert(s[i].0@ != s[j].0@);
        } else {
            assert(s[j].0@ != s[i].0@);
        }
    }
}

proof fn lemma_memory_is_order<T>(s: Seq<(String, T)>)
    ensures
        forall|k: Seq<char>| #[trigger] table_map(s).contains_key(k) <==> s.map_values(|e: (String, T)| e.0@).contains(k),
{
    let o = s.map_values(|e: (String, T)| e.0@);
    assert forall|k: Seq<char>| #[trigger] table_map(s).contains_key(k) <==> o.contains(k) by {
        if holds_key(s, k) {
            let i = choose|i: int| 0 <= i < s.len() && s[i].0@ == k;
            assert(o[i] == k);
        }
        if o.contains(k) {
            let i = choose|i: int| 0 <= i < o.len() && o[i] == k;
            assert(s[i].0@ == k);
        }
    }
}

proof fn lemma_drop_first_table<T>(s: Seq<(String, T)>)
    requires
        keys_unique(s),
        s.len() > 0,
    ensures
        keys_unique(s.drop_first()),
        forall|k: Seq<char>| #[trigger] table_map(s.drop_first()).contains_key(k) ==> table_map(s).contains_key(k) && table_map(s.drop_first())[k] == table_map(s)[k],
{
    let t = s.drop_first();
    assert forall|i: int, j: int| 0 <= i < j < t.len() implies t[i].0@ != t[j].0@ by {
        assert(t[i] == s[i + 1] && t[j] == s[j + 1]);
    }
    assert forall|k: Seq<char>| #[trigger] table_map(t).contains_key(k) implies table_map(s).contains_key(k) && table_map(t)[k] == table_map(s)[k] by {
        let i = choose|i: int| 0 <= i < t.len() && t[i].0@ == k;
        lemma_table_at(t, i);
        assert(t[i] == s[i + 1]);
        lemma_table_at(s, i + 1);
    }
}

/// The threads the app released for being idle.
pub struct Suspensions {
    ids: Vec<String>,
}

impl View for Suspensions {
    type V = Set<Seq<char>>;

    closed spec fn view(&self) -> Set<Seq<char>> {
        views(self.ids@).to_set()
    }
}

fn position(v: &Vec<String>, x: &str) -> (r: Option<usize>)
    ensures
        match r {
            Some(i) => i < v@.len() && v@[i as int]@ == x@,
            None => !views(v@).contains(x@),
        },
{
    let mut i: usize = 0;
    while i < v.len()
        invariant
            i <= v@.len(),
            forall|q: int| 0 <= q < i ==> v@[q]@ != x@,
        decreases v@.len() - i,
    {
        if str_eq(v[i].as_str(), x) {
            return Some(i);
        }
        i = i + 1;
    }
    assert forall|q: int| 0 <= q < views(v@).len() implies views(v@)[q] != x@ by {
        assert(views(v@)[q] == v@[q]@);
    }
    None
}

impl Suspensions {
    #[verifier::type_invariant]
    spec fn well_formed(self) -> bool {
        views(self.ids@).no_duplicates()
    }

    /// No thread is released.
    pub fn new() -> (r: Suspensions)
        ensures
            r@ == Set::<Seq<char>>::empty(),
    {
        let r = Suspensions { ids: Vec::new() };
        assert(views(r.ids@) =~= Seq::<Seq<char>>::empty());
        assert(r@ =~= Set::<Seq<char>>::empty());
        r
    }

    /// Mark a thread as released.
    pub fn suspend(&mut self, id: &str)
        ensures
            final(self)@ == old(self)@.insert(id@),
    {
        proof {
            use_type_invariant(&*self);
        }
        match position(&self.ids, id) {
            Some(i) => {
                proof {
                    assert(views(self.ids@)[i as int] == id@);
                    assert(old(self)@.insert(id@) =~= old(self)@);
                }
            },
            None => {
                let ghost before = views(self.ids@);
                let mut ids: Vec<String> = Vec::new();
                std::mem::swap(&mut ids, &mut self.ids);
                ids.push(id.to_owned());
                proof {
                    assert(views(ids@) =~= before.push(id@));
                    before.lemma_push_to_set_commute(id@);
                    let after = views(ids@);
                    assert forall|i: int, j: int| 0 <= i < after.len() && 0 <= j < after.len() && i != j implies after[i] != after[j] by {
                        if i < before.len() && j < before.len() {
                        } else if i < before.len() {
                            assert(before.contains(after[i]));
                        } else {
                            assert(before.contains(after[j]));
                        }
                    }
                }
                self.ids = ids;
            },
        }
    }

    /// Whether a thread is marked as released.
    pub fn is_suspended(&self, id: &str) -> (r: bool)
        ensures
            r == self@.contains(id@),
    {
        match position(&self.ids, id) {
            Some(i) => {
                assert(views(self.ids@)[i as int] == id@);
                true
            },
            None => false,
        }
    }

    /// A thread that is live again, or that left the registry, is not released.
    pub fn clear(&mut self, id: &str)
        ensures
            final(self)@ == old(self)@.remove(id@),
    {
        proof {
            use_type_invariant(&*self);
        }
        match position(&self.ids, id) {
            Some(i) => {
                let ghost before = views(self.ids@);
                let mut ids: Vec<String> = Vec::new();
                std::mem::swap(&mut ids, &mut self.ids);
                ids.remove(i);
                proof {
                    assert(before[i as int] == id@);
                    let after = views(ids@);
                    assert(after =~= before.remove(i as int));
                    assert forall|x: Seq<char>| after.to_set().contains(x) <==> before.to_set().remove(id@).contains(x) by {
                        if after.contains(x) {
                            let q = choose|q: int| 0 <= q < after.len() && after[q] == x;
                            if q < i {
                                assert(before[q] == x);
                                assert(q != i);
                            } else {
                                assert(before[q + 1] == x);
                            }
                        }
                        if before.contains(x) && x != id@ {
                            let q = choose|q: int| 0 <= q < before.len() && before[q] == x;
                            if q < i {
                                assert(after[q] == x);
                            } else if q > i {
                                assert(after[q - 1] == x);
                            }
                        }
                    }
                    assert(after.to_set() =~= before.to_set().remove(id@));
                    assert forall|a: int, b: int| 0 <= a < after.len() && 0 <= b < after.len() && a != b implies after[a] != after[b] by {
                        let a2 = if a < i { a } else { a + 1 };
                        let b2 = if b < i { b } else { b + 1 };
                        assert(after[a] == before[a2] && after[b] == before[b2]);
                    }
                }
                self.ids = ids;
            },
            None => {
                assert(old(self)@.remove(id@) =~= old(self)@);
            },
        }
    }
}

impl Keyed for ThreadSnapshot {
    open spec fn key_of(v: ThreadSnapshot) -> Seq<char> {
        v.id@
    }

    fn key(&self) -> (r: &str) {
        self.id.as_str()
    }
}

impl View for ThreadSnapshot {
    type V = ThreadSnapshot;

    open spec fn view(&self) -> ThreadSnapshot {
        *self
    }
}

/// The sidebar's rows in a stable order: by id, taken from the rows themselves, so the
/// order and the rows never disagree about which session a row is.
pub fn sorted_rows(rows: Vec<ThreadSnapshot>) -> (r: Vec<ThreadSnapshot>)
    ensures
        sorted_by_key::<ThreadSnapshot>(views(r@)),
        views(r@).to_multiset() == views(rows@).to_multiset(),
        r@.len() == rows@.len(),
{
    sort_by_key(rows)
}

} // verus!
