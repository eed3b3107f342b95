//! The models the user starred, in the order they starred them.
//!
//! App-owned: the engine has no favourite concept, so this store and the picker's star are
//! the whole feature. A key is `"provider/id"` — the pair the engine's `set_model` takes —
//! kept as text, so that it survives a catalogue that no longer offers the row.
//!
//! Storage is a JSON array under the app's config directory, written whole on every change.
//! The store reads and writes nothing itself: the host reads the file the first time the
//! list is asked for and hands its text to [`Favourites::load`], and writes the bytes of
//! [`Favourites::encode`] before [`Favourites::set`] moves the list.
use vstd::prelude::*;

use crate::order::views;
use crate::text::{contains_whitespace, first_index, has_ws, join, join_path, split_once, str_eq, utf8_lossy};

verus! {

/// The store file, under the app's config directory.
pub const STORE_FILE: &'static str = "favourites.json";

/// The provider and the model id a key names: split at the first `/`.
///
/// `None` for anything the picker could not have produced: no `/`, an empty half, or any
/// whitespace. A model id may itself contain a slash, so only the provider must be free of
/// one.
pub open spec fn split_spec(key: Seq<char>) -> Option<(Seq<char>, Seq<char>)> {
    match first_index(key, '/') {
        Some(k) => {
            let provider = key.subrange(0, k);
            let id = key.subrange(k + 1, key.len() as int);
            if provider.len() > 0 && id.len() > 0 && !has_ws(key) {
                Some((provider, id))
            } else {
                None
            }
        },
        None => None,
    }
}

/// Whether a key is a `provider/id` pair the store would keep.
pub open spec fn is_key(key: Seq<char>) -> bool {
    split_spec(key) is Some
}

/// The message a refused key is reported with.
pub open spec fn refusal(key: Seq<char>) -> Seq<char> {
    "`"@ + key + "` is not a provider/id model key, so it cannot be a favourite"@
}

/// The keys without repeats, each where it first appeared.
pub open spec fn first_occurrences(keys: Seq<Seq<char>>) -> Seq<Seq<char>>
    decreases keys.len(),
{
    if keys.len() == 0 {
        Seq::empty()
    } else {
        let rest = first_occurrences(keys.drop_last());
        if keys.drop_last().contains(keys.last()) {
            rest
        } else {
            rest.push(keys.last())
        }
    }
}

/// What a write of `keys` stores: refused, naming the first key that is not a
/// `provider/id` pair; otherwise the keys without repeats, the first position winning.
pub open spec fn normalised(keys: Seq<Seq<char>>) -> Result<Seq<Seq<char>>, Seq<char>> {
    if forall|i: int| 0 <= i < keys.len() ==> is_key(#[trigger] keys[i]) {
        Ok(first_occurrences(keys))
    } else {
        let i = choose|i: int| 0 <= i < keys.len() && !is_key(keys[i]) && forall|j: int| 0 <= j < i ==> is_key(#[trigger] keys[j]);
        Err(refusal(keys[i]))
    }
}

/// What the JSON text `text` holds when it is an array of strings, and `None` otherwise:
/// the result of `serde_json::from_str::<Vec<String>>`.
pub uninterp spec fn json_string_array(text: Seq<char>) -> Option<Seq<Seq<char>>>;

/// The bytes `serde_json::to_vec` writes for an array of strings.
pub uninterp spec fn json_bytes_of_strings(keys: Seq<Seq<char>>) -> Option<Seq<u8>>;

/// `serde_json::from_str::<Vec<String>>`: the array's strings, or `None` when the text is
/// not a JSON array of strings. What counts as one is serde_json's to say and is not
/// restated; the result depends on the text alone.
#[verifier::external_body]
fn parse_string_array(text: &str) -> (r: Option<Vec<String>>)
    ensures
        match r {
            Some(v) => json_string_array(text@) == Some(views(v@)),
            None => json_string_array(text@) is None,
        },
{
    serde_json::from_str::<Vec<String>>(text).ok()
}

/// `serde_json::to_vec` on a list of strings: the JSON array's bytes. The encoding is
/// serde_json's and is not restated. Two facts its source shows are: a list of strings always
/// serialises (each string is written escaped into a `Vec`, which cannot fail), and the bytes
/// are UTF-8 that `serde_json::from_str` reads back as the same strings in the same order.
#[verifier::external_body]
fn to_json_bytes(keys: &Vec<String>) -> (r: Option<Vec<u8>>)
    ensures
        r is Some,
        match r {
            Some(b) => json_bytes_of_strings(views(keys@)) == Some(b@),
            None => json_bytes_of_strings(views(keys@)) is None,
        },
        r matches Some(b) ==> json_string_array(utf8_lossy(b@)) == Some(views(keys@)),
{
    serde_json::to_vec(keys).ok()
}

/// Split a favourite key into the provider and the model id it names.
pub fn split(key: &str) -> (r: Option<(&str, &str)>)
    ensures
        match r {
            Some(parts) => split_spec(key@) == Some((parts.0@, parts.1@)),
            None => split_spec(key@) is None,
        },
{
    match split_once(key, '/') {
        Some((provider, id)) => {
            if provider.unicode_len() > 0 && id.unicode_len() > 0 && !contains_whitespace(key) {
                Some((provider, id))
            } else {
                None
            }
        },
        None => None,
    }
}

/// The starred keys, and whether the store file has been consulted yet.
pub struct Favourites {
    /// `None` when the platform gave no config directory: the list then lives for the
    /// process only.
    dir: Option<String>,
    loaded: bool,
    keys: Vec<String>,
}

/// A store as values.
pub struct FavouritesView {
    pub dir: Option<Seq<char>>,
    pub loaded: bool,
    pub keys: Seq<Seq<char>>,
}

impl View for Favourites {
    type V = FavouritesView;

    closed spec fn view(&self) -> FavouritesView {
        FavouritesView {
            dir: match self.dir {
                Some(d) => Some(d@),
                None => None,
            },
            loaded: self.loaded,
            keys: views(self.keys@),
        }
    }
}

/// The keys of a stored file that the store keeps: those it would accept, in order.
pub open spec fn kept_keys(keys: Seq<Seq<char>>) -> Seq<Seq<char>> {
    keys.filter(|k: Seq<char>| is_key(k))
}

/// Every key the store holds is one it would accept.
pub open spec fn all_keys(keys: Seq<Seq<char>>) -> bool {
    forall|i: int| 0 <= i < keys.len() ==> is_key(#[trigger] keys[i])
}

proof fn lemma_first_occurrences(keys: Seq<Seq<char>>)
    ensures
        first_occurrences(keys).no_duplicates(),
        forall|k: Seq<char>| first_occurrences(keys).contains(k) <==> keys.contains(k),
    decreases keys.len(),
{
    if keys.len() > 0 {
        let t = keys.drop_last();
        lemma_first_occurrences(t);
        let r = first_occurrences(t);
        assert forall|k: Seq<char>| first_occurrences(keys).contains(k) <==> keys.contains(k) by {
            if keys.contains(k) {
                let i = choose|i: int| 0 <= i < keys.len() && keys[i] == k;
                if i < keys.len() - 1 {
                    assert(t[i] == k);
                }
            }
            if t.contains(k) {
                let i = choose|i: int| 0 <= i < t.len() && t[i] == k;
                assert(keys[i] == k);
            }
            if !t.contains(keys.last()) {
                assert(r.push(keys.last())[r.len() as int] == keys.last());
                if r.push(keys.last()).contains(k) {
                    let i = choose|i: int| 0 <= i < r.len() + 1 && r.push(keys.last())[i] == k;
                    if i < r.len() {
                        assert(r[i] == k);
                    }
                }
                if r.contains(k) {
                    let i = choose|i: int| 0 <= i < r.len() && r[i] == k;
                    assert(r.push(keys.last())[i] == k);
                }
            }
        }
        if !t.contains(keys.last()) {
            let r2 = r.push(keys.last());
            assert forall|i: int, j: int| 0 <= i < r2.len() && 0 <= j < r2.len() && i != j implies r2[i] != r2[j] by {
                if i < r.len() && j < r.len() {
                } else if i < r.len() {
                    assert(r.contains(r2[i]));
                } else {
                    assert(r.contains(r2[j]));
                }
            }
        }
    }
}

impl Favourites {
    #[verifier::type_invariant]
    spec fn well_formed(self) -> bool {
        all_keys(views(self.keys@))
    }

    /// A store backed by `config_dir`, or by memory alone when there is none.
    pub fn new(config_dir: Option<String>) -> (r: Favourites)
        ensures
            r@.dir == match config_dir {
                Some(d) => Some(d@),
                None => None,
            },
            !r@.loaded,
            r@.keys.len() == 0,
    {
        let r = Favourites { dir: config_dir, loaded: false, keys: Vec::new() };
        assert(views(r.keys@) =~= Seq::<Seq<char>>::empty());
        r
    }

    /// The store file's path, or `None` when there is no config directory.
    pub fn path(&self) -> (r: Option<String>)
        ensures
            match r {
                Some(p) => self@.dir is Some && p@ == join_path(self@.dir->0, STORE_FILE@),
                None => self@.dir is None,
            },
    {
        match &self.dir {
            Some(d) => Some(join(d.as_str(), STORE_FILE)),
            None => None,
        }
    }

    /// Whether the store file has been consulted.
    pub fn is_loaded(&self) -> (r: bool)
        ensures
            r == self@.loaded,
    {
        self.loaded
    }

    /// The starred keys, in the user's order.
    ///
    /// Every one is a key [`Favourites::set`] would accept.
    pub fn list(&self) -> (r: Vec<String>)
        ensures
            views(r@) == self@.keys,
            all_keys(views(r@)),
    {
        proof {
            use_type_invariant(self);
        }
        let mut out: Vec<String> = Vec::new();
        let mut i: usize = 0;
        while i < self.keys.len()
            invariant
                i <= self.keys@.len(),
                out@.len() == i,
                forall|q: int| 0 <= q < i ==> out@[q]@ == self.keys@[q]@,
            decreases self.keys@.len() - i,
        {
            out.push(self.keys[i].clone());
            i = i + 1;
        }
        assert(views(out@) =~= views(self.keys@));
        out
    }

    /// Consult the store file, the first time anything asks for the list.
    ///
    /// `text` is the file's text, or `None` when there is no file or it could not be read.
    /// A file that is not a JSON array of strings reads as empty, and a key the store would
    /// refuse is dropped: nothing can come out of the store that a write would reject.
    pub fn load(&mut self, text: Option<&str>)
        ensures
            final(self)@ == load_spec(old(self)@, match text {
                Some(t) => Some(json_string_array(t@)),
                None => None,
            }),
    {
        let parsed = match text {
            Some(t) => Some(parse_string_array(t)),
            None => None,
        };
        self.load_parsed(parsed);
    }

    /// Consult the store file, given what it held: `None` when there is no file or it
    /// could not be read, `Some(None)` when it is not a JSON array of strings, and
    /// `Some(Some(keys))` when it is.
    pub fn load_parsed(&mut self, parsed: Option<Option<Vec<String>>>)
        ensures
            final(self)@ == load_spec(old(self)@, match parsed {
                Some(Some(v)) => Some(Some(views(v@))),
                Some(None) => Some(None),
                None => None,
            }),
    {
        proof {
            use_type_invariant(&*self);
        }
        if self.loaded {
            return;
        }
        self.loaded = true;
        if self.dir.is_none() {
            return;
        }
        match parsed {
            Some(Some(keys)) => {
                let ghost kv = views(keys@);
                let mut kept: Vec<String> = Vec::new();
                let mut i: usize = 0;
                while i < keys.len()
                    invariant
                        i <= keys@.len(),
                        kv == views(keys@),
                        views(kept@) == kept_keys(kv.take(i as int)),
                    decreases keys@.len() - i,
                {
                    assert(kv.take(i + 1) =~= kv.take(i as int).push(keys@[i as int]@));
                    proof {
                        lemma_kept_push(kv.take(i as int), keys@[i as int]@);
                    }
                    if split(keys[i].as_str()).is_some() {
                        let ghost before = kept@;
                        kept.push(keys[i].clone());
                        assert(views(kept@) =~= views(before).push(keys@[i as int]@));
                    }
                    i = i + 1;
                }
                assert(kv.take(keys@.len() as int) =~= kv);
                proof {
                    let kk = kept_keys(kv);
                    assert forall|q: int| 0 <= q < kk.len() implies is_key(#[trigger] kk[q]) by {
                        assert(kk.contains(kk[q]));
                    }
                }
                self.keys = kept;
            },
            _ => {},
        }
    }

    /// What a write of `keys` would store, or why it is refused: the first key that is not
    /// a `provider/id` pair, named in the message. Repeats are dropped rather than refused,
    /// the first position winning.
    pub fn normalise(keys: Vec<String>) -> (r: Result<Vec<String>, String>)
        ensures
            match r {
                Ok(v) => normalised(views(keys@)) == Ok::<Seq<Seq<char>>, Seq<char>>(views(v@)),
                Err(e) => normalised(views(keys@)) == Err::<Seq<Seq<char>>, Seq<char>>(e@),
            },
    {
        let ghost kv = views(keys@);
        let mut stored: Vec<String> = Vec::new();
        let mut i: usize = 0;
        assert(kv.take(0) =~= Seq::<Seq<char>>::empty());
        while i < keys.len()
            invariant
                i <= keys@.len(),
                kv == views(keys@),
                forall|j: int| 0 <= j < i ==> is_key(#[trigger] kv[j]),
                views(stored@) == first_occurrences(kv.take(i as int)),
            decreases keys@.len() - i,
        {
            let key = &keys[i];
            assert(kv[i as int] == key@);
            if split(key.as_str()).is_none() {
                let open = "`";
                let tail = "` is not a provider/id model key, so it cannot be a favourite";
                let mut message = open.to_owned();
                message.append(key.as_str());
                message.append(tail);
                proof {
                    assert(!(forall|j: int| 0 <= j < kv.len() ==> is_key(#[trigger] kv[j])));
                    let w = choose|w: int| 0 <= w < kv.len() && !is_key(kv[w]) && forall|j: int| 0 <= j < w ==> is_key(#[trigger] kv[j]);
                    if w < i {
                        assert(is_key(kv[w]));
                    } else if w > i {
                        assert(is_key(kv[i as int]));
                    }
                }
                return Err(message);
            }
            assert(kv.take(i + 1).drop_last() =~= kv.take(i as int));
            assert(kv.take(i + 1).last() == key@);
            let mut seen = false;
            let mut j: usize = 0;
            while j < i
                invariant
                    j <= i < keys@.len(),
                    kv == views(keys@),
                    key@ == kv[i as int],
                    seen == exists|q: int| 0 <= q < j && kv[q] == kv[i as int],
                decreases i - j,
            {
                assert(kv[j as int] == keys@[j as int]@);
                let ghost was = seen;
                if str_eq(keys[j].as_str(), key.as_str()) {
                    seen = true;
                }
                assert(seen == exists|q: int| 0 <= q < j + 1 && kv[q] == kv[i as int]) by {
                    if exists|q: int| 0 <= q < j + 1 && kv[q] == kv[i as int] {
                        let q = choose|q: int| 0 <= q < j + 1 && kv[q] == kv[i as int];
                        if q < j {
                            assert(was);
                        }
                    }
                    if was {
                        let q = choose|q: int| 0 <= q < j && kv[q] == kv[i as int];
                        assert(0 <= q < j + 1 && kv[q] == kv[i as int]);
                    }
                    if seen && !was {
                        assert(0 <= j < j + 1 && kv[j as int] == kv[i as int]);
                    }
                }
                j = j + 1;
            }
            proof {
                let t = kv.take(i as int);
                if seen {
                    let q = choose|q: int| 0 <= q < i && kv[q] == kv[i as int];
                    assert(t[q] == kv[i as int]);
                }
                if t.contains(kv[i as int]) {
                    let q = choose|q: int| 0 <= q < t.len() && t[q] == kv[i as int];
                    assert(kv[q] == kv[i as int]);
                }
            }
            if !seen {
                let ghost before = stored@;
                stored.push(key.clone());
                assert(views(stored@) =~= views(before).push(key@));
            }
            i = i + 1;
        }
        assert(kv.take(keys@.len() as int) =~= kv);
        Ok(stored)
    }

    /// Replace the list, and return what was stored.
    ///
    /// Refuses the whole write when any key is not a `provider/id` pair, and then nothing
    /// moves. Repeats are dropped, and the returned list is what the window should render.
    pub fn set(&mut self, keys: Vec<String>) -> (r: Result<Vec<String>, String>)
        ensures
            match r {
                Ok(v) => {
                    &&& normalised(views(keys@)) == Ok::<Seq<Seq<char>>, Seq<char>>(views(v@))
                    &&& final(self)@ == (FavouritesView { loaded: true, keys: views(v@), ..old(self)@ })
                },
                Err(e) => {
                    &&& normalised(views(keys@)) == Err::<Seq<Seq<char>>, Seq<char>>(e@)
                    &&& final(self)@ == old(self)@
                },
            },
    {
        proof {
            use_type_invariant(&*self);
        }
        match Favourites::normalise(keys) {
            Ok(stored) => {
                proof {
                    lemma_normalised_keys(views(keys@));
                }
                let mut copy: Vec<String> = Vec::new();
                let mut i: usize = 0;
                while i < stored.len()
                    invariant
                        i <= stored@.len(),
                        copy@.len() == i,
                        forall|q: int| 0 <= q < i ==> copy@[q]@ == stored@[q]@,
                    decreases stored@.len() - i,
                {
                    copy.push(stored[i].clone());
                    i = i + 1;
                }
                assert(views(copy@) =~= views(stored@));
                self.loaded = true;
                self.keys = copy;
                Ok(stored)
            },
            Err(e) => Err(e),
        }
    }

    /// The refusal of a write the file did not take.
    pub open spec fn not_saved_message(error: Seq<char>) -> Seq<char> {
        "the favourites were not saved: "@ + error
    }

    /// Replace the list once the host has tried to write `keys` to the store file, given how
    /// that went.
    ///
    /// A refused key refuses the whole write, as [`Favourites::set`] does. A write the file did
    /// not take leaves the store exactly as it was — its list, and whether the file has been
    /// consulted, so a later read still brings back what the file holds — and says the
    /// favourites were not saved.
    pub fn set_written(&mut self, keys: Vec<String>, written: Result<(), String>) -> (r: Result<Vec<String>, String>)
        ensures
            normalised(views(keys@)) is Err ==> (r matches Err(e) && e@ == normalised(views(keys@))->Err_0)
                && final(self)@ == old(self)@,
            normalised(views(keys@)) is Ok && written is Err ==> (r matches Err(e) && e@ == Self::not_saved_message(written->Err_0@))
                && final(self)@ == old(self)@,
            normalised(views(keys@)) is Ok && written is Ok ==> (r matches Ok(v) && views(v@) == normalised(views(keys@))->Ok_0)
                && final(self)@ == (FavouritesView { loaded: true, keys: normalised(views(keys@))->Ok_0, ..old(self)@ }),
    {
        match written {
            Ok(()) => self.set(keys),
            Err(error) => match Favourites::normalise(keys) {
                Err(e) => Err(e),
                Ok(_) => {
                    let mut m = "the favourites were not saved: ".to_owned();
                    m.append(error.as_str());
                    Err(m)
                },
            },
        }
    }

    /// The bytes of the store file for `keys`: a JSON array of the keys, in order, which
    /// reads back as the same keys.
    pub fn encode(keys: &Vec<String>) -> (r: Option<Vec<u8>>)
        ensures
            r is Some,
            match r {
                Some(b) => json_bytes_of_strings(views(keys@)) == Some(b@),
                None => json_bytes_of_strings(views(keys@)) is None,
            },
            r matches Some(b) ==> json_string_array(utf8_lossy(b@)) == Some(views(keys@)),
    {
        to_json_bytes(keys)
    }
}

proof fn lemma_kept_push(s: Seq<Seq<char>>, x: Seq<char>)
    ensures
        kept_keys(s.push(x)) == if is_key(x) {
            kept_keys(s).push(x)
        } else {
            kept_keys(s)
        },
{
    s.lemma_filter_push(x, |k: Seq<char>| is_key(k));
}

/// The store after it consulted its file, given what the file held.
pub open spec fn load_spec(f: FavouritesView, parsed: Option<Option<Seq<Seq<char>>>>) -> FavouritesView {
    if f.loaded {
        f
    } else if f.dir is None {
        FavouritesView { loaded: true, ..f }
    } else {
        match parsed {
            Some(Some(keys)) => FavouritesView { loaded: true, keys: kept_keys(keys), ..f },
            _ => FavouritesView { loaded: true, ..f },
        }
    }
}

proof fn lemma_normalised_keys(keys: Seq<Seq<char>>)
    requires
        normalised(keys) is Ok,
    ensures
        all_keys(normalised(keys)->Ok_0),
        normalised(keys)->Ok_0.no_duplicates(),
{
    lemma_first_occurrences(keys);
    let r = first_occurrences(keys);
    assert(forall|i: int| 0 <= i < keys.len() ==> is_key(#[trigger] keys[i])) by {
        if !(forall|i: int| 0 <= i < keys.len() ==> is_key(#[trigger] keys[i])) {
            assert(normalised(keys) is Err);
        }
    }
    assert forall|q: int| 0 <= q < r.len() implies is_key(#[trigger] r[q]) by {
        assert(r.contains(r[q]));
        assert(keys.contains(r[q]));
        let i = choose|i: int| 0 <= i < keys.len() && keys[i] == r[q];
        assert(is_key(keys[i]));
    }
}

/// Normalising is idempotent: what a write stored, written again, is stored unchanged.
pub proof fn law_normalised_is_a_fixed_point(keys: Seq<Seq<char>>)
    requires
        normalised(keys) is Ok,
    ensures
        normalised(normalised(keys)->Ok_0) == normalised(keys),
{
    lemma_normalised_keys(keys);
    let r = first_occurrences(keys);
    lemma_no_duplicates_fixed(r);
}

proof fn lemma_no_duplicates_fixed(keys: Seq<Seq<char>>)
    requires
        keys.no_duplicates(),
    ensures
        first_occurrences(keys) == keys,
    decreases keys.len(),
{
    if keys.len() > 0 {
        let t = keys.drop_last();
        assert forall|i: int, j: int| 0 <= i < t.len() && 0 <= j < t.len() && i != j implies t[i] != t[j] by {
            assert(t[i] == keys[i] && t[j] == keys[j]);
        }
        lemma_no_duplicates_fixed(t);
        assert(!t.contains(keys.last())) by {
            if t.contains(keys.last()) {
                let i = choose|i: int| 0 <= i < t.len() && t[i] == keys.last();
                assert(keys[i] == keys[keys.len() - 1]);
            }
        }
        assert(t.push(keys.last()) =~= keys);
    }
}

/// A write that is accepted stores every key it was given, each once, and nothing else:
/// what the store lists afterwards holds exactly the keys written, all of them acceptable.
pub proof fn law_a_write_stores_each_key_once(keys: Seq<Seq<char>>)
    requires
        normalised(keys) is Ok,
    ensures
        all_keys(normalised(keys)->Ok_0),
        normalised(keys)->Ok_0.no_duplicates(),
        forall|k: Seq<char>| #[trigger] normalised(keys)->Ok_0.contains(k) <==> keys.contains(k),
{
    lemma_normalised_keys(keys);
    lemma_first_occurrences(keys);
}

/// Whatever the file held, the store keeps only keys a write would accept: every key
/// `list` can return is a `provider/id` pair.
pub proof fn law_loaded_keys_are_acceptable(f: FavouritesView, parsed: Option<Option<Seq<Seq<char>>>>)
    requires
        all_keys(f.keys),
    ensures
        all_keys(load_spec(f, parsed).keys),
{
    match parsed {
        Some(Some(keys)) => {
            let kk = kept_keys(keys);
            assert forall|q: int| 0 <= q < kk.len() implies is_key(#[trigger] kk[q]) by {
                assert(kk.contains(kk[q]));
            }
        },
        _ => {},
    }
}

proof fn lemma_kept_all(keys: Seq<Seq<char>>)
    requires
        all_keys(keys),
    ensures
        kept_keys(keys) == keys,
    decreases keys.len(),
{
    if keys.len() > 0 {
        let init = keys.drop_last();
        assert forall|q: int| 0 <= q < init.len() implies is_key(#[trigger] init[q]) by {
            assert(init[q] == keys[q]);
        }
        lemma_kept_all(init);
        lemma_kept_push(init, keys.last());
        assert(is_key(keys[keys.len() - 1]));
        assert(init.push(keys.last()) =~= keys);
    }
}

/// The list survives a restart: the keys an accepted write stored, written as [`Favourites::encode`]
/// gives them and read back as text by a fresh store with a config directory, are listed again
/// exactly, in the stored order.
pub proof fn law_the_list_survives_a_restart(keys: Seq<Seq<char>>, dir: Seq<char>, file: Seq<u8>)
    requires
        normalised(keys) is Ok,
        json_string_array(utf8_lossy(file)) == Some(normalised(keys)->Ok_0),
    ensures
        load_spec(
            FavouritesView { dir: Some(dir), loaded: false, keys: Seq::empty() },
            Some(json_string_array(utf8_lossy(file))),
        ).keys == normalised(keys)->Ok_0,
{
    lemma_normalised_keys(keys);
    lemma_kept_all(normalised(keys)->Ok_0);
}

} // verus!
