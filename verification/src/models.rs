//! The model catalogue: the picker's rows, cached, and how an engine row becomes one.
//!
//! The engine's list is large and its first answer in a process can take seconds, so the
//! catalogue is fetched out of band, held, and persisted — which is what makes the next
//! launch open against a real list. A second refresh while one is in flight starts
//! nothing; a failed fetch keeps the rows already held. The host performs the fetch and
//! the file's reads and writes around these decisions.
use vstd::prelude::*;

use crate::dto::{opt_view, ModelCatalogue, ModelOption, OptionView};
use crate::json::{array_of, as_array, as_bool, as_str, bool_of, field, get, str_of, JsonValue};
use crate::order::views;
use crate::text::{join, join_path};

verus! {

/// How long the engine gets to answer the catalogue request, in seconds.
pub const FETCH_TIMEOUT_SECS: u64 = 60;

/// The cache file, under the app's config directory.
pub const CACHE_FILE: &'static str = "models.json";

/// What the cache file holds.
pub struct CachedCatalogue {
    pub fetched_at: Option<u64>,
    pub options: Vec<ModelOption>,
}

/// The catalogue, and whether a fetch is in flight.
pub struct Catalogue {
    /// `None` when the platform gave no config directory: the catalogue lives for the
    /// process only.
    dir: Option<String>,
    loaded: bool,
    options: Vec<ModelOption>,
    fetched_at: Option<u64>,
    refreshing: bool,
}

/// The catalogue as values.
pub struct CatalogueView {
    pub dir: Option<Seq<char>>,
    pub loaded: bool,
    pub options: Seq<OptionView>,
    pub fetched_at: Option<u64>,
    pub refreshing: bool,
}

impl View for Catalogue {
    type V = CatalogueView;

    closed spec fn view(&self) -> CatalogueView {
        CatalogueView {
            dir: opt_view(self.dir),
            loaded: self.loaded,
            options: self.options@.map_values(|o: ModelOption| o@),
            fetched_at: self.fetched_at,
            refreshing: self.refreshing,
        }
    }
}

/// The rows of a list, as values.
pub open spec fn option_views(options: Seq<ModelOption>) -> Seq<OptionView> {
    options.map_values(|o: ModelOption| o@)
}

fn copy_options(options: &Vec<ModelOption>) -> (r: Vec<ModelOption>)
    ensures
        option_views(r@) == option_views(options@),
{
    let mut out: Vec<ModelOption> = Vec::new();
    let mut i: usize = 0;
    while i < options.len()
        invariant
            i <= options@.len(),
            out@.len() == i,
            forall|k: int| 0 <= k < i ==> #[trigger] out@[k]@ == options@[k]@,
        decreases options@.len() - i,
    {
        out.push(options[i].duplicate());
        i = i + 1;
    }
    assert(option_views(out@) =~= option_views(options@));
    out
}

/// Where a landed catalogue fetch is announced.
pub trait CatalogueSink {
    /// The whole catalogue, after any fetch that landed.
    fn catalogue(&self, catalogue: ModelCatalogue);
}

impl Catalogue {
    /// A cache backed by `config_dir`, or by memory alone when there is none.
    pub fn new(config_dir: Option<String>) -> (r: Catalogue)
        ensures
            r@.dir == opt_view(config_dir),
            !r@.loaded,
            r@.options.len() == 0,
            r@.fetched_at is None,
            !r@.refreshing,
    {
        let r = Catalogue { dir: config_dir, loaded: false, options: Vec::new(), fetched_at: None, refreshing: false };
        assert(r@.options =~= Seq::<OptionView>::empty());
        r
    }

    /// The cache file's path, or `None` when there is no config directory.
    pub fn path(&self) -> (r: Option<String>)
        ensures
            match r {
                Some(p) => self@.dir is Some && p@ == join_path(self@.dir->0, CACHE_FILE@),
                None => self@.dir is None,
            },
    {
        match &self.dir {
            Some(d) => Some(join(d.as_str(), CACHE_FILE)),
            None => None,
        }
    }

    /// Whether the cache file has been consulted.
    pub fn is_loaded(&self) -> (r: bool)
        ensures
            r == self@.loaded,
    {
        self.loaded
    }

    /// Consult the cache file, the first time anything asks: `cached` is what it held, or
    /// `None` when it is missing, unreadable or not the shape the host writes — which leaves
    /// the picker with nothing cached rather than a crash on launch.
    pub fn load(&mut self, cached: Option<CachedCatalogue>)
        ensures
            final(self)@ == loaded_from(old(self)@, match cached {
                Some(c) => Some((c.fetched_at, option_views(c.options@))),
                None => None,
            }),
    {
        if self.loaded {
            return;
        }
        self.loaded = true;
        if self.dir.is_none() {
            return;
        }
        match cached {
            Some(c) => {
                self.options = c.options;
                self.fetched_at = c.fetched_at;
            },
            None => {},
        }
    }

    /// The catalogue as the picker reads it.
    pub fn snapshot(&self) -> (r: ModelCatalogue)
        ensures
            option_views(r.options@) == self@.options,
            r.fetched_at == self@.fetched_at,
            r.refreshing == self@.refreshing,
    {
        ModelCatalogue { options: copy_options(&self.options), fetched_at: self.fetched_at, refreshing: self.refreshing }
    }

    /// What the cache file should hold for the next launch.
    pub fn cached(&self) -> (r: CachedCatalogue)
        ensures
            option_views(r.options@) == self@.options,
            r.fetched_at == self@.fetched_at,
    {
        CachedCatalogue { fetched_at: self.fetched_at, options: copy_options(&self.options) }
    }

    /// Mark a fetch as started, unless one is in flight: `false` means this caller starts
    /// nothing, and learns the result from whichever fetch is running.
    pub fn begin_refresh(&mut self) -> (r: bool)
        ensures
            r == !old(self)@.refreshing,
            final(self)@ == begun(old(self)@),
    {
        if self.refreshing {
            return false;
        }
        self.refreshing = true;
        true
    }

    /// Land a fetch that ended at `at` (Unix milliseconds): its rows replace the cache, or
    /// — when it failed — the rows already held stay, and the error is the fetch's own.
    /// Either way the fetch is no longer in flight.
    pub fn land(&mut self, fetched: Result<Vec<ModelOption>, String>, at: u64) -> (r: Result<(), String>)
        ensures
            final(self)@ == landed(old(self)@, match fetched {
                Ok(options) => Some(option_views(options@)),
                Err(_) => None,
            }, at),
            match fetched {
                Ok(_) => r is Ok,
                Err(e) => r == Err::<(), String>(e),
            },
    {
        self.refreshing = false;
        match fetched {
            Ok(options) => {
                self.options = options;
                self.fetched_at = Some(at);
                Ok(())
            },
            Err(e) => Err(e),
        }
    }
}

/// The catalogue once the cache file has been consulted, given what it held (its stamp
/// and its rows): nothing changes when it was consulted already, and a catalogue with no
/// directory keeps nothing from a file.
pub open spec fn loaded_from(v: CatalogueView, cached: Option<(Option<u64>, Seq<OptionView>)>) -> CatalogueView {
    if v.loaded {
        v
    } else {
        match cached {
            Some((fetched_at, options)) => if v.dir is Some {
                CatalogueView { loaded: true, options, fetched_at, ..v }
            } else {
                CatalogueView { loaded: true, ..v }
            },
            None => CatalogueView { loaded: true, ..v },
        }
    }
}

/// The catalogue once a fetch is in flight.
pub open spec fn begun(v: CatalogueView) -> CatalogueView {
    CatalogueView { refreshing: true, ..v }
}

/// The catalogue once a fetch that ended at `at` landed: with its rows, or — when it
/// failed (`None`) — with the rows it held.
pub open spec fn landed(v: CatalogueView, fetched: Option<Seq<OptionView>>, at: u64) -> CatalogueView {
    match fetched {
        Some(options) => CatalogueView { refreshing: false, options, fetched_at: Some(at), ..v },
        None => CatalogueView { refreshing: false, ..v },
    }
}

/// A string field that is present and not empty.
pub open spec fn nonempty_string(raw: JsonValue, key: Seq<char>) -> Option<Seq<char>> {
    match str_of(field(raw, key)) {
        Some(s) => if s.len() == 0 {
            None
        } else {
            Some(s)
        },
        None => None,
    }
}

/// A string field that is present and not empty.
pub fn string(raw: &JsonValue, key: &str) -> (r: Option<String>)
    ensures
        opt_view(r) == nonempty_string(*raw, key@),
{
    match as_str(get(raw, key)) {
        Some(s) => if s.unicode_len() == 0 {
            None
        } else {
            Some(s.to_owned())
        },
        None => None,
    }
}

/// The `thinking` block, when it is an object.
pub open spec fn thinking_spec(row: JsonValue) -> Option<JsonValue> {
    match field(row, "thinking"@) {
        Some(JsonValue::Object(fs)) => Some(JsonValue::Object(fs)),
        _ => None,
    }
}

/// The model's `thinking` block, when structured as an object.
pub fn thinking_object(row: &JsonValue) -> (r: Option<&JsonValue>)
    ensures
        match r {
            Some(b) => thinking_spec(*row) == Some(*b),
            None => thinking_spec(*row) is None,
        },
{
    match get(row, "thinking") {
        Some(b) => match b {
            JsonValue::Object(_) => Some(b),
            _ => None,
        },
        None => None,
    }
}

/// The strings of an array, in order, skipping anything that is not a string.
pub open spec fn strings_of(items: Seq<JsonValue>) -> Seq<Seq<char>>
    decreases items.len(),
{
    if items.len() == 0 {
        Seq::empty()
    } else {
        let rest = strings_of(items.drop_last());
        match items.last() {
            JsonValue::Text(s) => rest.push(s@),
            _ => rest,
        }
    }
}

fn strings(items: &Vec<JsonValue>) -> (r: Vec<String>)
    ensures
        views(r@) == strings_of(items@),
{
    let mut out: Vec<String> = Vec::new();
    let mut i: usize = 0;
    assert(items@.take(0) =~= Seq::<JsonValue>::empty());
    assert(views(out@) =~= Seq::<Seq<char>>::empty());
    while i < items.len()
        invariant
            i <= items@.len(),
            views(out@) == strings_of(items@.take(i as int)),
        decreases items@.len() - i,
    {
        assert(items@.take(i + 1).drop_last() =~= items@.take(i as int));
        assert(items@.take(i + 1).last() == items@[i as int]);
        match &items[i] {
            JsonValue::Text(s) => {
                let ghost before = out@;
                out.push(s.clone());
                assert(views(out@) =~= views(before).push(s@));
            },
            _ => {},
        }
        i = i + 1;
    }
    assert(items@.take(items@.len() as int) =~= items@);
    out
}

/// The ladder a reasoning model gets when it names no efforts of its own.
pub open spec fn default_ladder() -> Seq<Seq<char>> {
    seq!["low"@, "medium"@, "high"@, "max"@]
}

/// A model's supported thinking efforts: the `thinking` array's strings; else the
/// `thinking` object's `efforts` (or, when it has none, `levels`) strings; else the
/// standard ladder for a reasoning model and nothing for any other. An empty list at any
/// step falls through to the next.
pub open spec fn efforts_spec(row: JsonValue, reasoning: bool) -> Seq<Seq<char>> {
    let direct = match array_of(field(row, "thinking"@)) {
        Some(items) => strings_of(items),
        None => Seq::empty(),
    };
    let nested = match thinking_spec(row) {
        Some(block) => {
            let list = match field(block, "efforts"@) {
                Some(v) => Some(v),
                None => field(block, "levels"@),
            };
            match array_of(list) {
                Some(items) => strings_of(items),
                None => Seq::empty(),
            }
        },
        None => Seq::empty(),
    };
    if direct.len() > 0 {
        direct
    } else if nested.len() > 0 {
        nested
    } else if reasoning {
        default_ladder()
    } else {
        Seq::empty()
    }
}

/// A model's supported thinking efforts, in either of the shapes the engine has used.
pub fn efforts(row: &JsonValue, reasoning: bool) -> (r: Vec<String>)
    ensures
        views(r@) == efforts_spec(*row, reasoning),
{
    match as_array(get(row, "thinking")) {
        Some(items) => {
            let list = strings(items);
            if list.len() > 0 {
                return list;
            }
        },
        None => {},
    }
    match thinking_object(row) {
        Some(block) => {
            let list = match get(block, "efforts") {
                Some(v) => Some(v),
                None => get(block, "levels"),
            };
            match as_array(list) {
                Some(items) => {
                    let found = strings(items);
                    if found.len() > 0 {
                        return found;
                    }
                },
                None => {},
            }
        },
        None => {},
    }
    if reasoning {
        let mut ladder: Vec<String> = Vec::new();
        ladder.push("low".to_owned());
        ladder.push("medium".to_owned());
        ladder.push("high".to_owned());
        ladder.push("max".to_owned());
        assert(views(ladder@) =~= default_ladder());
        ladder
    } else {
        let none: Vec<String> = Vec::new();
        assert(views(none@) =~= Seq::<Seq<char>>::empty());
        none
    }
}

/// `contextWindow`, when the engine gave a number that can be a window.
pub open spec fn context_window_spec(row: JsonValue) -> Option<u64> {
    match field(row, "contextWindow"@) {
        Some(JsonValue::Number(n)) => n.whole,
        _ => None,
    }
}

/// `contextWindow`, when the engine gave a number that can be a window: a missing or
/// non-numeric field is no window rather than a `0` shown as a fact.
pub fn context_window(row: &JsonValue) -> (r: Option<u64>)
    ensures
        r == context_window_spec(*row),
{
    match get(row, "contextWindow") {
        Some(JsonValue::Number(n)) => n.whole,
        _ => None,
    }
}

/// One engine row as the picker's row, or `None` when it has no id or no provider — a row
/// that cannot be selected is worse on screen than absent. The name falls back to the id.
pub open spec fn option_spec(row: JsonValue) -> Option<OptionView> {
    match nonempty_string(row, "id"@) {
        None => None,
        Some(id) => match nonempty_string(row, "provider"@) {
            None => None,
            Some(provider) => {
                let reasoning = match bool_of(field(row, "reasoning"@)) {
                    Some(b) => b,
                    None => false,
                };
                Some(
                    OptionView {
                        provider,
                        id,
                        name: match nonempty_string(row, "name"@) {
                            Some(n) => n,
                            None => id,
                        },
                        context_window: context_window_spec(row),
                        reasoning,
                        default_effort: match thinking_spec(row) {
                            Some(block) => nonempty_string(block, "defaultLevel"@),
                            None => None,
                        },
                        efforts: efforts_spec(row, reasoning),
                    },
                )
            },
        },
    }
}

/// One engine row, as the picker's row.
pub fn option(row: &JsonValue) -> (r: Option<ModelOption>)
    ensures
        match r {
            Some(o) => option_spec(*row) == Some(o@),
            None => option_spec(*row) is None,
        },
{
    let id = match string(row, "id") {
        Some(id) => id,
        None => return None,
    };
    let provider = match string(row, "provider") {
        Some(p) => p,
        None => return None,
    };
    let reasoning = match as_bool(get(row, "reasoning")) {
        Some(b) => b,
        None => false,
    };
    let efforts = efforts(row, reasoning);
    let default_effort = match thinking_object(row) {
        Some(block) => string(block, "defaultLevel"),
        None => None,
    };
    let name = match string(row, "name") {
        Some(n) => n,
        None => id.clone(),
    };
    Some(ModelOption { provider, name, id, context_window: context_window(row), reasoning, default_effort, efforts })
}

/// The rows the picker keeps of an engine list: every row that can be selected, in order.
pub open spec fn options_of(rows: Seq<JsonValue>) -> Seq<OptionView>
    decreases rows.len(),
{
    if rows.len() == 0 {
        Seq::empty()
    } else {
        let rest = options_of(rows.drop_last());
        match option_spec(rows.last()) {
            Some(o) => rest.push(o),
            None => rest,
        }
    }
}

/// The refusal of a response that is not the documented shape.
pub open spec fn shape_message() -> Seq<char> {
    "the model catalogue did not arrive in the shape the engine documents"@
}

/// The rows of a catalogue response: `{"data": {"models": [...]}}`, each row the picker
/// can select; refused when the response is not that shape.
pub open spec fn parse_spec(response: JsonValue) -> Result<Seq<OptionView>, Seq<char>> {
    let data = field(response, "data"@);
    let models = match data {
        Some(d) => field(d, "models"@),
        None => None,
    };
    match array_of(models) {
        Some(rows) => Ok(options_of(rows)),
        None => Err(shape_message()),
    }
}

/// Every selectable row of a catalogue response, as picker rows.
pub fn parse(response: &JsonValue) -> (r: Result<Vec<ModelOption>, String>)
    ensures
        match r {
            Ok(v) => parse_spec(*response) == Ok::<Seq<OptionView>, Seq<char>>(option_views(v@)),
            Err(e) => parse_spec(*response) == Err::<Seq<OptionView>, Seq<char>>(e@),
        },
{
    let models = match get(response, "data") {
        Some(d) => get(d, "models"),
        None => None,
    };
    let rows = match as_array(models) {
        Some(rows) => rows,
        None => return Err("the model catalogue did not arrive in the shape the engine documents".to_owned()),
    };
    let mut out: Vec<ModelOption> = Vec::new();
    let mut i: usize = 0;
    assert(rows@.take(0) =~= Seq::<JsonValue>::empty());
    assert(option_views(out@) =~= Seq::<OptionView>::empty());
    while i < rows.len()
        invariant
            i <= rows@.len(),
            option_views(out@) == options_of(rows@.take(i as int)),
        decreases rows@.len() - i,
    {
        assert(rows@.take(i + 1).drop_last() =~= rows@.take(i as int));
        assert(rows@.take(i + 1).last() == rows@[i as int]);
        match option(&rows[i]) {
            Some(o) => {
                let ghost before = out@;
                out.push(o);
                assert(option_views(out@) =~= option_views(before).push(out@[before.len() as int]@));
            },
            None => {},
        }
        i = i + 1;
    }
    assert(rows@.take(rows@.len() as int) =~= rows@);
    Ok(out)
}

/// The engine's refusal to list its models: its own `error`, or a sentence when it gave
/// none.
pub fn refusal_of(response: &JsonValue) -> (r: String)
    ensures
        r@ == match str_of(field(*response, "error"@)) {
            Some(e) => e,
            None => "the engine refused to list its models"@,
        },
{
    match as_str(get(response, "error")) {
        Some(e) => e.to_owned(),
        None => "the engine refused to list its models".to_owned(),
    }
}

/// A failed fetch never loses the rows held: a refresh that begins and then lands a
/// failure leaves the catalogue exactly as it was, no longer refreshing; and a second
/// refresh begun while one is in flight changes nothing.
pub proof fn law_a_failed_fetch_keeps_the_rows(v: CatalogueView, at: u64)
    requires
        !v.refreshing,
    ensures
        landed(begun(v), None, at) == v,
        begun(begun(v)) == begun(v),
{
}

/// A fetch that lands replaces the rows with exactly what it brought, and stamps them.
pub proof fn law_a_landed_fetch_replaces_the_rows(v: CatalogueView, rows: Seq<OptionView>, at: u64)
    ensures
        landed(begun(v), Some(rows), at).options == rows,
        landed(begun(v), Some(rows), at).fetched_at == Some(at),
        !landed(begun(v), Some(rows), at).refreshing,
{
}

/// The catalogue survives a restart: what one catalogue hands over for the cache file,
/// loaded by a fresh catalogue with a directory, gives back the same rows and the same stamp.
pub proof fn law_the_cache_survives_a_restart(v: CatalogueView, fresh: CatalogueView)
    requires
        fresh.dir is Some,
        !fresh.loaded,
    ensures
        loaded_from(fresh, Some((v.fetched_at, v.options))).options == v.options,
        loaded_from(fresh, Some((v.fetched_at, v.options))).fetched_at == v.fetched_at,
        loaded_from(fresh, Some((v.fetched_at, v.options))).loaded,
{
}

/// A second refresh does not start a second fetch: while one is in flight the catalogue
/// says it is refreshing, a refresh begun then changes nothing, and when the first fetch
/// lands its rows are the catalogue's and nothing is in flight any more.
pub proof fn law_a_second_refresh_waits_for_the_first(v: CatalogueView, rows: Seq<OptionView>, at: u64)
    requires
        !v.refreshing,
    ensures
        begun(v).refreshing,
        begun(begun(v)) == begun(v),
        landed(begun(begun(v)), Some(rows), at) == landed(begun(v), Some(rows), at),
        landed(begun(begun(v)), Some(rows), at).options == rows,
        !landed(begun(begun(v)), Some(rows), at).refreshing,
{
}

/// A cache file that cannot be read as one is no crash and no rows: a fresh catalogue given
/// nothing to load is loaded, and empty.
pub proof fn law_an_unreadable_cache_starts_empty(fresh: CatalogueView)
    requires
        !fresh.loaded,
        fresh.options.len() == 0,
        fresh.fetched_at is None,
    ensures
        loaded_from(fresh, None).loaded,
        loaded_from(fresh, None).options.len() == 0,
        loaded_from(fresh, None).fetched_at is None,
        !loaded_from(fresh, None).refreshing == !fresh.refreshing,
{
}

/// A `thinking` object that lists no `efforts` but lists `levels` offers exactly those
/// levels, in order, whatever else the row says — reasoning or not, the standard ladder
/// does not replace them.
pub proof fn law_levels_stand_in_for_efforts(
    row: JsonValue,
    reasoning: bool,
    fields: Vec<(String, JsonValue)>,
    levels: Seq<JsonValue>,
)
    requires
        field(row, "thinking"@) == Some(JsonValue::Object(fields)),
        field(JsonValue::Object(fields), "efforts"@) is None,
        array_of(field(JsonValue::Object(fields), "levels"@)) == Some(levels),
        strings_of(levels).len() > 0,
    ensures
        efforts_spec(row, reasoning) == strings_of(levels),
{
}

/// The strings of an array are its string items, in order: one for each string, and
/// nothing for anything else.
pub proof fn law_strings_are_the_string_items(items: Seq<JsonValue>)
    ensures
        strings_of(items).len() <= items.len(),
        (forall|i: int| 0 <= i < items.len() ==> #[trigger] items[i] is Text) ==> strings_of(items).len() == items.len()
            && forall|i: int| 0 <= i < items.len() ==> #[trigger] strings_of(items)[i] == items[i]->Text_0@,
    decreases items.len(),
{
    if items.len() > 0 {
        law_strings_are_the_string_items(items.drop_last());
        if forall|i: int| 0 <= i < items.len() ==> #[trigger] items[i] is Text {
            assert forall|i: int| 0 <= i < items.drop_last().len() implies #[trigger] items.drop_last()[i] is Text by {
                assert(items.drop_last()[i] == items[i]);
            }
            assert forall|i: int| 0 <= i < items.len() implies #[trigger] strings_of(items)[i] == items[i]->Text_0@ by {
                if i < items.len() - 1 {
                    assert(items.drop_last()[i] == items[i]);
                }
            }
        }
    }
}

} // verus!
