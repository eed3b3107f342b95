use omp_desktop::dto::ModelOption;
use omp_desktop::json::{JsonNumber, JsonValue};
use omp_desktop::models::{
    context_window, efforts, option, parse, refusal_of, string, CachedCatalogue, Catalogue, CACHE_FILE,
};

fn value(raw: &serde_json::Value) -> JsonValue {
    match raw {
        serde_json::Value::Null => JsonValue::Null,
        serde_json::Value::Bool(b) => JsonValue::Bool(*b),
        serde_json::Value::Number(n) => JsonValue::Number(JsonNumber {
            as_u64: n.as_u64(),
            as_i64: n.as_i64(),
            whole: n.as_f64().filter(|f| f.is_finite() && *f >= 0.0).map(|f| f as u64),
        }),
        serde_json::Value::String(s) => JsonValue::Text(s.clone()),
        serde_json::Value::Array(items) => JsonValue::List(items.iter().map(value).collect()),
        serde_json::Value::Object(fields) => {
            JsonValue::Object(fields.iter().map(|(k, v)| (k.clone(), value(v))).collect())
        }
    }
}

fn json(text: &str) -> JsonValue {
    value(&serde_json::from_str(text).expect("a JSON fixture"))
}

fn measured_row() -> JsonValue {
    json(
        r#"{
            "contextWindow": 1000000,
            "id": "~anthropic/fable-latest",
            "name": "Fable Latest",
            "provider": "openrouter",
            "reasoning": true,
            "thinking": {
                "defaultLevel": "high",
                "efforts": ["low", "medium", "high", "xhigh", "max"],
                "mode": "effort",
                "requiresEffort": true
            }
        }"#,
    )
}

fn row(provider: &str, id: &str) -> ModelOption {
    ModelOption {
        provider: provider.to_string(),
        id: id.to_string(),
        name: id.to_string(),
        context_window: None,
        reasoning: false,
        default_effort: None,
        efforts: Vec::new(),
    }
}

#[test]
fn a_measured_row_decodes_into_the_picker_row() {
    let option = option(&measured_row()).expect("the row is selectable");

    assert_eq!(option.provider, "openrouter");
    assert_eq!(option.id, "~anthropic/fable-latest");
    assert_eq!(option.name, "Fable Latest");
    assert_eq!(option.context_window, Some(1_000_000));
    assert!(option.reasoning);
    assert_eq!(option.default_effort.as_deref(), Some("high"));
    assert_eq!(option.efforts, ["low", "medium", "high", "xhigh", "max"]);
}

#[test]
fn absent_or_unusable_fields_do_not_invent_values() {
    let decoded = option(&json(r#"{"id": "local/one", "provider": "llama.cpp"}"#))
        .expect("a row without thinking is still selectable");
    assert_eq!(decoded.context_window, None);
    assert_eq!(decoded.default_effort, None);
    assert!(decoded.efforts.is_empty());
    assert!(!decoded.reasoning);
    assert_eq!(decoded.name, "local/one", "the name falls back to the id");

    let decoded = option(&json(
        r#"{"id": "local/two", "provider": "llama.cpp", "contextWindow": "128k", "name": ""}"#,
    ))
    .expect("a row is selectable");
    assert_eq!(decoded.context_window, None);
    assert_eq!(decoded.name, "local/two", "an empty name falls back to the id");
}

#[test]
fn only_string_efforts_survive_and_rows_without_identity_are_dropped() {
    let options = parse(&json(
        r#"{"data": {"models": [
            {"id": "a/1", "provider": "p", "thinking": {"efforts": ["low", 7, "high", null]}},
            {"id": "a/2"},
            {"provider": "p"},
            {"id": "", "provider": "p"}
        ]}}"#,
    ))
    .expect("the payload is the documented shape");

    assert_eq!(options.len(), 1, "got {options:?}");
    assert_eq!(options[0].efforts, ["low", "high"]);
}

#[test]
fn a_payload_that_is_not_the_documented_shape_is_refused() {
    let refused = parse(&json(r#"{"data": {}}"#)).expect_err("no models array");
    assert!(refused.contains("shape"), "got {refused}");
}

#[test]
fn array_thinking_and_implicit_reasoning_efforts_decode() {
    let decoded = option(&json(
        r#"{"id": "qwen-custom", "provider": "llama.cpp", "reasoning": true,
            "thinking": ["low", "medium", "high", "max"]}"#,
    ))
    .expect("selectable");
    assert!(decoded.reasoning);
    assert_eq!(decoded.efforts, ["low", "medium", "high", "max"]);

    let decoded_implicit =
        option(&json(r#"{"id": "local-reasoning", "provider": "llama.cpp", "reasoning": true}"#))
            .expect("selectable");
    assert!(decoded_implicit.reasoning);
    assert_eq!(decoded_implicit.efforts, ["low", "medium", "high", "max"]);
}

#[test]
fn a_window_given_as_a_float_is_read_whole() {
    assert_eq!(context_window(&json(r#"{"contextWindow": 128000}"#)), Some(128000));
    assert_eq!(context_window(&json(r#"{"contextWindow": 1e6}"#)), Some(1_000_000));
    assert_eq!(context_window(&json(r#"{"contextWindow": -5}"#)), None);
    assert_eq!(context_window(&json(r#"{}"#)), None);
    assert_eq!(string(&json(r#"{"id": ""}"#), "id"), None);
    assert_eq!(string(&json(r#"{"id": "x"}"#), "id").as_deref(), Some("x"));
    assert!(efforts(&json(r#"{"thinking": {"efforts": "low"}}"#), false).is_empty());
}

#[test]
fn a_refusal_is_the_engines_own_error() {
    assert_eq!(refusal_of(&json(r#"{"error": "no providers configured"}"#)), "no providers configured");
    assert_eq!(refusal_of(&json(r#"{}"#)), "the engine refused to list its models");
}

#[test]
fn the_catalogue_survives_a_restart_and_a_corrupt_file_does_not_crash_it() {
    let mut first = Catalogue::new(Some("/config/omp".to_string()));
    first.load(None);
    assert!(first.begin_refresh());
    first.land(Ok(vec![row("openrouter", "one")]), 1_700_000_000_000).expect("the fetch lands");
    let written = first.cached();

    let mut second = Catalogue::new(Some("/config/omp".to_string()));
    second.load(Some(written));
    let cached = second.snapshot();
    assert_eq!(cached.options.len(), 1);
    assert_eq!(cached.options[0].id, "one");
    assert_eq!(cached.fetched_at, Some(1_700_000_000_000));
    assert!(!cached.refreshing);

    let mut third = Catalogue::new(Some("/config/omp".to_string()));
    third.load(None);
    assert!(third.snapshot().options.is_empty(), "a corrupt cache reads as empty");
    assert_eq!(third.path(), Some(format!("/config/omp/{CACHE_FILE}")));
}

#[test]
fn a_failed_fetch_keeps_the_rows_and_still_announces() {
    let mut catalogue = Catalogue::new(Some("/config/omp".to_string()));
    catalogue.load(None);
    catalogue.begin_refresh();
    catalogue.land(Ok(vec![row("openrouter", "one")]), 10).expect("the first fetch lands");

    let refusal = "the engine refused to list its models".to_string();
    assert!(catalogue.begin_refresh());
    let error = catalogue.land(Err(refusal.clone()), 20).expect_err("the failure reaches whoever asked for it");
    assert_eq!(error, refusal);

    let announced = catalogue.snapshot();
    assert!(!announced.refreshing, "the spinner has to clear");
    assert_eq!(announced.options.len(), 1, "the rows from the last successful fetch stay");
    assert_eq!(announced.fetched_at, Some(10));
}

#[test]
fn a_second_refresh_does_not_start_a_second_fetch() {
    let mut catalogue = Catalogue::new(Some("/config/omp".to_string()));
    catalogue.load(None);
    assert!(catalogue.begin_refresh(), "the first refresh starts a fetch");
    assert!(catalogue.snapshot().refreshing, "a fetch in flight is what the picker's spinner reads");
    assert!(!catalogue.begin_refresh(), "the second refresh must not start a fetch of its own");

    catalogue.land(Ok(vec![row("openrouter", "one")]), 30).unwrap();
    let settled = catalogue.snapshot();
    assert!(!settled.refreshing, "the guard clears when a fetch lands");
    assert_eq!(settled.options[0].id, "one");
}

#[test]
fn a_catalogue_with_nowhere_to_live_ignores_a_cache() {
    let mut catalogue = Catalogue::new(None);
    catalogue.load(Some(CachedCatalogue {
        fetched_at: Some(5),
        options: vec![row("p", "x")],
    }));
    assert!(catalogue.is_loaded());
    assert!(catalogue.snapshot().options.is_empty());
    assert_eq!(catalogue.path(), None);
}
