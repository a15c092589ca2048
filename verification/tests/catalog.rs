use factory_droid::catalog::{build_catalog, collect_default_ids, default_refs, read_models};
use factory_droid::ids::IdSet;
use factory_droid::json::parse_json;

#[test]
fn read_models_dedupes_by_id_and_marks_defaults() {
    let settings = r#"{
      "sessionDefaultSettings": { "model": "custom:a-1" },
      "customModels": [
        { "id": "custom:a-1", "model": "a", "index": 0, "baseUrl": "http://127.0.0.1:3000/v1", "provider": "generic" },
        { "id": "custom:b-2", "model": "b", "index": 1, "baseUrl": "http://127.0.0.1:3000/v1", "provider": "openai", "maxContextLimit": 1048576 }
      ]
    }"#;
    let vibemode = r#"{ "customModels": [
      { "id": "custom:a-1", "model": "a-vibe", "index": 0, "baseUrl": "https://r-api.vibemod.pro/v1" },
      { "id": "custom:c-3", "model": "c", "index": 1, "baseUrl": "https://r-api.vibemod.pro/v1" }
    ] }"#;

    let models = read_models(Some(settings), Some(vibemode));
    assert_eq!(models.len(), 3, "duplicate id custom:a-1 deduped");
    let a = models.iter().find(|m| m.id == "custom:a-1").unwrap();
    assert!(a.is_default);
    assert_eq!(a.source, "droid");
    let c = models.iter().find(|m| m.id == "custom:c-3").unwrap();
    assert_eq!(c.source, "vibemode");
    assert!(!c.is_default);
}

#[test]
fn models_carry_their_fields() {
    let text = r#"{"customModels":[{"id":"custom:m","model":"m","displayName":"M","provider":"p",
        "baseUrl":"http://x","maxContextLimit":5,"maxOutputTokens":6,"noImageSupport":true,"index":-7},
        {"id":"bare"}]}"#;
    let models = read_models(None, Some(text));
    assert_eq!(models.len(), 2);
    let m = &models[0];
    assert_eq!(m.id, "custom:m");
    assert_eq!(m.model, "m");
    assert_eq!(m.display_name, "M");
    assert_eq!(m.provider, "p");
    assert_eq!(m.base_url, "http://x");
    assert_eq!(m.max_context_limit, 5);
    assert_eq!(m.max_output_tokens, 6);
    assert!(m.no_image_support);
    assert_eq!(m.index, -7);
    assert_eq!(m.source, "vibemode");
    let bare = &models[1];
    assert_eq!(bare.model, "");
    assert_eq!(bare.index, 0);
    assert!(!bare.no_image_support);
}

#[test]
fn the_catalog_is_ordered_by_source_then_index_then_id() {
    let settings = r#"{"customModels":[{"id":"z","index":2},{"id":"b","index":1},{"id":"a","index":1},{"id":"y","index":-1}]}"#;
    let vibemode = r#"{"customModels":[{"id":"c","index":-5}]}"#;
    let models = read_models(Some(settings), Some(vibemode));
    let ids: Vec<&str> = models.iter().map(|m| m.id.as_str()).collect();
    assert_eq!(ids, vec!["y", "a", "b", "z", "c"]);
}

#[test]
fn models_without_an_id_are_dropped() {
    let text = r#"{"customModels":[{"model":"x"},{"id":""},{"id":3},7,{"id":"k"},{"id":"k","model":"later"}]}"#;
    let models = read_models(Some(text), None);
    assert_eq!(models.len(), 1);
    assert_eq!(models[0].id, "k");
    assert_eq!(models[0].model, "");
}

#[test]
fn unreadable_files_give_no_models() {
    assert!(read_models(None, None).is_empty());
    assert!(read_models(Some("{"), Some("[]")).is_empty());
    assert!(read_models(Some(r#"{"customModels":{}}"#), None).is_empty());
}

#[test]
fn defaults_may_stand_in_either_file() {
    let settings = r#"{"customModels":[{"id":"custom:a"},{"id":"plain"}],"missionOrchestratorModel":"plain"}"#;
    let vibemode = r#"{"general":{"x":{"sub":"custom:a"},"y":3}}"#;
    let models = read_models(Some(settings), Some(vibemode));
    assert!(models[0].is_default);
    assert_eq!(models[1].id, "plain");
    assert!(models[1].is_default);
    let models = read_models(Some(settings), None);
    assert!(!models[0].is_default);
    assert!(models[1].is_default);
}

#[test]
fn references_are_listed_in_order() {
    let v = parse_json(
        r#"{"general":{"b":{"k":"custom:3","l":"plain"},"a":{"m":"custom:2","n":4}},
            "missionOrchestratorModel":"orchestrator","sessionDefaultSettings":{"model":"custom:1"}}"#,
    )
    .unwrap();
    assert_eq!(
        default_refs(&v),
        vec!["custom:1", "orchestrator", "custom:2", "custom:3", "plain"]
    );
    let mut ids = IdSet::new();
    collect_default_ids(&v, &mut ids);
    assert_eq!(ids.len(), 5);
    assert!(ids.contains("orchestrator"));
    assert!(ids.contains("plain"));
    assert!(ids.contains("custom:1"));
    assert!(ids.contains("custom:2"));
    assert!(ids.contains("custom:3"));
}

#[test]
fn api_keys_make_no_difference() {
    let with = parse_json(r#"{"customModels":[{"id":"k","apiKey":"one","baseUrl":"http://x"}]}"#);
    let without = parse_json(r#"{"customModels":[{"id":"k","baseUrl":"http://x"}]}"#);
    let a = build_catalog(Some(&with.unwrap()), None);
    let b = build_catalog(Some(&without.unwrap()), None);
    assert_eq!(format!("{a:?}"), format!("{b:?}"));
    assert_eq!(a[0].base_url, "http://x");
}
