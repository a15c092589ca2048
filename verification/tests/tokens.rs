use factory_droid::ids::{IdMap, IdSet};
use factory_droid::json::{parse_json, Json};
use factory_droid::scan::SettingsWalk;
use factory_droid::tokens::{
    parse_last_call_usage, parse_token_usage, read_session_tokens, LastCallUsage,
    SessionTokenUsage, SettingsText, TokenTables,
};
use std::path::PathBuf;

/// The settings files among the given files of one directory, with their texts.
fn settings_in(files: &[(&str, &str)]) -> Vec<SettingsText> {
    let mut walk = SettingsWalk::new(PathBuf::from("sessions").join("-C-project-Miros"));
    let mut out = Vec::new();
    while let Some(dir) = walk.next_directory() {
        for (name, text) in files {
            if let Some((session_id, path)) = walk.visit(dir.join(name), false, false, Some(name)) {
                walk.record(session_id.clone(), path, 0);
                out.push(settings(&session_id, Some(text)));
            }
        }
    }
    out
}

fn settings(session_id: &str, text: Option<&str>) -> SettingsText {
    SettingsText { session_id: session_id.to_string(), text: text.map(|t| t.to_string()) }
}

fn ids(list: &[&str]) -> IdSet {
    let mut set = IdSet::new();
    for id in list {
        set.insert(id.to_string());
    }
    set
}

#[test]
fn read_session_tokens_parses_own_and_child_usage() {
    let files = settings_in(&[
        (
            "parent-1.settings.json",
            r#"{
              "model": "custom:x",
              "tokenUsage": {
                "inputTokens": 100,
                "outputTokens": 20,
                "cacheCreationTokens": 0,
                "cacheReadTokens": 300,
                "thinkingTokens": 5
              },
              "childInclusiveTokenUsageBySessionId": {
                "worker-1": {
                  "inputTokens": 10,
                  "outputTokens": 2,
                  "cacheCreationTokens": 0,
                  "cacheReadTokens": 30
                }
              }
            }"#,
        ),
        (
            "worker-1.settings.json",
            r#"{"tokenUsage": {"inputTokens": 10, "outputTokens": 2}}"#,
        ),
        // Non-JSON and non-settings files are ignored.
        ("notes.txt", "not json"),
        ("misc.settings.json.bak", "{"),
    ]);
    let (own, children, _last_call) = read_session_tokens(&files, &ids(&["parent-1", "worker-1"]));
    assert_eq!(own.get("parent-1").unwrap().total(), 420);
    assert_eq!(own.get("worker-1").unwrap().total(), 12);
    assert_eq!(children.get("worker-1").unwrap().total(), 42);
    assert!(!children.contains_key("parent-1"));
    assert_eq!(own.len(), 2, "notes.txt and .bak ignored");
}

#[test]
fn read_session_tokens_only_reads_wanted_ids() {
    let files = settings_in(&[
        (
            "wanted-1.settings.json",
            r#"{"tokenUsage": {"inputTokens": 100, "outputTokens": 20}}"#,
        ),
        (
            "skipped-1.settings.json",
            r#"{"tokenUsage": {"inputTokens": 999, "outputTokens": 999}}"#,
        ),
    ]);
    let (own, _children, _last_call) = read_session_tokens(&files, &ids(&["wanted-1"]));
    assert_eq!(own.len(), 1, "skipped-1 not read");
    assert_eq!(own.get("wanted-1").unwrap().total(), 120);
}

#[test]
fn parse_token_usage_tolerates_partial_objects() {
    let v = parse_json(r#"{"inputTokens": 7}"#).unwrap();
    let usage = parse_token_usage(Some(&v)).unwrap();
    assert_eq!(usage.input, 7);
    assert_eq!(usage.output, 0);
    assert!(parse_token_usage(Some(&Json::Null)).is_none());
    assert!(parse_token_usage(None).is_none());
}

#[test]
fn usages_are_read_field_by_field() {
    let v = parse_json(
        r#"{"inputTokens":1,"outputTokens":2,"cacheReadTokens":3,"cacheCreationTokens":4}"#,
    )
    .unwrap();
    let usage = parse_token_usage(Some(&v)).unwrap();
    assert_eq!(usage.input, 1);
    assert_eq!(usage.output, 2);
    assert_eq!(usage.cache_read, 3);
    assert_eq!(usage.cache_create, 4);
    assert_eq!(usage.total(), 10);
    let call = parse_last_call_usage(Some(&v)).unwrap();
    assert_eq!(call.input, 1);
    assert_eq!(call.cache_read, 3);
    let odd = parse_json(r#"{"inputTokens":-1,"outputTokens":"2","cacheReadTokens":1.5}"#).unwrap();
    assert_eq!(parse_token_usage(Some(&odd)).unwrap().total(), 0);
    assert!(parse_last_call_usage(Some(&Json::Array(Vec::new()))).is_none());
    assert!(parse_last_call_usage(None).is_none());
}

#[test]
fn last_calls_are_read_and_broken_files_skipped() {
    let files = vec![
        settings("a", Some(r#"{"lastCallTokenUsage":{"inputTokens":8,"cacheReadTokens":9}}"#)),
        settings("b", Some("{")),
        settings("c", None),
        settings("d", Some("[]")),
    ];
    let (own, children, last_call) = read_session_tokens(&files, &ids(&["a", "b", "c", "d"]));
    assert_eq!(own.len(), 0);
    assert_eq!(children.len(), 0);
    assert_eq!(last_call.len(), 1);
    assert_eq!(last_call.get("a").unwrap().input, 8);
    assert_eq!(last_call.get("a").unwrap().cache_read, 9);
}

#[test]
fn own_usage_does_not_depend_on_the_order_of_files() {
    let a = r#"{"tokenUsage":{"inputTokens":1},"childInclusiveTokenUsageBySessionId":{"w":{"inputTokens":5},"x":7}}"#;
    let b = r#"{"tokenUsage":{"inputTokens":2}}"#;
    let wanted = ids(&["a", "b"]);
    let one = read_session_tokens(&vec![settings("a", Some(a)), settings("b", Some(b))], &wanted);
    let two = read_session_tokens(&vec![settings("b", Some(b)), settings("a", Some(a))], &wanted);
    for (own, children, _) in [one, two] {
        assert_eq!(own.get("a").unwrap().input, 1);
        assert_eq!(own.get("b").unwrap().input, 2);
        assert_eq!(children.get("w").unwrap().input, 5);
        assert!(!children.contains_key("x"));
        assert_eq!(children.len(), 1);
    }
}

#[test]
fn of_several_records_of_a_worker_the_last_counts() {
    let first = r#"{"childInclusiveTokenUsageBySessionId":{"w":{"inputTokens":5}}}"#;
    let second = r#"{"childInclusiveTokenUsageBySessionId":{"w":{"inputTokens":6}}}"#;
    let files = vec![settings("a", Some(first)), settings("b", Some(second))];
    let (_, children, _) = read_session_tokens(&files, &ids(&["a", "b"]));
    assert_eq!(children.get("w").unwrap().input, 6);
    let (_, children, _) = read_session_tokens(&files, &ids(&["a"]));
    assert_eq!(children.get("w").unwrap().input, 5);
}

#[test]
fn tables_take_in_one_document_at_a_time() {
    let mut tables = TokenTables::new();
    tables.absorb("a", &parse_json(r#"{"tokenUsage":{"outputTokens":3}}"#).unwrap());
    tables.absorb("a", &parse_json(r#"{"lastCallTokenUsage":{}}"#).unwrap());
    assert_eq!(tables.own.get("a").unwrap().output, 3);
    assert_eq!(tables.last_call.get("a").unwrap().input, 0);
    assert_eq!(tables.children.len(), 0);
}

#[test]
fn totals_are_countable_up_to_the_limit() {
    let at_limit =
        SessionTokenUsage { input: u64::MAX - 3, output: 1, cache_read: 1, cache_create: 1 };
    assert!(at_limit.is_countable());
    assert_eq!(at_limit.total(), u64::MAX);
    let over = SessionTokenUsage { input: u64::MAX, output: u64::MAX, cache_read: 1, cache_create: 1 };
    assert!(!over.is_countable());
    assert_eq!(SessionTokenUsage::default().total(), 0);
    assert_eq!(LastCallUsage::default().input, 0);
    assert_eq!(LastCallUsage::default().cache_read, 0);
}

#[test]
fn maps_and_sets_of_ids() {
    let mut map: IdMap<u64> = IdMap::new();
    map.insert("a".to_string(), 1);
    map.insert("a".to_string(), 2);
    assert_eq!(map.get("a"), Some(&2));
    assert_eq!(map.get("b"), None);
    assert_eq!(map.len(), 1);
    let mut set = IdSet::new();
    assert!(set.insert("a".to_string()));
    assert!(!set.insert("a".to_string()));
    assert!(set.contains("a"));
    assert_eq!(set.len(), 1);
}
