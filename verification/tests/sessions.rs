use factory_droid::catalog::FactoryModel;
use factory_droid::clock::now_ms;
use factory_droid::collector::FactoryCollector;
use factory_droid::index::{
    current_tasks, live_status, subagent_name, IndexEntry, SessionStatus, Tag, LIVE_WINDOW_MS,
};
use factory_droid::json::{parse_json, Json};
use factory_droid::missions::FactoryMission;
use factory_droid::tokens::{LastCallUsage, SessionTokenUsage};
use std::path::PathBuf;

fn fields(v: Json) -> Vec<(String, Json)> {
    match v {
        Json::Object(entries) => entries,
        _ => Vec::new(),
    }
}

fn items(v: Json) -> Vec<Json> {
    match v {
        Json::Array(items) => items,
        _ => Vec::new(),
    }
}

fn tag_from(v: Json) -> Tag {
    let mut tag = Tag { name: String::new(), metadata: None };
    for (key, value) in fields(v) {
        match key.as_str() {
            "name" => tag.name = value.as_str().unwrap().to_string(),
            "metadata" => tag.metadata = Some(value),
            _ => {}
        }
    }
    tag
}

fn entry_from(v: Json) -> IndexEntry {
    let mut entry = entry("", 0, None);
    for (key, value) in fields(v) {
        match key.as_str() {
            "sessionId" => entry.session_id = value.as_str().unwrap().to_string(),
            "hostId" => entry.host_id = value.as_str().unwrap().to_string(),
            "mtime" => entry.mtime_ms = value.as_u64().unwrap(),
            "title" => entry.title = value.as_str().unwrap().to_string(),
            "cwd" => entry.cwd = value.as_str().unwrap().to_string(),
            "messagesCount" => entry.messages_count = value.as_u64().unwrap(),
            "callingSessionId" => {
                entry.calling_session_id = Some(value.as_str().unwrap().to_string())
            }
            "tags" => entry.tags = items(value).into_iter().map(tag_from).collect(),
            _ => {}
        }
    }
    entry
}

fn index_from(text: &str) -> Vec<IndexEntry> {
    for (key, value) in fields(parse_json(text).unwrap()) {
        if key == "entries" {
            return items(value).into_iter().map(entry_from).collect();
        }
    }
    Vec::new()
}

fn sample_index() -> Vec<IndexEntry> {
    let text = r#"{"version":2,"entries":[
      {"sessionId":"parent-1","hostId":"h1","mtime":<RECENT>,"title":"Orchestrator","cwd":"C:\\project","messagesCount":5},
      {"sessionId":"worker-1","hostId":"h1","mtime":<RECENT>,"title":"Worker: fix x","cwd":"C:\\project","messagesCount":2,"callingSessionId":"parent-1","tags":[{"name":"mission-worker"},{"name":"mission-session","metadata":{"role":"worker","missionId":"mis_1"}}]},
      {"sessionId":"old-1","hostId":"h1","mtime":1000,"title":"Stale","cwd":"C:\\old","messagesCount":1}
    ]}"#;
    let now = now_ms();
    let json = text.replace("<RECENT>", &format!("{}", now - 5000));
    index_from(&json)
}

fn collector() -> FactoryCollector {
    FactoryCollector::new(Some(PathBuf::from("/home/u/.factory")), true)
}

fn entry(id: &str, mtime_ms: u64, parent: Option<&str>) -> IndexEntry {
    IndexEntry {
        session_id: id.to_string(),
        host_id: String::new(),
        mtime_ms,
        title: String::new(),
        cwd: String::new(),
        messages_count: 0,
        calling_session_id: parent.map(|p| p.to_string()),
        tags: Vec::new(),
    }
}

fn usage(input: u64, output: u64, cache_read: u64, cache_create: u64) -> SessionTokenUsage {
    SessionTokenUsage { input, output, cache_read, cache_create }
}

fn model(id: &str, name: &str, limit: u64, is_default: bool) -> FactoryModel {
    FactoryModel {
        id: id.to_string(),
        model: name.to_string(),
        display_name: String::new(),
        provider: String::new(),
        base_url: String::new(),
        max_context_limit: limit,
        max_output_tokens: 0,
        no_image_support: false,
        index: 0,
        source: "droid",
        is_default,
    }
}

fn mission(id: &str, worker_model: &str) -> FactoryMission {
    FactoryMission {
        mission_id: id.to_string(),
        dir: String::new(),
        state: String::new(),
        title: String::new(),
        cwd: String::new(),
        created_at_ms: 0,
        updated_at_ms: 0,
        worker_model: worker_model.to_string(),
    }
}

fn mission_tag(metadata: &str) -> Tag {
    Tag { name: "mission-session".to_string(), metadata: Some(parse_json(metadata).unwrap()) }
}

fn named_tag(name: &str) -> Tag {
    Tag { name: name.to_string(), metadata: None }
}

#[test]
fn build_sessions_keeps_live_parents_and_attaches_workers() {
    let mut collector = collector();
    collector.cached_index = sample_index();
    let sessions = collector.build_sessions("~/.factory").unwrap();

    assert_eq!(sessions.len(), 1, "stale parent dropped");
    let s = &sessions[0];
    assert_eq!(s.agent_cli, "factory");
    assert_eq!(s.session_id, "parent-1");
    assert_eq!(s.project_name, "project");
    assert_eq!(s.subagents.len(), 1);
    assert_eq!(s.subagents[0].name, "Worker: fix x");
    assert_eq!(s.config_root, "~/.factory");
}

#[test]
fn build_sessions_keeps_parent_with_live_worker_but_stale_own_mtime() {
    let now = now_ms();
    let text = r#"{
      "entries": [
        {"sessionId":"parent-1","hostId":"h1","mtime":<OLD>,"title":"Orchestrator","cwd":"C:\\project","messagesCount":5},
        {"sessionId":"worker-1","hostId":"h1","mtime":<RECENT>,"title":"Worker: fix x","cwd":"C:\\project","messagesCount":2,"callingSessionId":"parent-1"},
        {"sessionId":"worker-stale","hostId":"h1","mtime":<OLD>,"title":"Worker: stale","cwd":"C:\\project","messagesCount":2,"callingSessionId":"parent-1"},
        {"sessionId":"solo-1","hostId":"h1","mtime":<OLD>,"title":"Solo stale","cwd":"C:\\old","messagesCount":1}
      ]
    }"#;
    let json = text
        .replace("<OLD>", &format!("{}", now - 20 * 60 * 1000))
        .replace("<RECENT>", &format!("{}", now - 5000));
    let mut collector = collector();
    collector.cached_index = index_from(&json);

    let sessions = collector.build_sessions("~/.factory").unwrap();
    assert_eq!(sessions.len(), 1, "only parent kept via live worker");
    let s = &sessions[0];
    assert_eq!(s.session_id, "parent-1");
    assert_eq!(s.subagents.len(), 1, "stale worker not attached");
    assert_eq!(s.subagents[0].name, "Worker: fix x");
}

#[test]
fn build_sessions_keeps_session_with_fresh_settings_file_but_stale_index_mtime() {
    let now = now_ms();
    let text = r#"{
      "entries": [
        {"sessionId":"solo-1","hostId":"h1","mtime":<STALE>,"title":"Solo chat","cwd":"C:\\project","messagesCount":5},
        {"sessionId":"dead-1","hostId":"h1","mtime":<STALE>,"title":"Old","cwd":"C:\\old","messagesCount":1}
      ]
    }"#;
    let json = text.replace("<STALE>", &format!("{}", now - 30 * 60 * 1000));
    let mut collector = collector();
    collector.cached_index = index_from(&json);
    // Only solo-1 has a fresh settings file; dead-1 has none.
    collector
        .cached_settings_mtimes
        .insert("solo-1".to_string(), now - 30 * 1000);

    let sessions = collector.build_sessions("~/.factory").unwrap();
    assert_eq!(sessions.len(), 1, "solo-1 kept by fresh settings file");
    assert_eq!(sessions[0].session_id, "solo-1");
    assert_eq!(sessions[0].status, SessionStatus::Executing);
}

#[test]
fn build_sessions_populates_token_usage_and_subagent_tokens() {
    let mut collector = collector();
    collector.cached_index = sample_index();
    collector
        .cached_tokens
        .insert("parent-1".to_string(), usage(1000, 100, 9000, 0));
    collector
        .cached_child_tokens
        .insert("worker-1".to_string(), usage(50, 5, 400, 0));

    let sessions = collector.build_sessions("~/.factory").unwrap();
    let s = &sessions[0];
    assert_eq!(s.total_input_tokens, 1000);
    assert_eq!(s.total_output_tokens, 100);
    assert_eq!(s.total_cache_read, 9000);
    assert_eq!(s.total_cache_create, 0);
    assert_eq!(s.total_tokens(), 10100);
    assert_eq!(s.subagents[0].tokens, 455);
}

#[test]
fn status_windows_map_age_to_thinking_executing_waiting() {
    assert_eq!(live_status(5_000), SessionStatus::Thinking);
    assert_eq!(live_status(60_000), SessionStatus::Executing);
    assert_eq!(live_status(5 * 60_000), SessionStatus::Waiting);
}

#[test]
fn status_windows_are_half_open() {
    assert_eq!(live_status(0), SessionStatus::Thinking);
    assert_eq!(live_status(14_999), SessionStatus::Thinking);
    assert_eq!(live_status(15_000), SessionStatus::Executing);
    assert_eq!(live_status(119_999), SessionStatus::Executing);
    assert_eq!(live_status(120_000), SessionStatus::Waiting);
    assert_eq!(live_status(u64::MAX), SessionStatus::Waiting);
}

#[test]
fn tasks_follow_tags_before_age() {
    let mut e = entry("s", 0, None);
    assert_eq!(current_tasks(&e, 119_999), vec!["executing"]);
    assert_eq!(current_tasks(&e, 120_000), vec!["waiting for input"]);
    e.tags.push(named_tag("exec"));
    assert_eq!(current_tasks(&e, 120_000), vec!["executing"]);
    e.tags.push(named_tag("mission-worker"));
    assert_eq!(current_tasks(&e, 0), vec!["mission worker"]);
    assert!(e.has_tag("exec"));
    assert!(!e.has_tag("exe"));
}

#[test]
fn worker_names_fall_back_and_are_cut() {
    let mut e = entry("w", 0, Some("p"));
    e.title = " \t\u{3000}".to_string();
    assert_eq!(subagent_name(&e), "worker");
    e.title = " nEW sESSION ".to_string();
    assert_eq!(subagent_name(&e), "worker");
    e.title = "  fix \u{e9}  ".to_string();
    assert_eq!(subagent_name(&e), "fix \u{e9}");
    e.title = format!("{}{}", "a".repeat(119), "\u{e9}b");
    assert_eq!(subagent_name(&e), "a".repeat(119));
    e.title = format!("{}b", "\u{e9}".repeat(60));
    assert_eq!(subagent_name(&e), "\u{e9}".repeat(60));
}

#[test]
fn mission_id_is_that_of_the_first_tag_that_names_one() {
    let mut e = entry("s", 0, None);
    assert_eq!(e.mission_id(), None);
    e.tags.push(Tag {
        name: "other".to_string(),
        metadata: Some(parse_json(r#"{"missionId":"mis_0"}"#).unwrap()),
    });
    e.tags.push(named_tag("mission-session"));
    e.tags.push(mission_tag(r#"{"missionId":""}"#));
    e.tags.push(mission_tag(r#"{"missionId":7}"#));
    assert_eq!(e.mission_id(), None);
    e.tags.push(mission_tag(r#"{"missionId":"mis_1"}"#));
    e.tags.push(mission_tag(r#"{"missionId":"mis_2"}"#));
    assert_eq!(e.mission_id(), Some("mis_1"));
}

#[test]
fn live_mtime_is_the_later_of_index_and_settings_file() {
    let mut c = collector();
    c.cached_settings_mtimes.insert("a".to_string(), 500);
    assert_eq!(c.live_mtime(&entry("a", 100, None)), 500);
    assert_eq!(c.live_mtime(&entry("a", 900, None)), 900);
    assert_eq!(c.live_mtime(&entry("b", 100, None)), 100);
}

#[test]
fn sessions_live_strictly_less_than_the_window() {
    let now: u64 = 10_000_000;
    let mut c = collector();
    c.cached_index = vec![
        entry("edge", now - LIVE_WINDOW_MS, None),
        entry("inside", now - LIVE_WINDOW_MS + 1, None),
        entry("ahead", now + 5_000, None),
    ];
    let sessions = c.build_sessions_at(now, "");
    let ids: Vec<&str> = sessions.iter().map(|s| s.session_id.as_str()).collect();
    assert_eq!(ids, vec!["ahead", "inside"]);
    assert_eq!(sessions[0].status, SessionStatus::Thinking);
    assert_eq!(sessions[1].status, SessionStatus::Waiting);
    assert_eq!(sessions[1].current_tasks, vec!["waiting for input"]);
}

#[test]
fn freshest_sessions_come_first_and_ties_keep_the_order_of_the_index() {
    let now: u64 = 1_000_000;
    let mut c = collector();
    c.cached_index = vec![
        entry("a", now - 300, None),
        entry("b", now - 100, None),
        entry("c", now - 300, None),
        entry("d", now - 900, None),
    ];
    c.cached_settings_mtimes.insert("d".to_string(), now - 50);
    let sessions = c.build_sessions_at(now, "");
    let ids: Vec<&str> = sessions.iter().map(|s| s.session_id.as_str()).collect();
    assert_eq!(ids, vec!["d", "b", "a", "c"]);
    assert_eq!(sessions[0].started_at, now - 50);
}

#[test]
fn a_live_worker_lends_its_age_but_not_its_time() {
    let now: u64 = 10_000_000;
    let mut c = collector();
    c.cached_index = vec![
        entry("p", now - 2 * LIVE_WINDOW_MS, None),
        entry("w", now - 130_000, Some("p")),
    ];
    let sessions = c.build_sessions_at(now, "");
    assert_eq!(sessions.len(), 1);
    assert_eq!(sessions[0].started_at, now - 2 * LIVE_WINDOW_MS);
    assert_eq!(sessions[0].status, SessionStatus::Waiting);
    assert_eq!(sessions[0].subagents[0].name, "worker");
    assert_eq!(sessions[0].subagents[0].status, "idle");
    assert_eq!(sessions[0].subagents[0].tokens, 0);
}

#[test]
fn fresh_workers_are_working() {
    let now: u64 = 10_000_000;
    let mut c = collector();
    c.cached_index = vec![entry("p", now, None), entry("w", now - 119_999, Some("p"))];
    let sessions = c.build_sessions_at(now, "");
    assert_eq!(sessions[0].subagents[0].status, "working");
    assert_eq!(sessions[0].status, SessionStatus::Thinking);
}

#[test]
fn workers_are_reported_with_their_parent_only() {
    let now: u64 = 10_000_000;
    let mut c = collector();
    c.cached_index = vec![entry("w", now, Some("gone")), entry("x", now, None)];
    let sessions = c.build_sessions_at(now, "");
    assert_eq!(sessions.len(), 1);
    assert_eq!(sessions[0].session_id, "x");
    assert!(sessions[0].subagents.is_empty());
}

#[test]
fn models_come_from_the_mission_or_the_default() {
    let now: u64 = 10_000_000;
    let mut c = collector();
    c.cached_models = vec![
        model("custom:a", "a", 1_000, false),
        model("custom:b", "b", 2_000, true),
        model("custom:c", "c", 4_000, true),
    ];
    c.cached_missions =
        vec![mission("mis_1", "custom:a"), mission("mis_1", "c"), mission("mis_2", "")];
    let mut in_mission = entry("m", now - 1, None);
    in_mission.tags.push(mission_tag(r#"{"missionId":"mis_1"}"#));
    let mut unnamed = entry("u", now - 2, None);
    unnamed.tags.push(mission_tag(r#"{"missionId":"mis_2"}"#));
    c.cached_index = vec![in_mission, unnamed, entry("plain", now - 3, None)];
    let sessions = c.build_sessions_at(now, "");
    assert_eq!(sessions[0].model, "c");
    assert_eq!(sessions[0].context_window, 4_000);
    assert_eq!(sessions[1].model, "b");
    assert_eq!(sessions[1].context_window, 2_000);
    assert_eq!(sessions[2].model, "b");
}

#[test]
fn worker_models_may_be_given_by_id_and_may_be_unknown() {
    let now: u64 = 10_000_000;
    let mut c = collector();
    c.cached_models = vec![model("custom:a", "a", 1_000, false)];
    c.cached_missions = vec![mission("mis_1", "custom:a"), mission("mis_2", "other")];
    let mut known = entry("k", now, None);
    known.tags.push(mission_tag(r#"{"missionId":"mis_1"}"#));
    let mut unknown = entry("u", now - 1, None);
    unknown.tags.push(mission_tag(r#"{"missionId":"mis_2"}"#));
    c.cached_index = vec![known, unknown, entry("d", now - 2, None)];
    let sessions = c.build_sessions_at(now, "");
    assert_eq!(sessions[0].model, "custom:a");
    assert_eq!(sessions[0].context_window, 1_000);
    assert_eq!(sessions[1].model, "other");
    assert_eq!(sessions[1].context_window, 0);
    assert_eq!(sessions[2].model, "");
    assert_eq!(sessions[2].context_window, 0);
}

#[test]
fn context_and_turns_of_a_session() {
    let now: u64 = 10_000_000;
    let mut c = collector();
    let mut e = entry("s", now, None);
    e.title = "Title".to_string();
    e.cwd = "/home/u/proj/".to_string();
    e.messages_count = 0x1_0000_0003;
    c.cached_index = vec![e, entry("t", now - 1, None)];
    c.cached_last_call_usage
        .insert("s".to_string(), LastCallUsage { input: 30, cache_read: 12 });
    c.cached_last_call_usage
        .insert("t".to_string(), LastCallUsage { input: u64::MAX, cache_read: 1 });
    let sessions = c.build_sessions_at(now, "~/.factory");
    assert_eq!(sessions[0].context_used, 42);
    assert_eq!(sessions[0].turn_count, 3);
    assert_eq!(sessions[0].initial_prompt, "Title");
    assert_eq!(sessions[0].cwd, "/home/u/proj/");
    assert_eq!(sessions[0].project_name, "proj");
    assert_eq!(sessions[0].total_tokens(), 0);
    assert_eq!(sessions[0].pid, 0);
    assert_eq!(sessions[1].context_used, u64::MAX);
    assert_eq!(sessions[1].project_name, "?");
}

#[test]
fn uncountable_workers_stop_the_report_while_they_are_live() {
    let now = now_ms();
    let mut c = collector();
    c.cached_index = vec![entry("p", now, None), entry("w", now, Some("p"))];
    c.cached_child_tokens
        .insert("w".to_string(), usage(u64::MAX, 1, 0, 0));
    assert!(!c.can_count_workers(now));
    assert!(c.can_count_workers(now + LIVE_WINDOW_MS));
    assert!(c.build_sessions("").is_none());

    c.cached_index[1].mtime_ms = 0;
    assert!(c.can_count_workers(now));
    assert_eq!(c.build_sessions("").unwrap().len(), 1);

    c.cached_index[1].mtime_ms = now;
    c.cached_child_tokens
        .insert("w".to_string(), usage(u64::MAX - 1, 1, 0, 0));
    assert!(c.can_count_workers(now));
    assert_eq!(c.build_sessions_at(now, "")[0].subagents[0].tokens, u64::MAX);
}

#[test]
fn settings_are_wanted_of_live_families() {
    let now: u64 = 10_000_000;
    let old = now - LIVE_WINDOW_MS;
    let mut c = collector();
    c.cached_index = vec![
        entry("live", now, None),
        entry("w-of-live", old, Some("live")),
        entry("stale-parent", old, None),
        entry("live-worker", now, Some("stale-parent")),
        entry("sibling", old, Some("stale-parent")),
        entry("stale", old, None),
        entry("w-of-stale", old, Some("stale")),
    ];
    let wanted = c.settings_wanted_ids_at(now);
    assert!(wanted.contains("live"));
    assert!(wanted.contains("w-of-live"));
    assert!(wanted.contains("live-worker"));
    assert!(wanted.contains("stale-parent"));
    assert!(wanted.contains("sibling"));
    assert!(!wanted.contains("stale"));
    assert!(!wanted.contains("w-of-stale"));
    assert_eq!(wanted.len(), 5);
    assert_eq!(c.settings_wanted_ids_at(now + LIVE_WINDOW_MS).len(), 0);
}

#[test]
fn settings_are_wanted_in_any_order_of_the_index() {
    let now: u64 = 10_000_000;
    let old = now - LIVE_WINDOW_MS;
    let entries = || vec![
        entry("early", old, Some("p")),
        entry("w", now, Some("p")),
        entry("late", old, Some("p")),
        entry("of-early", old, Some("early")),
    ];
    let mut c = collector();
    for turn in 0..4 {
        let mut index = entries();
        index.rotate_left(turn);
        c.cached_index = index;
        let wanted = c.settings_wanted_ids_at(now);
        assert!(wanted.contains("w"));
        assert!(wanted.contains("p"));
        assert!(wanted.contains("late"));
        assert!(wanted.contains("early"));
        assert_eq!(wanted.len(), 4, "a worker of a stale worker is not wanted");
    }
}

#[test]
fn parents_of_workers_that_live_by_a_worker_are_wanted() {
    let now: u64 = 10_000_000;
    let old = now - LIVE_WINDOW_MS;
    let mut c = collector();
    for turn in 0..4 {
        c.cached_index = vec![
            entry("w", now, Some("m")),
            entry("m", old, Some("g")),
            entry("g", old, None),
            entry("other", old, None),
        ];
        c.cached_index.rotate_left(turn);
        let wanted = c.settings_wanted_ids_at(now);
        assert!(wanted.contains("w"));
        assert!(wanted.contains("m"));
        assert!(wanted.contains("g"));
        assert_eq!(wanted.len(), 3);
    }
}

#[test]
fn sessions_reported_later_were_wanted_before() {
    let now: u64 = 10_000_000;
    let mut c = collector();
    c.cached_index = vec![
        entry("a", now, None),
        entry("b", now - LIVE_WINDOW_MS + 1, None),
        entry("p", 0, None),
        entry("w", now, Some("p")),
    ];
    let wanted = c.settings_wanted_ids_at(now);
    assert_eq!(wanted.len(), 4);
    let later = c.build_sessions_at(now + 1_000, "");
    assert_eq!(later.len(), 2);
    assert!(later.iter().all(|s| wanted.contains(&s.session_id)));
}

#[test]
fn settings_wanted_now_follow_the_clock() {
    let mut c = collector();
    c.cached_index = vec![entry("live", now_ms(), None), entry("stale", 1_000, None)];
    let wanted = c.settings_wanted_ids();
    assert!(wanted.contains("live"));
    assert!(!wanted.contains("stale"));
}

#[test]
fn processes_make_no_difference_to_the_report() {
    let now: u64 = 10_000_000;
    let mut c = collector();
    c.cached_index = vec![entry("s", now, None)];
    let without = c.build_sessions_at(now, "");
    c.last_droid_pids = vec![7];
    let with = c.build_sessions_at(now, "");
    assert_eq!(without.len(), 1);
    assert_eq!(format!("{without:?}"), format!("{with:?}"));
}
