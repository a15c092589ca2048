use factory_droid::clock::now_ms;
use factory_droid::collector::{FactoryCollector, ProcInfo, TickStep, WorkspaceScan};
use factory_droid::ids::IdSet;
use factory_droid::index::IndexEntry;
use factory_droid::missions::MissionFiles;
use factory_droid::scan::SettingsWalk;
use factory_droid::tokens::SettingsText;
use factory_droid::validate::{ConfigFiles, FileText};
use std::collections::HashMap;
use std::path::PathBuf;

fn process(pid: u32, command: &str) -> ProcInfo {
    ProcInfo { pid, ppid: 1, rss_kb: 1000, command: command.to_string() }
}

fn processes(commands: &[(u32, &str)]) -> HashMap<u32, ProcInfo> {
    commands.iter().map(|(pid, command)| (*pid, process(*pid, command))).collect()
}

fn root() -> PathBuf {
    PathBuf::from("/home/u/.factory")
}

#[test]
fn find_droid_pids_matches_by_command_token() {
    let mut info = HashMap::new();
    info.insert(10, process(10, "C:\\Program Files\\Factory Droid\\Droid.exe"));
    info.insert(20, process(20, "node server.js"));
    let pids = FactoryCollector::find_droid_pids(&info);
    assert_eq!(pids, vec![10]);
}

#[test]
fn either_token_in_any_case_is_enough() {
    let info = processes(&[(1, "/opt/DROID"), (2, "my-factory --x"), (3, "dr oid"), (4, "")]);
    let mut pids = FactoryCollector::find_droid_pids(&info);
    pids.sort();
    assert_eq!(pids, vec![1, 2]);
    assert!(FactoryCollector::find_droid_pids(&HashMap::new()).is_empty());
}

#[test]
fn collectors_are_active_where_there_is_a_directory() {
    let c = FactoryCollector::new(Some(root()), true);
    assert!(c.active);
    assert_eq!(c.discovered_config_dirs(), vec![root()]);
    assert!(!c.app_running());
    assert!(c.models().is_empty());
    assert!(c.missions().is_empty());
    assert!(c.issues().is_empty());
    for c in [FactoryCollector::new(Some(root()), false), FactoryCollector::new(None, true)] {
        assert!(!c.active);
        assert!(c.discovered_config_dirs().is_empty());
    }
}

#[test]
fn ticks_tell_what_to_do_next() {
    let info = processes(&[(7, "droid")]);
    let mut idle = FactoryCollector::new(None, false);
    assert_eq!(idle.start_tick(&info, true), TickStep::Idle);
    assert!(!idle.app_running());

    let mut c = FactoryCollector::new(Some(root()), true);
    assert_eq!(c.start_tick(&info, true), TickStep::Scan);
    assert!(c.app_running());
    assert_eq!(c.last_droid_pids, vec![7]);
    assert_eq!(c.start_tick(&HashMap::new(), false), TickStep::Report);
    assert!(!c.app_running());
}

#[test]
fn scans_and_tokens_are_remembered() {
    let now: u64 = 10_000_000;
    let scan = WorkspaceScan {
        index: vec![IndexEntry {
            session_id: "s".to_string(),
            host_id: String::new(),
            mtime_ms: 5,
            title: "T".to_string(),
            cwd: "/w/p".to_string(),
            messages_count: 1,
            calling_session_id: None,
            tags: Vec::new(),
        }],
        files: ConfigFiles {
            settings: FileText::Text(
                r#"{"customModels":[{"id":"custom:a","model":"a","baseUrl":"u","maxContextLimit":200}],
                    "missionOrchestratorModel":"custom:a"}"#
                    .to_string(),
            ),
            factory_settings: FileText::Unreadable("denied".to_string()),
            index: FileText::Text(r#"{"entries":[]}"#.to_string()),
            task_invocations: None,
            background_processes: None,
        },
        missions: vec![MissionFiles {
            key: b"m1".to_vec(),
            dir: "m1".to_string(),
            state: Some(r#"{"missionId":"mis_1"}"#.to_string()),
            model_settings: None,
            mission_md: None,
            progress_log: None,
            has_working_directory: false,
        }],
    };
    let mut walk = SettingsWalk::new(root().join("sessions"));
    walk.record("s".to_string(), root().join("sessions/s.settings.json"), now as u128 - 10);
    let mut c = FactoryCollector::new(Some(root()), true);
    let wanted: IdSet = c.refresh_at(scan, &walk, now);
    assert_eq!(c.models().len(), 1);
    assert!(c.models()[0].is_default);
    assert_eq!(c.missions().len(), 1);
    assert_eq!(c.missions()[0].mission_id, "mis_1");
    assert_eq!(c.issues().len(), 2);
    assert_eq!(c.issues()[0].message, "unreadable: denied");
    assert_eq!(c.issues()[1].file, "missions/m1");
    assert_eq!(c.cached_settings_mtimes.get("s"), Some(&(now - 10)));

    assert!(wanted.contains("s"));
    assert_eq!(wanted.len(), 1);
    let texts = vec![SettingsText {
        session_id: "s".to_string(),
        text: Some(
            r#"{"tokenUsage":{"inputTokens":3},"lastCallTokenUsage":{"inputTokens":50}}"#
                .to_string(),
        ),
    }];
    c.apply_tokens(&texts, &wanted);
    let sessions = c.build_sessions_at(now, "~/.factory");
    assert_eq!(sessions.len(), 1);
    assert_eq!(sessions[0].model, "a");
    assert_eq!(sessions[0].context_used, 50);
    assert_eq!(sessions[0].context_window, 200);
    assert_eq!(sessions[0].total_tokens(), 3);
    assert_eq!(sessions[0].started_at, now - 10);
}

#[test]
fn wanted_sessions_follow_the_scan_that_was_just_applied() {
    let scan = || WorkspaceScan {
        index: vec![IndexEntry {
            session_id: "s".to_string(),
            host_id: String::new(),
            mtime_ms: 5,
            title: String::new(),
            cwd: String::new(),
            messages_count: 0,
            calling_session_id: None,
            tags: Vec::new(),
        }],
        files: ConfigFiles {
            settings: FileText::Missing,
            factory_settings: FileText::Missing,
            index: FileText::Missing,
            task_invocations: None,
            background_processes: None,
        },
        missions: Vec::new(),
    };
    let mut c = FactoryCollector::new(Some(root()), true);
    let walk = SettingsWalk::new(root().join("sessions"));
    assert_eq!(c.refresh(scan(), &walk).len(), 0);
    let mut walk = SettingsWalk::new(root().join("sessions"));
    walk.record("s".to_string(), root().join("sessions/s.settings.json"), now_ms() as u128);
    assert!(c.refresh(scan(), &walk).contains("s"));
    c.apply_scan(scan(), &SettingsWalk::new(root().join("sessions")));
    assert_eq!(c.settings_wanted_ids().len(), 0);
    assert_eq!(c.issues().len(), 3);
}
