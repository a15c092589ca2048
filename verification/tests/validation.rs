use factory_droid::json::parse_json;
use factory_droid::missions::MissionFiles;
use factory_droid::validate::{
    config_issues, issue, parse_config, validate_config, validate_models_file, ConfigFiles,
    FactoryConfigIssue, FileText, MissionCheck, ParsedConfig, ParsedFile, MAX_ISSUES,
};

fn only_settings(text: &str) -> ConfigFiles {
    ConfigFiles {
        settings: FileText::Text(text.to_string()),
        factory_settings: FileText::Missing,
        index: FileText::Missing,
        task_invocations: None,
        background_processes: None,
    }
}

fn sound() -> ParsedConfig {
    ParsedConfig {
        settings: ParsedFile::Document(parse_json("{}").unwrap()),
        factory_settings: ParsedFile::Document(parse_json("{}").unwrap()),
        index: ParsedFile::Document(parse_json("{}").unwrap()),
        missions: Vec::new(),
        task_invocations: None,
        background_processes: Some(true),
    }
}

fn shown(issues: &[FactoryConfigIssue]) -> Vec<String> {
    issues.iter().map(|i| format!("{} {}: {}", i.severity, i.file, i.message)).collect()
}

fn findings(text: &str) -> Vec<String> {
    let mut issues = Vec::new();
    validate_models_file(&parse_json(text).unwrap(), "f", &mut issues);
    shown(&issues)
}

#[test]
fn validate_config_flags_dup_id_and_dangling_default() {
    let files = only_settings(
        r#"{ "sessionDefaultSettings": { "model": "custom:ghost" },
          "customModels": [
            { "id": "custom:a", "model": "a", "index": 0, "baseUrl": "http://x" },
            { "id": "custom:a", "model": "a2", "index": 1, "baseUrl": "http://x" }
          ] }"#,
    );
    let issues = validate_config(&files, &Vec::new());
    assert!(
        issues
            .iter()
            .any(|i| i.message.contains("duplicate model id")),
        "issues: {issues:?}"
    );
    assert!(
        issues.iter().any(|i| i.message.contains("custom:ghost")),
        "issues: {issues:?}"
    );
}

#[test]
fn validate_config_reports_broken_settings_json() {
    let files = only_settings(r#"{"customModels": ["#);
    let issues = validate_config(&files, &Vec::new());
    assert!(
        issues
            .iter()
            .any(|i| i.severity == "high" && i.file == "settings.json"),
        "issues: {issues:?}"
    );
}

#[test]
fn findings_are_put_together() {
    let i = issue("low", "f", "m".to_string());
    assert_eq!(i.severity, "low");
    assert_eq!(i.file, "f");
    assert_eq!(i.message, "m");
}

#[test]
fn models_lack_fields() {
    assert_eq!(
        findings(r#"{"customModels":[{"index":1.5},{"id":"","model":"","baseUrl":""}]}"#),
        vec![
            "low f: customModels[0] missing id",
            "low f: customModels[0] missing model name",
            "low f: customModels[0] missing baseUrl",
            "low f: customModels[1] missing id",
            "low f: customModels[1] missing model name",
            "low f: customModels[1] missing baseUrl",
        ]
    );
}

#[test]
fn models_are_compared_with_the_last_of_the_same_id_or_index() {
    assert_eq!(
        findings(
            r#"{"customModels":[{"id":"a","model":"m","baseUrl":"u","index":-4},
                {"id":"a","model":"m","baseUrl":"u","index":-4},
                {"id":"a","model":"m","baseUrl":"u","index":-4}]}"#
        ),
        vec![
            "medium f: duplicate model id 'a' at indices 0 and 1",
            "low f: duplicate model index -4 at indices 0 and 1",
            "medium f: duplicate model id 'a' at indices 1 and 2",
            "low f: duplicate model index -4 at indices 1 and 2",
        ]
    );
}

#[test]
fn dangling_defaults_are_custom_and_not_listed() {
    assert_eq!(
        findings(
            r#"{"customModels":[{"id":"custom:a","model":"m","baseUrl":"u"}],
                "sessionDefaultSettings":{"model":"custom:a"},
                "missionOrchestratorModel":"plain",
                "general":{"s":{"x":"custom:b","y":"custom:b"}}}"#
        ),
        vec![
            "medium f: default model 'custom:b' is not in customModels",
            "medium f: default model 'custom:b' is not in customModels",
        ]
    );
}

#[test]
fn documents_without_a_list_of_models_have_no_findings() {
    assert!(findings(r#"{"missionOrchestratorModel":"custom:x"}"#).is_empty());
    assert!(findings("[]").is_empty());
    assert!(findings(r#"{"customModels":[]}"#).is_empty());
}

#[test]
fn findings_of_earlier_files_are_kept() {
    let mut issues = vec![issue("low", "e", "m".to_string())];
    let v = parse_json(r#"{"customModels":[{"id":"a","model":"m"}]}"#).unwrap();
    validate_models_file(&v, "f", &mut issues);
    assert_eq!(shown(&issues), vec!["low e: m", "low f: customModels[0] missing baseUrl"]);
}

#[test]
fn sound_files_have_no_findings() {
    assert!(config_issues(&sound()).is_empty());
}

#[test]
fn missing_and_unreadable_files_are_findings() {
    let mut config = sound();
    config.settings = ParsedFile::Missing;
    config.factory_settings = ParsedFile::Unreadable("denied".to_string());
    config.index = ParsedFile::Unreadable("denied".to_string());
    assert_eq!(
        shown(&config_issues(&config)),
        vec![
            "low settings.json: missing",
            "low factory-settings.json: unreadable: denied",
            "low sessions-index.json: missing",
        ]
    );
}

#[test]
fn broken_files_are_findings() {
    let mut config = sound();
    config.factory_settings = ParsedFile::Invalid("why".to_string());
    config.index = ParsedFile::Invalid("how".to_string());
    config.task_invocations = Some(false);
    config.background_processes = Some(false);
    assert_eq!(
        shown(&config_issues(&config)),
        vec![
            "high factory-settings.json: invalid JSON: why",
            "high sessions-index.json: invalid JSON: how",
            "low task-invocations.json: invalid JSON",
            "low background-processes.json: invalid JSON",
        ]
    );
}

#[test]
fn index_entries_without_cwd_are_counted() {
    let mut config = sound();
    config.index = ParsedFile::Document(
        parse_json(r#"{"entries":[{"cwd":"/a"},{"cwd":""},{},{"cwd":3}]}"#).unwrap(),
    );
    assert_eq!(
        shown(&config_issues(&config)),
        vec!["low sessions-index.json: 3 entries without cwd"]
    );
}

#[test]
fn mission_directories_are_checked() {
    let mut config = sound();
    config.missions = vec![
        MissionCheck {
            dir: "a".to_string(),
            state_is_json: Some(false),
            has_working_directory: false,
        },
        MissionCheck { dir: "b".to_string(), state_is_json: None, has_working_directory: true },
        MissionCheck {
            dir: "c".to_string(),
            state_is_json: Some(true),
            has_working_directory: false,
        },
    ];
    assert_eq!(
        shown(&config_issues(&config)),
        vec![
            "medium missions/a: invalid state.json",
            "low missions/a: missing working_directory.txt",
            "low missions/c: missing working_directory.txt",
        ]
    );
}

#[test]
fn reports_are_capped_at_the_first_findings() {
    let mut config = sound();
    config.settings = ParsedFile::Invalid("why".to_string());
    for i in 0..60 {
        config.missions.push(MissionCheck {
            dir: format!("{i}"),
            state_is_json: None,
            has_working_directory: false,
        });
    }
    let issues = config_issues(&config);
    assert_eq!(issues.len(), MAX_ISSUES);
    assert_eq!(issues.len(), 50);
    assert_eq!(issues[0].severity, "high");
    assert_eq!(issues[49].file, "missions/48");
}

#[test]
fn files_are_parsed_and_missions_ordered() {
    let mission = |dir: &str, state: Option<&str>| MissionFiles {
        key: dir.as_bytes().to_vec(),
        dir: dir.to_string(),
        state: state.map(|s| s.to_string()),
        model_settings: None,
        mission_md: None,
        progress_log: None,
        has_working_directory: true,
    };
    let files = ConfigFiles {
        settings: FileText::Text("{}".to_string()),
        factory_settings: FileText::Unreadable("denied".to_string()),
        index: FileText::Text("{".to_string()),
        task_invocations: Some("x".to_string()),
        background_processes: Some("[]".to_string()),
    };
    let missions = vec![mission("b", Some("{")), mission("a", None)];
    let config = parse_config(&files, &missions);
    assert!(matches!(config.settings, ParsedFile::Document(_)));
    assert!(matches!(config.index, ParsedFile::Invalid(_)));
    assert_eq!(config.missions[0].dir, "a");
    assert_eq!(config.missions[0].state_is_json, None);
    assert_eq!(config.missions[1].state_is_json, Some(false));
    assert_eq!(config.task_invocations, Some(false));
    assert_eq!(config.background_processes, Some(true));
    assert_eq!(
        shown(&validate_config(&files, &missions)),
        vec![
            "low factory-settings.json: unreadable: denied",
            "high sessions-index.json: invalid JSON: EOF while parsing an object at line 1 column 1",
            "medium missions/b: invalid state.json",
            "low task-invocations.json: invalid JSON",
        ]
    );
}

#[test]
fn api_keys_are_not_among_the_findings() {
    let text = r#"{"customModels":[{"apiKey":"hidden"}]}"#;
    assert!(findings(text).iter().all(|f| !f.contains("hidden")));
    assert_eq!(findings(text), findings(r#"{"customModels":[{}]}"#));
}
