use factory_droid::json::parse_json;
use factory_droid::missions::{
    mission_from, order_directories, pick_title, read_mission, read_mission_title, read_missions,
    MissionFiles,
};

fn files(dir: &str) -> MissionFiles {
    MissionFiles {
        key: dir.as_bytes().to_vec(),
        dir: dir.to_string(),
        state: None,
        model_settings: None,
        mission_md: None,
        progress_log: None,
        has_working_directory: true,
    }
}

#[test]
fn missions_are_read_from_their_files() {
    let mut f = files("d1");
    f.state = Some(
        r#"{"missionId":"mis_1","state":"running","workingDirectory":"/w",
            "createdAt":"1970-01-01T00:00:01Z","updatedAt":"1970-01-01T00:00:02.5Z"}"#
            .to_string(),
    );
    f.model_settings = Some(r#"{"workerModel":"custom:w"}"#.to_string());
    f.mission_md = Some("# Fix it\nbody".to_string());
    let m = read_mission(&f);
    assert_eq!(m.mission_id, "mis_1");
    assert_eq!(m.dir, "d1");
    assert_eq!(m.state, "running");
    assert_eq!(m.title, "Fix it");
    assert_eq!(m.cwd, "/w");
    assert_eq!(m.created_at_ms, 1_000);
    assert_eq!(m.updated_at_ms, 2_500);
    assert_eq!(m.worker_model, "custom:w");
}

#[test]
fn missions_without_files_are_empty() {
    let mut f = files("d2");
    f.state = Some("not json".to_string());
    let m = read_mission(&f);
    assert_eq!(m.mission_id, "");
    assert_eq!(m.state, "");
    assert_eq!(m.title, "mission");
    assert_eq!(m.created_at_ms, 0);
    assert_eq!(m.worker_model, "");
}

#[test]
fn points_in_time_default_to_zero() {
    let state = parse_json(r#"{"missionId":"m"}"#).unwrap();
    let none = parse_json("null").unwrap();
    let m = mission_from("d", "t".to_string(), &state, &none, None, Some(7));
    assert_eq!(m.mission_id, "m");
    assert_eq!(m.title, "t");
    assert_eq!(m.created_at_ms, 0);
    assert_eq!(m.updated_at_ms, 7);
}

#[test]
fn titles_come_from_the_heading_then_the_log() {
    assert_eq!(read_mission_title(Some("##  A b \r\nrest"), None), "A b");
    assert_eq!(read_mission_title(Some("Draft notes\n# Ship it\n"), None), "Ship it");
    assert_eq!(read_mission_title(Some("\n\n#One\r\n# Two"), None), "One");
    assert_eq!(read_mission_title(Some("Ship it\n=======\n# Later"), None), "Ship it");
    assert_eq!(read_mission_title(Some("Ship it\n---"), Some(r#"{"title":"log"}"#)), "Ship it");
    assert_eq!(read_mission_title(Some(" # Title"), Some(r#"{"title":"log"}"#)), "# Title");
    assert_eq!(read_mission_title(Some("plain"), Some(r#"{"title":"log"}"#)), "log");
    assert_eq!(read_mission_title(Some(" plain \ntext"), None), "plain");
    assert_eq!(read_mission_title(Some("plain"), Some(r#"{"title":""}"#)), "plain");
    assert_eq!(read_mission_title(Some("plain\n#"), None), "plain");
    assert_eq!(read_mission_title(Some("\nplain"), None), "mission");
    assert_eq!(read_mission_title(Some("###\nnext"), Some("{\"title\":\"log\"}\n{}")), "log");
    assert_eq!(read_mission_title(Some(""), Some(r#"{"title":""}"#)), "mission");
    assert_eq!(read_mission_title(None, Some("not json\n{\"title\":\"late\"}")), "mission");
    assert_eq!(read_mission_title(None, Some("")), "mission");
    assert_eq!(read_mission_title(None, None), "mission");
}

#[test]
fn titles_are_cut() {
    let long = format!("# {}", "\u{e9}".repeat(200));
    assert_eq!(read_mission_title(Some(&long), None), "\u{e9}".repeat(128));
    let entry = parse_json(&format!("{{\"title\":\"{}\"}}", "x".repeat(257))).unwrap();
    assert_eq!(pick_title(None, Some(&entry)), "x".repeat(256));
}

#[test]
fn missions_are_listed_by_the_bytes_of_their_names() {
    let mut shown = files("c");
    shown.key = vec![0xff];
    let dirs = vec![shown, files("b"), files("B"), files("a"), files("ab")];
    let names: Vec<String> = read_missions(&dirs).into_iter().map(|m| m.dir).collect();
    assert_eq!(names, vec!["B", "a", "ab", "b", "c"]);
    assert_eq!(order_directories(&dirs).len(), 5);
}

#[test]
fn directories_of_the_same_name_stay_in_order() {
    let mut first = files("one");
    first.key = vec![1];
    let mut second = files("two");
    second.key = vec![1];
    let dirs = vec![first, second];
    let ordered = order_directories(&dirs);
    assert_eq!(ordered[0].dir, "one");
    assert_eq!(ordered[1].dir, "two");
}
