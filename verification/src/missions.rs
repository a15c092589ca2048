//! Missions: what the directories under `missions/` tell of them.

use vstd::prelude::*;

use crate::clock::{clamped_millis, parse_iso_ms, rfc3339_millis};
use crate::json::{
    document_of, is_text_at, json_text, opt_json, parse_optional, parsed, read_json, Json, JsonView,
};
use crate::markdown::{first_heading, first_heading_of, is_heading};
use crate::order::{
    is_ordered, is_ranking, rank, sort_by, sort_ranked, sorting_orders, sorting_permutes, views,
    Ranked,
};
use crate::text::{
    as_opt_str, byte_len, bytes_are_totally_ordered, bytes_before, bytes_less,
    cut_texts_are_the_longest_that_fit, cutting_keeps_the_most, cutting_leaves_something,
    first_line, first_line_of, fitting_prefix, is_cut_to, lemma_bytes_not_before,
    lines_of, opt_string, opt_text, strip_leading, trim, trim_of, trim_start_matches, truncate,
};

verus! {

/// The most bytes that a mission's title takes.
pub const TITLE_BYTES: usize = 256;

/// A Factory Droid mission.
#[derive(Debug, Clone)]
pub struct FactoryMission {
    /// Stable mission id, e.g. `mis_57ffdada`.
    pub mission_id: String,
    /// Directory name under `missions/`.
    pub dir: String,
    /// Lifecycle state reported by `state.json` (paused, planning, running, ...).
    pub state: String,
    /// First heading of `mission.md`, else the title of the first entry of the progress log, else
    /// the first line of `mission.md`.
    pub title: String,
    pub cwd: String,
    pub created_at_ms: u64,
    pub updated_at_ms: u64,
    /// `workerModel` of `model-settings.json`, empty where there is none.
    pub worker_model: String,
}

/// The mathematical value of a [`FactoryMission`].
pub struct MissionView {
    pub mission_id: Seq<char>,
    pub dir: Seq<char>,
    pub state: Seq<char>,
    pub title: Seq<char>,
    pub cwd: Seq<char>,
    pub created_at_ms: u64,
    pub updated_at_ms: u64,
    pub worker_model: Seq<char>,
}

impl View for FactoryMission {
    type V = MissionView;

    open spec fn view(&self) -> MissionView {
        MissionView {
            mission_id: self.mission_id@,
            dir: self.dir@,
            state: self.state@,
            title: self.title@,
            cwd: self.cwd@,
            created_at_ms: self.created_at_ms,
            updated_at_ms: self.updated_at_ms,
            worker_model: self.worker_model@,
        }
    }
}

/// What was found in one directory under `missions/`; a text is absent where its file could not
/// be read.
#[derive(Debug)]
pub struct MissionFiles {
    /// The bytes of the directory's name, by which directories are ordered.
    pub key: Vec<u8>,
    /// The directory's name, as it is shown.
    pub dir: String,
    /// `state.json`
    pub state: Option<String>,
    /// `model-settings.json`
    pub model_settings: Option<String>,
    /// `mission.md`
    pub mission_md: Option<String>,
    /// `progress_log.jsonl`
    pub progress_log: Option<String>,
    /// Whether `working_directory.txt` exists.
    pub has_working_directory: bool,
}

/// The mathematical value of a [`MissionFiles`].
pub struct MissionFilesView {
    pub key: Seq<u8>,
    pub dir: Seq<char>,
    pub state: Option<Seq<char>>,
    pub model_settings: Option<Seq<char>>,
    pub mission_md: Option<Seq<char>>,
    pub progress_log: Option<Seq<char>>,
    pub has_working_directory: bool,
}

impl View for MissionFiles {
    type V = MissionFilesView;

    open spec fn view(&self) -> MissionFilesView {
        MissionFilesView {
            key: self.key@,
            dir: self.dir@,
            state: opt_string(self.state),
            model_settings: opt_string(self.model_settings),
            mission_md: opt_string(self.mission_md),
            progress_log: opt_string(self.progress_log),
            has_working_directory: self.has_working_directory,
        }
    }
}

/// The order of mission directories: that of the bytes of their names.
pub open spec fn directory_before(a: MissionFilesView, b: MissionFilesView) -> bool {
    bytes_before(a.key, b.key)
}

impl<'a> Ranked for &'a MissionFiles {
    open spec fn ranks_before(a: MissionFilesView, b: MissionFilesView) -> bool {
        directory_before(a, b)
    }

    fn is_before(&self, other: &Self) -> (r: bool) {
        bytes_less(self.key.as_slice(), other.key.as_slice())
    }
}

/// The mission directories in their order.
pub open spec fn ordered_directories(dirs: Seq<MissionFiles>) -> Seq<MissionFilesView> {
    sort_by(
        views(dirs),
        |a: MissionFilesView, b: MissionFilesView| directory_before(a, b),
    )
}

/// The title that a line gives: without the heading marks at its start and the white space around
/// it.
pub open spec fn line_title(line: Option<Seq<char>>) -> Seq<char> {
    match line {
        Some(l) => trim_of(strip_leading(l, '#')),
        None => Seq::empty(),
    }
}

/// The title that the first heading of a text gives; empty where it has none.
pub open spec fn heading_of(md: Option<Seq<char>>) -> Seq<char> {
    match md {
        Some(text) => line_title(first_heading_of(text)),
        None => Seq::empty(),
    }
}

/// The title that the first line of a text gives; empty where it has none.
pub open spec fn opening_of(md: Option<Seq<char>>) -> Seq<char> {
    match md {
        Some(text) => line_title(first_line_of(text)),
        None => Seq::empty(),
    }
}

/// The title that a log entry gives; empty where it has none.
pub open spec fn logged_title(log_entry: Option<JsonView>) -> Seq<char> {
    match log_entry {
        Some(v) => v.text_at("title"@),
        None => Seq::empty(),
    }
}

/// The title of a mission before it is cut: that of its heading, else that of its log entry, else
/// that of the first line of its text, else `mission`.
pub open spec fn whole_title(md: Option<Seq<char>>, log_entry: Option<JsonView>) -> Seq<char> {
    if heading_of(md).len() > 0 {
        heading_of(md)
    } else if logged_title(log_entry).len() > 0 {
        logged_title(log_entry)
    } else if opening_of(md).len() > 0 {
        opening_of(md)
    } else {
        "mission"@
    }
}

/// The title of a mission: cut to [`TITLE_BYTES`] bytes.
pub open spec fn title_of(md: Option<Seq<char>>, log_entry: Option<JsonView>) -> Seq<char> {
    fitting_prefix(whole_title(md, log_entry), TITLE_BYTES as nat)
}

/// The first entry of a log with one JSON document to a line.
pub open spec fn first_entry_of(log: Option<Seq<char>>) -> Option<JsonView> {
    match log {
        Some(text) => parsed(first_line_of(text)),
        None => None,
    }
}

/// A value, or zero.
pub open spec fn or_zero(n: Option<u64>) -> u64 {
    match n {
        Some(x) => x,
        None => 0,
    }
}

/// The milliseconds of the timestamp under `key`, where there is one.
pub open spec fn timestamp_at(state: JsonView, key: Seq<char>) -> Option<u64> {
    match state.str_at(key) {
        Some(s) => clamped_millis(rfc3339_millis(s)),
        None => None,
    }
}

/// A mission, from the documents of its directory and the points in time that they name.
pub open spec fn mission_of(
    dir: Seq<char>,
    title: Seq<char>,
    state: JsonView,
    model_settings: JsonView,
    created: Option<u64>,
    updated: Option<u64>,
) -> MissionView {
    MissionView {
        mission_id: state.text_at("missionId"@),
        dir,
        state: state.text_at("state"@),
        title,
        cwd: state.text_at("workingDirectory"@),
        created_at_ms: or_zero(created),
        updated_at_ms: or_zero(updated),
        worker_model: model_settings.text_at("workerModel"@),
    }
}

/// The mission of a directory.
pub open spec fn mission_in(files: MissionFilesView) -> MissionView {
    let state = document_of(files.state);
    mission_of(
        files.dir,
        title_of(files.mission_md, first_entry_of(files.progress_log)),
        state,
        document_of(files.model_settings),
        timestamp_at(state, "createdAt"@),
        timestamp_at(state, "updatedAt"@),
    )
}

/// The title that a line gives.
fn title_in(line: Option<&str>) -> (r: &str)
    ensures
        r@ == line_title(opt_text(line)),
{
    match line {
        Some(l) => trim(trim_start_matches(l, '#')),
        None => {
            proof {
                reveal_strlit("");
            }
            ""
        },
    }
}

/// The title of a mission, from `mission.md` and the first entry of its progress log.
pub fn pick_title(mission_md: Option<&str>, log_entry: Option<&Json>) -> (r: String)
    ensures
        r@ == title_of(opt_text(mission_md), opt_json(log_entry)),
{
    if let Some(text) = mission_md {
        let title = title_in(first_heading(text));
        if !title.is_empty() {
            return truncate(title, TITLE_BYTES);
        }
    }
    if let Some(v) = log_entry {
        if let Some(title) = v.str_at("title") {
            if !title.is_empty() {
                return truncate(title, TITLE_BYTES);
            }
        }
    }
    if let Some(text) = mission_md {
        let title = title_in(first_line(text));
        if !title.is_empty() {
            return truncate(title, TITLE_BYTES);
        }
    }
    truncate("mission", TITLE_BYTES)
}

/// The title of a mission, from `mission.md` and its progress log.
pub fn read_mission_title(mission_md: Option<&str>, progress_log: Option<&str>) -> (r: String)
    ensures
        r@ == title_of(opt_text(mission_md), first_entry_of(opt_text(progress_log))),
{
    let line: Option<&str> = match progress_log {
        Some(text) => first_line(text),
        None => None,
    };
    let entry = parse_optional(line);
    pick_title(mission_md, entry.as_ref())
}

/// A mission, from the documents of its directory and the points in time that they name.
pub fn mission_from(
    dir: &str,
    title: String,
    state: &Json,
    model_settings: &Json,
    created: Option<u64>,
    updated: Option<u64>,
) -> (r: FactoryMission)
    ensures
        r@ == mission_of(dir@, title@, state@, model_settings@, created, updated),
{
    FactoryMission {
        mission_id: state.text_at("missionId"),
        dir: dir.to_owned(),
        state: state.text_at("state"),
        title,
        cwd: state.text_at("workingDirectory"),
        created_at_ms: match created {
            Some(ms) => ms,
            None => 0,
        },
        updated_at_ms: match updated {
            Some(ms) => ms,
            None => 0,
        },
        worker_model: model_settings.text_at("workerModel"),
    }
}

/// The milliseconds of the timestamp under `key`, where there is one.
fn read_timestamp(state: &Json, key: &str) -> (r: Option<u64>)
    ensures
        r == timestamp_at(state@, key@),
{
    match state.str_at(key) {
        Some(s) => parse_iso_ms(s),
        None => None,
    }
}

/// The mission of a directory.
pub fn read_mission(files: &MissionFiles) -> (r: FactoryMission)
    ensures
        r@ == mission_in(files@),
{
    let state = read_json(as_opt_str(&files.state));
    let model_settings = read_json(as_opt_str(&files.model_settings));
    let title = read_mission_title(as_opt_str(&files.mission_md), as_opt_str(&files.progress_log));
    let created = read_timestamp(&state, "createdAt");
    let updated = read_timestamp(&state, "updatedAt");
    mission_from(files.dir.as_str(), title, &state, &model_settings, created, updated)
}

/// The mission directories in their order.
pub fn order_directories<'a>(dirs: &'a Vec<MissionFiles>) -> (r: Vec<&'a MissionFiles>)
    ensures
        views(r@) == ordered_directories(dirs@),
{
    let mut refs: Vec<&'a MissionFiles> = Vec::new();
    for i in 0..dirs.len()
        invariant
            refs@.len() == i,
            forall|j: int| 0 <= j < i ==> refs@[j] == dirs@[j],
    {
        refs.push(&dirs[i]);
    }
    proof {
        assert(views(refs@) =~= views(dirs@));
        assert(rank::<&'a MissionFiles>() =~= (|a: MissionFilesView, b: MissionFilesView|
            directory_before(a, b)));
    }
    sort_ranked(refs)
}

/// The missions, in the order of their directories.
pub fn read_missions(dirs: &Vec<MissionFiles>) -> (r: Vec<FactoryMission>)
    ensures
        views(r@) == ordered_directories(dirs@).map_values(
            |d: MissionFilesView| mission_in(d),
        ),
{
    let ordered = order_directories(dirs);
    let ghost all = ordered_directories(dirs@);
    let mut out: Vec<FactoryMission> = Vec::new();
    for i in 0..ordered.len()
        invariant
            views(ordered@) == all,
            out@.len() == i,
            forall|j: int| 0 <= j < i ==> (#[trigger] out@[j])@ == mission_in(all[j]),
    {
        proof {
            assert(all[i as int] == ordered@[i as int]@);
        }
        out.push(read_mission(ordered[i]));
    }
    proof {
        assert(views(out@) =~= all.map_values(|d: MissionFilesView| mission_in(d)));
    }
    out
}

/// A mission's title is never empty, and never takes more than [`TITLE_BYTES`] bytes.
pub proof fn titles_are_bounded(md: Option<Seq<char>>, log_entry: Option<JsonView>)
    ensures
        title_of(md, log_entry).len() > 0,
        byte_len(title_of(md, log_entry)) <= TITLE_BYTES,
{
    let whole = whole_title(md, log_entry);
    reveal_strlit("mission");
    cutting_keeps_the_most(whole, TITLE_BYTES as nat);
    cutting_leaves_something(whole, TITLE_BYTES as nat);
}

/// Where the first line of `mission.md` is a heading with a text, or there is neither a heading
/// with a text nor a log entry with a title, the first line gives the title.
pub proof fn first_lines_give_titles(text: Seq<char>, log_entry: Option<JsonView>)
    requires
        opening_of(Some(text)).len() > 0,
        is_heading(lines_of(text), 0) || (heading_of(Some(text)).len() == 0 && logged_title(
            log_entry,
        ).len() == 0),
    ensures
        title_of(Some(text), log_entry) == fitting_prefix(
            opening_of(Some(text)),
            TITLE_BYTES as nat,
        ),
{
}

/// The ranking of mission directories.
pub open spec fn directory_rank() -> spec_fn(MissionFilesView, MissionFilesView) -> bool {
    |a: MissionFilesView, b: MissionFilesView| directory_before(a, b)
}

/// Missions are listed by the bytes of their directories' names, and each directory once.
pub proof fn missions_are_ordered(dirs: Seq<MissionFiles>)
    ensures
        is_ordered(ordered_directories(dirs), directory_rank()),
        ordered_directories(dirs).to_multiset() == views(dirs).to_multiset(),
{
    let before = directory_rank();
    assert(is_ranking(before)) by {
        assert forall|a: MissionFilesView, b: MissionFilesView| #[trigger]
            before(a, b) implies !before(b, a) by {
            bytes_are_totally_ordered(a.key, b.key);
        }
        assert forall|a: MissionFilesView, b: MissionFilesView, c: MissionFilesView|
            #![trigger before(a, b), before(b, c)]
            !before(a, b) && !before(b, c) implies !before(a, c) by {
            lemma_bytes_not_before(a.key, b.key, c.key);
        }
    }
    sorting_orders(views(dirs), before);
    sorting_permutes(views(dirs), before);
}

/// Whether `ms` is the point in time that an object gives under `key`: the milliseconds of the
/// timestamp there, zero where it lies before the epoch or there is none.
pub open spec fn is_time_at(d: JsonView, key: Seq<char>, ms: u64) -> bool {
    match d.get(key) {
        Some(JsonView::Text(s)) => match rfc3339_millis(s) {
            Some(t) => if t >= 0 {
                ms as int == t as int
            } else {
                ms == 0
            },
            None => ms == 0,
        },
        _ => ms == 0,
    }
}

/// Each field of a mission is what its files hold: of `state.json` the id, the state, the working
/// directory and the two points in time, of `model-settings.json` the worker model.
pub proof fn missions_are_what_their_files_hold(files: MissionFilesView)
    ensures
        ({
            let m = mission_in(files);
            let state = document_of(files.state);
            &&& m.dir == files.dir
            &&& is_text_at(state, "missionId"@, m.mission_id)
            &&& is_text_at(state, "state"@, m.state)
            &&& is_text_at(state, "workingDirectory"@, m.cwd)
            &&& is_time_at(state, "createdAt"@, m.created_at_ms)
            &&& is_time_at(state, "updatedAt"@, m.updated_at_ms)
            &&& is_text_at(document_of(files.model_settings), "workerModel"@, m.worker_model)
        }),
{
}

/// A mission is as old as its timestamps say, to the millisecond.
pub proof fn timestamps_are_kept_to_the_millisecond(
    files: MissionFilesView,
    text: Seq<char>,
    state: JsonView,
    created: Seq<char>,
    updated: Seq<char>,
    created_ms: i64,
    updated_ms: i64,
)
    requires
        files.state == Some(text),
        json_text(text) == Ok::<JsonView, Seq<char>>(state),
        state.get("createdAt"@) == Some(JsonView::Text(created)),
        state.get("updatedAt"@) == Some(JsonView::Text(updated)),
        rfc3339_millis(created) == Some(created_ms),
        rfc3339_millis(updated) == Some(updated_ms),
        created_ms >= 0,
        updated_ms >= 0,
    ensures
        mission_in(files).created_at_ms == created_ms,
        mission_in(files).updated_at_ms == updated_ms,
{
}

/// A mission, put together of documents and points in time, has each field from its own place.
pub proof fn missions_are_put_together_field_by_field(
    dir: Seq<char>,
    title: Seq<char>,
    state: JsonView,
    model_settings: JsonView,
    created: Option<u64>,
    updated: Option<u64>,
)
    ensures
        ({
            let m = mission_of(dir, title, state, model_settings, created, updated);
            &&& m.dir == dir
            &&& m.title == title
            &&& is_text_at(state, "missionId"@, m.mission_id)
            &&& is_text_at(state, "state"@, m.state)
            &&& is_text_at(state, "workingDirectory"@, m.cwd)
            &&& is_text_at(model_settings, "workerModel"@, m.worker_model)
            &&& created is Some ==> m.created_at_ms == created->0
            &&& created is None ==> m.created_at_ms == 0
            &&& updated is Some ==> m.updated_at_ms == updated->0
            &&& updated is None ==> m.updated_at_ms == 0
        }),
{
}

/// Whether a line of a text, stripped of heading marks at its start and of white space around it,
/// leaves the given title.
pub open spec fn leaves_title(line: Option<Seq<char>>, title: Seq<char>) -> bool {
    match line {
        Some(l) => title == trim_of(strip_leading(l, '#')),
        None => title.len() == 0,
    }
}

/// Whether the first entry of a log has the given title, which is empty where it has none.
pub open spec fn is_logged(log: Option<Seq<char>>, title: Seq<char>) -> bool {
    match log {
        Some(text) => match first_line_of(text) {
            Some(line) => match json_text(line) {
                Ok(v) => is_text_at(v, "title"@, title),
                Err(_) => title.len() == 0,
            },
            None => title.len() == 0,
        },
        None => title.len() == 0,
    }
}

/// The title of a mission is, cut to the longest prefix of at most 256 bytes, what its first
/// heading leaves; where that is nothing, the title that its log gives; where that is empty too,
/// what its first line leaves; and `mission` where nothing is left.
pub proof fn titles_come_from_heading_log_or_first_line(
    files: MissionFilesView,
    heading: Seq<char>,
    logged: Seq<char>,
    opening: Seq<char>,
)
    requires
        match files.mission_md {
            Some(text) => leaves_title(first_heading_of(text), heading) && leaves_title(
                first_line_of(text),
                opening,
            ),
            None => heading.len() == 0 && opening.len() == 0,
        },
        is_logged(files.progress_log, logged),
    ensures
        ({
            let title = mission_in(files).title;
            if heading.len() > 0 {
                is_cut_to(title, heading, 256)
            } else if logged.len() > 0 {
                is_cut_to(title, logged, 256)
            } else if opening.len() > 0 {
                is_cut_to(title, opening, 256)
            } else {
                title == "mission"@
            }
        }),
{
    let entry = first_entry_of(files.progress_log);
    assert(heading =~= heading_of(files.mission_md));
    assert(opening =~= opening_of(files.mission_md));
    assert(logged =~= logged_title(entry));
    cut_texts_are_the_longest_that_fit(whole_title(files.mission_md, entry), 256);
    reveal_strlit("mission");
    vstd::utf8::is_ascii_chars_encode_utf8("mission"@);
}

/// The title that is picked from a text and a log entry is, cut to the longest prefix of at most
/// 256 bytes, the first that is not empty of what the first heading leaves, the title of the entry
/// and what the first line leaves, and else `mission`.
pub proof fn titles_are_picked_in_order(
    md: Option<Seq<char>>,
    log_entry: Option<JsonView>,
    heading: Seq<char>,
    logged: Seq<char>,
    opening: Seq<char>,
)
    requires
        match md {
            Some(text) => leaves_title(first_heading_of(text), heading) && leaves_title(
                first_line_of(text),
                opening,
            ),
            None => heading.len() == 0 && opening.len() == 0,
        },
        match log_entry {
            Some(v) => is_text_at(v, "title"@, logged),
            None => logged.len() == 0,
        },
    ensures
        if heading.len() > 0 {
            is_cut_to(title_of(md, log_entry), heading, 256)
        } else if logged.len() > 0 {
            is_cut_to(title_of(md, log_entry), logged, 256)
        } else if opening.len() > 0 {
            is_cut_to(title_of(md, log_entry), opening, 256)
        } else {
            title_of(md, log_entry) == "mission"@
        },
{
    assert(heading =~= heading_of(md));
    assert(opening =~= opening_of(md));
    assert(logged =~= logged_title(log_entry));
    cut_texts_are_the_longest_that_fit(whole_title(md, log_entry), 256);
    reveal_strlit("mission");
    vstd::utf8::is_ascii_chars_encode_utf8("mission"@);
}

/// The first entry of a log is what the parser makes of its first line, where it accepts it.
pub proof fn log_entries_are_first_lines(log: Option<Seq<char>>)
    ensures
        match log {
            Some(text) => match first_line_of(text) {
                Some(line) => match json_text(line) {
                    Ok(v) => first_entry_of(log) == Some(v),
                    Err(_) => first_entry_of(log) is None,
                },
                None => first_entry_of(log) is None,
            },
            None => first_entry_of(log) is None,
        },
{
}

/// The title that is picked from a text and a log entry is that of the mission which has them.
pub proof fn picked_titles_are_those_of_missions(
    files: MissionFilesView,
    line: Seq<char>,
    v: JsonView,
    log: Seq<char>,
)
    requires
        files.progress_log == Some(log),
        first_line_of(log) == Some(line),
        json_text(line) == Ok::<JsonView, Seq<char>>(v),
    ensures
        mission_in(files).title == title_of(files.mission_md, Some(v)),
{
}

/// No mission directory comes before one whose name has the smaller bytes, and each comes once.
pub proof fn directories_come_by_their_bytes(dirs: Seq<MissionFiles>, i: int, j: int)
    requires
        0 <= i < j < ordered_directories(dirs).len(),
    ensures
        ordered_directories(dirs)[i].key == ordered_directories(dirs)[j].key || bytes_before(
            ordered_directories(dirs)[i].key,
            ordered_directories(dirs)[j].key,
        ),
        ordered_directories(dirs).to_multiset() == dirs.map_values(
            |d: MissionFiles| d@,
        ).to_multiset(),
{
    missions_are_ordered(dirs);
    let all = ordered_directories(dirs);
    let before = directory_rank();
    assert(!before(all[j], all[i]));
    bytes_are_totally_ordered(all[i].key, all[j].key);
}

/// The views of missions and of their files show the fields as they are.
pub proof fn mission_views_show_the_fields(m: FactoryMission, f: MissionFiles)
    ensures
        m@.mission_id == m.mission_id@,
        m@.dir == m.dir@,
        m@.state == m.state@,
        m@.title == m.title@,
        m@.cwd == m.cwd@,
        m@.created_at_ms == m.created_at_ms,
        m@.updated_at_ms == m.updated_at_ms,
        m@.worker_model == m.worker_model@,
        f@.key == f.key@,
        f@.dir == f.dir@,
        f.state is Some ==> f@.state == Some(f.state->0@),
        f.state is None ==> f@.state is None,
        f.model_settings is Some ==> f@.model_settings == Some(f.model_settings->0@),
        f.model_settings is None ==> f@.model_settings is None,
        f.mission_md is Some ==> f@.mission_md == Some(f.mission_md->0@),
        f.mission_md is None ==> f@.mission_md is None,
        f.progress_log is Some ==> f@.progress_log == Some(f.progress_log->0@),
        f.progress_log is None ==> f@.progress_log is None,
        f@.has_working_directory == f.has_working_directory,
{
}

} // verus!
