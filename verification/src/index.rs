//! Entries of the index of sessions, and what is shown of them.

use vstd::prelude::*;

use crate::json::{Json, JsonView};
use crate::order::views;
use crate::text::{
    ascii_lower_of, byte_len, cutting_keeps_the_most, cutting_leaves_something,
    eq_ignore_ascii_case, fitting_prefix, is_cut_to, opt_string, str_eq, trim, trim_of, truncate,
};

verus! {

/// Sessions updated more recently than this are live.
pub const LIVE_WINDOW_MS: u64 = 10 * 60 * 1000;

/// A session updated more recently than this is thinking.
pub const THINKING_MS: u64 = 15 * 1000;

/// A session updated more recently than this is executing.
pub const EXECUTING_MS: u64 = 120 * 1000;

/// The most bytes that a worker's name takes.
pub const NAME_BYTES: usize = 120;

/// What a live session is doing.
#[derive(Debug, Clone, Copy, PartialEq, Eq, Structural)]
pub enum SessionStatus {
    Thinking,
    Executing,
    Waiting,
}

/// A tag of an index entry.
#[derive(Debug)]
pub struct Tag {
    pub name: String,
    pub metadata: Option<Json>,
}

/// The mathematical value of a [`Tag`].
pub struct TagView {
    pub name: Seq<char>,
    pub metadata: Option<JsonView>,
}

impl View for Tag {
    type V = TagView;

    open spec fn view(&self) -> TagView {
        TagView {
            name: self.name@,
            metadata: match self.metadata {
                Some(j) => Some(j@),
                None => None,
            },
        }
    }
}

/// An entry of the index of sessions.
#[derive(Debug)]
pub struct IndexEntry {
    pub session_id: String,
    pub host_id: String,
    /// Last update, in milliseconds since the epoch.
    pub mtime_ms: u64,
    pub title: String,
    pub cwd: String,
    pub messages_count: u64,
    /// The session that this one works for, where it is a worker.
    pub calling_session_id: Option<String>,
    pub tags: Vec<Tag>,
}

/// The mathematical value of an [`IndexEntry`].
pub struct EntryView {
    pub session_id: Seq<char>,
    pub host_id: Seq<char>,
    pub mtime_ms: u64,
    pub title: Seq<char>,
    pub cwd: Seq<char>,
    pub messages_count: u64,
    pub calling_session_id: Option<Seq<char>>,
    pub tags: Seq<TagView>,
}

impl View for IndexEntry {
    type V = EntryView;

    open spec fn view(&self) -> EntryView {
        EntryView {
            session_id: self.session_id@,
            host_id: self.host_id@,
            mtime_ms: self.mtime_ms,
            title: self.title@,
            cwd: self.cwd@,
            messages_count: self.messages_count,
            calling_session_id: opt_string(self.calling_session_id),
            tags: views(self.tags@),
        }
    }
}

/// The mission that a tag names, where it is a `mission-session` tag that names one.
pub open spec fn tagged_mission(tag: TagView) -> Option<Seq<char>> {
    match tag.metadata {
        Some(meta) => if tag.name == "mission-session"@ && meta.text_at("missionId"@).len() > 0 {
            Some(meta.text_at("missionId"@))
        } else {
            None
        },
        None => None,
    }
}

/// The mission that the first of the tags from `i` on names.
pub open spec fn mission_from_tags(tags: Seq<TagView>, i: int) -> Option<Seq<char>>
    decreases tags.len() - i,
{
    if i >= tags.len() {
        None
    } else {
        match tagged_mission(tags[i]) {
            Some(id) => Some(id),
            None => mission_from_tags(tags, i + 1),
        }
    }
}

/// Whether one of the tags has the given name.
pub open spec fn has_tag(tags: Seq<TagView>, name: Seq<char>) -> bool {
    exists|i: int| 0 <= i < tags.len() && (#[trigger] tags[i]).name == name
}

/// What a session is doing whose last update is the given time ago.
pub open spec fn status_of(age_ms: u64) -> SessionStatus {
    if age_ms < THINKING_MS {
        SessionStatus::Thinking
    } else if age_ms < EXECUTING_MS {
        SessionStatus::Executing
    } else {
        SessionStatus::Waiting
    }
}

/// The task that is shown for a session whose last update is the given time ago.
pub open spec fn task_of(tags: Seq<TagView>, age_ms: u64) -> Seq<char> {
    if has_tag(tags, "mission-worker"@) {
        "mission worker"@
    } else if has_tag(tags, "exec"@) || age_ms < EXECUTING_MS {
        "executing"@
    } else {
        "waiting for input"@
    }
}

/// The name under which a worker with the given title is shown.
pub open spec fn worker_name(title: Seq<char>) -> Seq<char> {
    let t = trim_of(title);
    if t.len() == 0 || ascii_lower_of(t) == ascii_lower_of("New Session"@) {
        "worker"@
    } else {
        fitting_prefix(t, NAME_BYTES as nat)
    }
}

impl IndexEntry {
    /// The mission that the entry's tags name, where they do.
    pub fn mission_id(&self) -> (r: Option<&str>)
        ensures
            match r {
                Some(id) => mission_from_tags(self@.tags, 0) == Some(id@),
                None => mission_from_tags(self@.tags, 0) is None,
            },
    {
        for i in 0..self.tags.len()
            invariant
                mission_from_tags(self@.tags, 0) == mission_from_tags(self@.tags, i as int),
        {
            let tag = &self.tags[i];
            proof {
                assert(self@.tags[i as int] == tag@);
            }
            if str_eq(tag.name.as_str(), "mission-session") {
                if let Some(meta) = &tag.metadata {
                    if let Some(id) = meta.str_at("missionId") {
                        if !id.is_empty() {
                            return Some(id);
                        }
                    }
                }
            }
        }
        None
    }

    /// Whether the entry has a tag of the given name.
    pub fn has_tag(&self, name: &str) -> (r: bool)
        ensures
            r == has_tag(self@.tags, name@),
    {
        for i in 0..self.tags.len()
            invariant
                forall|j: int| 0 <= j < i ==> (#[trigger] self@.tags[j]).name != name@,
        {
            proof {
                assert(self@.tags[i as int] == self.tags@[i as int]@);
            }
            if str_eq(self.tags[i].name.as_str(), name) {
                return true;
            }
        }
        false
    }
}

/// What a session is doing whose last update is `age_ms` ago.
pub fn live_status(age_ms: u64) -> (r: SessionStatus)
    ensures
        r == status_of(age_ms),
{
    if age_ms < THINKING_MS {
        SessionStatus::Thinking
    } else if age_ms < EXECUTING_MS {
        SessionStatus::Executing
    } else {
        SessionStatus::Waiting
    }
}

/// The tasks that are shown for a session whose last update is `age_ms` ago.
pub fn current_tasks(e: &IndexEntry, age_ms: u64) -> (r: Vec<String>)
    ensures
        views(r@) == seq![task_of(e@.tags, age_ms)],
{
    let task = if e.has_tag("mission-worker") {
        "mission worker"
    } else if e.has_tag("exec") || age_ms < EXECUTING_MS {
        "executing"
    } else {
        "waiting for input"
    };
    let mut tasks: Vec<String> = Vec::new();
    tasks.push(task.to_owned());
    proof {
        assert(views(tasks@) =~= seq![task_of(e@.tags, age_ms)]);
    }
    tasks
}

/// The name under which a worker is shown.
pub fn subagent_name(w: &IndexEntry) -> (r: String)
    ensures
        r@ == worker_name(w@.title),
{
    let title = trim(w.title.as_str());
    if title.is_empty() || eq_ignore_ascii_case(title, "New Session") {
        "worker".to_owned()
    } else {
        truncate(title, NAME_BYTES)
    }
}

/// A worker's name is never empty, and never takes more than [`NAME_BYTES`] bytes.
pub proof fn worker_names_are_bounded(title: Seq<char>)
    ensures
        worker_name(title).len() > 0,
        byte_len(worker_name(title)) <= NAME_BYTES,
{
    let t = trim_of(title);
    cutting_keeps_the_most(t, NAME_BYTES as nat);
    if t.len() > 0 {
        cutting_leaves_something(t, NAME_BYTES as nat);
    }
    reveal_strlit("worker");
    vstd::utf8::is_ascii_chars_encode_utf8("worker"@);
}

/// The task of a session that is no mission worker agrees with its status: it is executing unless
/// it waits by its status, and then waits for input unless it bears the tag `exec`.
pub proof fn tasks_follow_status(tags: Seq<TagView>, age_ms: u64)
    ensures
        status_of(age_ms) != SessionStatus::Waiting && !has_tag(tags, "mission-worker"@)
            ==> task_of(tags, age_ms) == "executing"@,
        status_of(age_ms) == SessionStatus::Waiting && !has_tag(tags, "mission-worker"@)
            && !has_tag(tags, "exec"@) ==> task_of(tags, age_ms) == "waiting for input"@,
{
}

/// A session is thinking for the first 15 seconds after its last update, then executing until two
/// minutes have passed, and then waits.
pub proof fn statuses_follow_the_age(age_ms: u64)
    ensures
        status_of(age_ms) == SessionStatus::Thinking <==> age_ms < 15_000,
        status_of(age_ms) == SessionStatus::Executing <==> 15_000 <= age_ms < 120_000,
        status_of(age_ms) == SessionStatus::Waiting <==> age_ms >= 120_000,
{
}

/// Whether a tag names the given mission.
pub open spec fn names_mission(tag: TagView, id: Seq<char>) -> bool {
    &&& tag.name == "mission-session"@
    &&& tag.metadata is Some
    &&& tag.metadata->0.get("missionId"@) == Some(JsonView::Text(id))
    &&& id.len() > 0
}

/// The mission of an entry is the one that the first of its tags to name any names; it has none
/// where no tag names one.
pub proof fn missions_are_named_by_the_first_tag(tags: Seq<TagView>)
    ensures
        match mission_from_tags(tags, 0) {
            Some(id) => exists|i: int|
                0 <= i < tags.len() && names_mission(#[trigger] tags[i], id) && forall|
                    j: int,
                    other: Seq<char>,
                |
                    0 <= j < i ==> !#[trigger] names_mission(tags[j], other),
            None => forall|j: int, other: Seq<char>|
                0 <= j < tags.len() ==> !#[trigger] names_mission(tags[j], other),
        },
{
    lemma_mission_from(tags, 0);
}

proof fn lemma_mission_from(tags: Seq<TagView>, k: int)
    requires
        0 <= k <= tags.len(),
        forall|j: int, other: Seq<char>| 0 <= j < k ==> !#[trigger] names_mission(tags[j], other),
    ensures
        match mission_from_tags(tags, k) {
            Some(id) => exists|i: int|
                0 <= i < tags.len() && names_mission(#[trigger] tags[i], id) && forall|
                    j: int,
                    other: Seq<char>,
                |
                    0 <= j < i ==> !#[trigger] names_mission(tags[j], other),
            None => forall|j: int, other: Seq<char>|
                0 <= j < tags.len() ==> !#[trigger] names_mission(tags[j], other),
        },
    decreases tags.len() - k,
{
    if k < tags.len() {
        if tagged_mission(tags[k]) is Some {
            assert(names_mission(tags[k], tagged_mission(tags[k])->0));
        } else {
            assert forall|other: Seq<char>| !#[trigger] names_mission(tags[k], other) by {}
            lemma_mission_from(tags, k + 1);
        }
    }
}

/// The task of a session: that of a mission worker where a tag says so, else executing where a tag
/// says so or the last update is less than two minutes ago, else waiting for input.
pub proof fn tasks_follow_tags_and_age(tags: Seq<TagView>, age_ms: u64)
    ensures
        (exists|i: int| 0 <= i < tags.len() && (#[trigger] tags[i]).name == "mission-worker"@)
            ==> task_of(tags, age_ms) == "mission worker"@,
        (forall|i: int| 0 <= i < tags.len() ==> (#[trigger] tags[i]).name != "mission-worker"@) && (
        age_ms < 120_000 || exists|i: int|
            0 <= i < tags.len() && (#[trigger] tags[i]).name == "exec"@) ==> task_of(tags, age_ms)
            == "executing"@,
        (forall|i: int|
            0 <= i < tags.len() ==> (#[trigger] tags[i]).name != "mission-worker"@
                && tags[i].name != "exec"@) && age_ms >= 120_000 ==> task_of(tags, age_ms)
            == "waiting for input"@,
{
}

/// A worker is shown under its title, without the white space around it and cut to the longest
/// prefix of at most 120 bytes, and as `worker` where that is empty or `New Session` in any case.
pub proof fn workers_are_shown_under_their_titles(title: Seq<char>)
    ensures
        ({
            let t = trim_of(title);
            let name = worker_name(title);
            if t.len() == 0 || ascii_lower_of(t) == ascii_lower_of("New Session"@) {
                name == "worker"@
            } else {
                name.len() > 0 && is_cut_to(name, t, 120)
            }
        }),
{
    let t = trim_of(title);
    cutting_keeps_the_most(t, NAME_BYTES as nat);
    if t.len() > 0 {
        cutting_leaves_something(t, NAME_BYTES as nat);
    }
}

/// The view of an entry shows its fields as they are.
pub proof fn entry_views_show_the_fields(e: IndexEntry)
    ensures
        e@.session_id == e.session_id@,
        e@.host_id == e.host_id@,
        e@.mtime_ms == e.mtime_ms,
        e@.title == e.title@,
        e@.cwd == e.cwd@,
        e@.messages_count == e.messages_count,
        e.calling_session_id is None <==> e@.calling_session_id is None,
        e.calling_session_id is Some ==> e@.calling_session_id == Some(e.calling_session_id->0@),
        e@.tags.len() == e.tags@.len(),
        forall|i: int|
            0 <= i < e.tags@.len() ==> (#[trigger] e@.tags[i]).name == e.tags@[i].name@ && (
            e.tags@[i].metadata is Some ==> e@.tags[i].metadata == Some(e.tags@[i].metadata->0@))
                && (e.tags@[i].metadata is None ==> e@.tags[i].metadata is None),
{
}

/// Tags are found by their whole name.
pub proof fn tags_are_found_by_name(tags: Seq<TagView>, name: Seq<char>)
    ensures
        has_tag(tags, name) <==> exists|i: int|
            0 <= i < tags.len() && (#[trigger] tags[i]).name == name,
{
}

/// The view of a tag shows its fields as they are.
pub proof fn tag_views_show_the_fields(t: Tag)
    ensures
        t@.name == t.name@,
        t.metadata is Some ==> t@.metadata == Some(t.metadata->0@),
        t.metadata is None ==> t@.metadata is None,
{
}

} // verus!
