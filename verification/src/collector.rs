//! The collector: what it remembers of the workspace, and how a tick brings it up to date.

use std::collections::HashMap;
use std::path::PathBuf;

use vstd::prelude::*;

use crate::catalog::{catalog_of, read_models, FactoryModel, ModelView};
use crate::clock::{is_clock_time, now_ms};
use crate::ids::{IdMap, IdSet};
use crate::index::{EntryView, IndexEntry, LIVE_WINDOW_MS};
use crate::json::parsed;
use crate::missions::{
    mission_in, ordered_directories, read_missions, FactoryMission, MissionFiles,
    MissionFilesView, MissionView,
};
use crate::order::views;
use crate::scan::{files_by_session, SettingsWalk, SettingsWalkView};
use crate::text::{
    ascii_lower_of, chars_of, contains, lower_chars_of, occurrences_part_a_text, occurs_in,
    opt_text,
};
use crate::tokens::{
    read_session_tokens, tables_after, LastCallUsage, SessionTokenUsage, SettingsText,
};
use crate::validate::{
    parsed_config, reported_issues, validate_config, ConfigFiles, FactoryConfigIssue, FileText,
    FileTextView, IssueView,
};

verus! {

/// `PathBuf::clone` gives the same path.
pub assume_specification[ <PathBuf as Clone>::clone ](path: &PathBuf) -> (r: PathBuf)
    ensures
        r == *path,
;

/// A running process.
#[derive(Debug)]
pub struct ProcInfo {
    pub pid: u32,
    pub ppid: u32,
    pub rss_kb: u64,
    pub command: String,
}

/// What was read of the workspace.
#[derive(Debug)]
pub struct WorkspaceScan {
    /// The entries of `sessions-index.json`.
    pub index: Vec<IndexEntry>,
    /// The configuration files.
    pub files: ConfigFiles,
    /// The directories under `missions/`.
    pub missions: Vec<MissionFiles>,
}

/// What a tick asks for next.
#[derive(Debug, Clone, Copy, PartialEq, Eq, Structural)]
pub enum TickStep {
    /// There is no workspace: nothing is reported.
    Idle,
    /// Read the workspace, then report.
    Scan,
    /// Report from what is remembered.
    Report,
}

/// Collects the sessions and the configuration of the workspace.
pub struct FactoryCollector {
    /// The workspace directory, where it is known.
    pub root: Option<PathBuf>,
    /// Whether the workspace directory exists.
    pub active: bool,
    pub cached_index: Vec<IndexEntry>,
    pub cached_models: Vec<FactoryModel>,
    pub cached_missions: Vec<FactoryMission>,
    pub cached_issues: Vec<FactoryConfigIssue>,
    /// Own token usage by session id.
    pub cached_tokens: IdMap<SessionTokenUsage>,
    /// Token usage of workers by session id, as recorded by their parents.
    pub cached_child_tokens: IdMap<SessionTokenUsage>,
    /// Token usage of the last call by session id.
    pub cached_last_call_usage: IdMap<LastCallUsage>,
    /// Time of the last change of each session's settings file, the freshest sign of life: the
    /// index lags behind.
    pub cached_settings_mtimes: IdMap<u64>,
    /// The processes of the desktop app on the last tick.
    pub last_droid_pids: Vec<u32>,
}

/// What the collector remembers of the workspace, and reports from.
pub struct Memory {
    pub index: Seq<EntryView>,
    pub models: Seq<ModelView>,
    pub missions: Seq<MissionView>,
    pub tokens: Map<Seq<char>, SessionTokenUsage>,
    pub child_tokens: Map<Seq<char>, SessionTokenUsage>,
    pub last_call: Map<Seq<char>, LastCallUsage>,
    pub mtimes: Map<Seq<char>, u64>,
}

/// The mathematical value of a [`FactoryCollector`].
pub struct CollectorView {
    pub root: Option<PathBuf>,
    pub active: bool,
    pub memory: Memory,
    pub issues: Seq<IssueView>,
    pub droid_pids: Seq<u32>,
}

impl View for FactoryCollector {
    type V = CollectorView;

    open spec fn view(&self) -> CollectorView {
        CollectorView {
            root: self.root,
            active: self.active,
            memory: Memory {
                index: views(self.cached_index@),
                models: views(self.cached_models@),
                missions: views(self.cached_missions@),
                tokens: self.cached_tokens@,
                child_tokens: self.cached_child_tokens@,
                last_call: self.cached_last_call_usage@,
                mtimes: self.cached_settings_mtimes@,
            },
            issues: views(self.cached_issues@),
            droid_pids: self.last_droid_pids@,
        }
    }
}

/// The freshest sign of life of a session: the time in the index, or that of the last change of
/// its settings file, whichever is later.
pub open spec fn live_mtime_of(mtimes: Map<Seq<char>, u64>, e: EntryView) -> u64 {
    if mtimes.contains_key(e.session_id) && mtimes[e.session_id] > e.mtime_ms {
        mtimes[e.session_id]
    } else {
        e.mtime_ms
    }
}

/// The time that has passed since `stamp`; zero where that lies ahead.
pub open spec fn age_of(now: u64, stamp: u64) -> u64 {
    if now > stamp {
        (now - stamp) as u64
    } else {
        0
    }
}

/// Whether a session with the given sign of life is live.
pub open spec fn is_fresh(now: u64, stamp: u64) -> bool {
    age_of(now, stamp) < LIVE_WINDOW_MS
}

/// Whether the entry itself shows a recent sign of life.
pub open spec fn is_fresh_entry(c: Memory, now: u64, e: EntryView) -> bool {
    is_fresh(now, live_mtime_of(c.mtimes, e))
}

/// The ids of the entries that show a recent sign of life.
pub open spec fn fresh_ids(c: Memory, now: u64) -> Set<Seq<char>> {
    Set::new(
        |id: Seq<char>|
            exists|i: int|
                0 <= i < c.index.len() && (#[trigger] c.index[i]).session_id == id
                    && is_fresh_entry(c, now, c.index[i]),
    )
}

/// Whether the session with the given id has a worker with a recent sign of life.
pub open spec fn has_fresh_worker(c: Memory, now: u64, id: Seq<char>) -> bool {
    exists|i: int|
        0 <= i < c.index.len() && (#[trigger] c.index[i]).calling_session_id == Some(id)
            && is_fresh_entry(c, now, c.index[i])
}

/// Whether the session with the given id is live: it or one of its workers shows a recent sign of
/// life.
pub open spec fn is_live_id(c: Memory, now: u64, id: Seq<char>) -> bool {
    fresh_ids(c, now).contains(id) || has_fresh_worker(c, now, id)
}

/// Whether the session with the given id is a worker of a live one.
pub open spec fn has_live_parent(c: Memory, now: u64, id: Seq<char>) -> bool {
    exists|i: int|
        0 <= i < c.index.len() && (#[trigger] c.index[i]).session_id == id
            && c.index[i].calling_session_id is Some && is_live_id(
            c,
            now,
            c.index[i].calling_session_id->0,
        )
}

/// Whether the session with the given id is the parent of a live one.
pub open spec fn has_live_worker(c: Memory, now: u64, id: Seq<char>) -> bool {
    exists|i: int|
        0 <= i < c.index.len() && (#[trigger] c.index[i]).calling_session_id == Some(id)
            && is_live_id(c, now, c.index[i].session_id)
}

/// The sessions whose settings files are read: live ones, the parents of live workers, and the
/// workers of live parents.
pub open spec fn wanted_ids(c: Memory, now: u64) -> Set<Seq<char>> {
    Set::new(
        |id: Seq<char>|
            is_live_id(c, now, id) || has_live_worker(c, now, id) || has_live_parent(c, now, id),
    )
}

/// Whether one of the first `n` entries shows a recent sign of life and is the session with the
/// given id or a worker of it.
pub open spec fn is_live_by(c: Memory, now: u64, id: Seq<char>, n: int) -> bool {
    exists|j: int|
        0 <= j < n && is_fresh_entry(c, now, #[trigger] c.index[j]) && (c.index[j].session_id == id
            || c.index[j].calling_session_id == Some(id))
}

/// Whether an entry makes the session with the given id a worker or the parent of one in `live`.
pub open spec fn is_kin(e: EntryView, live: Set<Seq<char>>, id: Seq<char>) -> bool {
    match e.calling_session_id {
        Some(parent) => (e.session_id == id && live.contains(parent)) || (parent == id
            && live.contains(e.session_id)),
        None => false,
    }
}

/// Whether one of the first `n` entries makes the session with the given id a worker or the parent
/// of one in `live`.
pub open spec fn is_kin_by(c: Memory, live: Set<Seq<char>>, id: Seq<char>, n: int) -> bool {
    exists|j: int| 0 <= j < n && is_kin(#[trigger] c.index[j], live, id)
}

/// Whether a command line is one of the desktop app.
pub open spec fn is_droid_command(command: Seq<char>) -> bool {
    let lower = ascii_lower_of(command);
    occurs_in(lower, "droid"@) || occurs_in(lower, "factory"@)
}

/// The processes of the desktop app, each once, in no particular order.
pub open spec fn are_droid_pids(pids: Seq<u32>, processes: Map<u32, ProcInfo>) -> bool {
    &&& pids.no_duplicates()
    &&& forall|pid: u32| #[trigger]
        pids.contains(pid) <==> processes.contains_key(pid) && is_droid_command(
            processes[pid].command@,
        )
}

/// The text of a file, where it could be read.
pub open spec fn readable_text(file: FileTextView) -> Option<Seq<char>> {
    match file {
        FileTextView::Text(t) => Some(t),
        _ => None,
    }
}

/// The times of the last change of settings files.
pub open spec fn change_times(files: Map<Seq<char>, (PathBuf, u64)>) -> Map<Seq<char>, u64> {
    files.map_values(|f: (PathBuf, u64)| f.1)
}

/// Whether `after` is the collector `before` once it remembers what was read of the workspace.
pub open spec fn is_scan_applied(
    before: FactoryCollector,
    after: FactoryCollector,
    scan: WorkspaceScan,
    walk: SettingsWalkView,
) -> bool {
    &&& after.cached_index == scan.index
    &&& views(after.cached_models@) == catalog_of(
        parsed(readable_text(scan.files.settings@)),
        parsed(readable_text(scan.files.factory_settings@)),
    )
    &&& views(after.cached_missions@) == ordered_directories(scan.missions@).map_values(
        |d: MissionFilesView| mission_in(d),
    )
    &&& views(after.cached_issues@) == reported_issues(parsed_config(scan.files, scan.missions@))
    &&& after.cached_settings_mtimes@ == change_times(walk.found)
    &&& after.root == before.root
    &&& after.active == before.active
    &&& after.cached_tokens == before.cached_tokens
    &&& after.cached_child_tokens == before.cached_child_tokens
    &&& after.cached_last_call_usage == before.cached_last_call_usage
    &&& after.last_droid_pids == before.last_droid_pids
}

/// The text of a file, where it could be read.
fn text_of(file: &FileText) -> (r: Option<&str>)
    ensures
        opt_text(r) == readable_text(file@),
{
    match file {
        FileText::Text(t) => Some(t.as_str()),
        _ => None,
    }
}

/// Whether a command line is one of the desktop app.
fn is_droid(command: &str) -> (r: bool)
    ensures
        r == is_droid_command(command@),
{
    let lower = lower_chars_of(command);
    contains(&lower, &chars_of("droid")) || contains(&lower, &chars_of("factory"))
}

impl FactoryCollector {
    /// Whether the workspace directory is known where the collector is active.
    pub open spec fn wf(self) -> bool {
        self.active ==> self.root is Some
    }

    /// A collector for the workspace at `root`, where that is known; it is active where there is
    /// a directory.
    pub fn new(root: Option<PathBuf>, root_is_dir: bool) -> (r: Self)
        ensures
            r.wf(),
            r.root == root,
            r.active == (root is Some && root_is_dir),
            r.cached_index@.len() == 0,
            r.cached_models@.len() == 0,
            r.cached_missions@.len() == 0,
            r.cached_issues@.len() == 0,
            r.cached_tokens@ == Map::<Seq<char>, SessionTokenUsage>::empty(),
            r.cached_child_tokens@ == Map::<Seq<char>, SessionTokenUsage>::empty(),
            r.cached_last_call_usage@ == Map::<Seq<char>, LastCallUsage>::empty(),
            r.cached_settings_mtimes@ == Map::<Seq<char>, u64>::empty(),
            r.last_droid_pids@.len() == 0,
    {
        let active = root.is_some() && root_is_dir;
        FactoryCollector {
            root,
            active,
            cached_index: Vec::new(),
            cached_models: Vec::new(),
            cached_missions: Vec::new(),
            cached_issues: Vec::new(),
            cached_tokens: IdMap::new(),
            cached_child_tokens: IdMap::new(),
            cached_last_call_usage: IdMap::new(),
            cached_settings_mtimes: IdMap::new(),
            last_droid_pids: Vec::new(),
        }
    }

    /// Whether the desktop app was running on the last tick.
    pub fn app_running(&self) -> (r: bool)
        ensures
            r == (self.last_droid_pids@.len() > 0),
    {
        self.last_droid_pids.len() > 0
    }

    /// The catalog of models, as of the last scan.
    pub fn models(&self) -> (r: &[FactoryModel])
        ensures
            r@ == self.cached_models@,
    {
        self.cached_models.as_slice()
    }

    /// The missions, as of the last scan.
    pub fn missions(&self) -> (r: &[FactoryMission])
        ensures
            r@ == self.cached_missions@,
    {
        self.cached_missions.as_slice()
    }

    /// The findings of the validation, as of the last scan.
    pub fn issues(&self) -> (r: &[FactoryConfigIssue])
        ensures
            r@ == self.cached_issues@,
    {
        self.cached_issues.as_slice()
    }

    /// The directories that the collector reads: the workspace, where it is active.
    pub fn discovered_config_dirs(&self) -> (r: Vec<PathBuf>)
        ensures
            r@ == (if self.active && self.root is Some {
                seq![self.root->0]
            } else {
                Seq::empty()
            }),
    {
        let mut dirs: Vec<PathBuf> = Vec::new();
        if self.active {
            if let Some(root) = &self.root {
                dirs.push(root.clone());
            }
        }
        dirs
    }

    /// Best-effort detection of a running desktop app.
    pub fn find_droid_pids(process_info: &HashMap<u32, ProcInfo>) -> (r: Vec<u32>)
        ensures
            are_droid_pids(r@, process_info@),
    {
        broadcast use vstd::std_specs::hash::group_hash_axioms;

        let mut pids: Vec<u32> = Vec::new();
        let ghost m = process_info@;
        for entry in it: process_info.iter()
            invariant
                m == process_info@,
                it.seq().no_duplicates(),
                forall|i: int|
                    0 <= i < it.seq().len() ==> m.contains_key(*(#[trigger] it.seq()[i]).0)
                        && m[*it.seq()[i].0] == *it.seq()[i].1,
                forall|k: u32| #[trigger] m.contains_key(k) ==> it.seq().contains((&k, &m[k])),
                pids@.no_duplicates(),
                forall|pid: u32| #[trigger]
                    pids@.contains(pid) <==> exists|j: int|
                        0 <= j < it.index() && *(#[trigger] it.seq()[j]).0 == pid
                            && is_droid_command(m[pid].command@),
        {
            let (pid, info) = entry;
            let ghost prior = pids@;
            let ghost at = it.index();
            proof {
                assert(it.seq()[at] == (pid, info));
                if prior.contains(*pid) {
                    let j = choose|j: int|
                        0 <= j < at && *(#[trigger] it.seq()[j]).0 == *pid && is_droid_command(
                            m[*pid].command@,
                        );
                    assert(it.seq()[j] == it.seq()[at]);
                }
            }
            if is_droid(info.command.as_str()) {
                pids.push(*pid);
            }
            proof {
                assert forall|x: u32| #[trigger]
                    pids@.contains(x) <==> exists|j: int|
                        0 <= j < at + 1 && *(#[trigger] it.seq()[j]).0 == x && is_droid_command(
                            m[x].command@,
                        ) by {
                    if prior.contains(x) {
                        let k = choose|k: int| 0 <= k < prior.len() && prior[k] == x;
                        assert(pids@[k] == x);
                        let j = choose|j: int|
                            0 <= j < at && *(#[trigger] it.seq()[j]).0 == x && is_droid_command(
                                m[x].command@,
                            );
                        assert(*it.seq()[j].0 == x);
                    }
                    if x == *pid && is_droid_command(m[x].command@) {
                        assert(pids@[prior.len() as int] == x);
                        assert(*it.seq()[at].0 == x);
                    }
                }
            }
        }
        proof {
            assert forall|pid: u32| #[trigger]
                pids@.contains(pid) <==> m.contains_key(pid) && is_droid_command(
                    m[pid].command@,
                ) by {
            }
        }
        pids
    }

    /// The freshest sign of life of an entry.
    pub fn live_mtime(&self, entry: &IndexEntry) -> (r: u64)
        ensures
            r == live_mtime_of(self@.memory.mtimes, entry@),
    {
        match self.cached_settings_mtimes.get(entry.session_id.as_str()) {
            Some(stamp) => if *stamp > entry.mtime_ms {
                *stamp
            } else {
                entry.mtime_ms
            },
            None => entry.mtime_ms,
        }
    }

    /// The sessions whose settings files are to be read at the time `now`.
    pub fn settings_wanted_ids_at(&self, now: u64) -> (r: IdSet)
        ensures
            r@ == wanted_ids(self@.memory, now),
    {
        let ghost c = self@.memory;
        let mut live = IdSet::new();
        let mut wanted = IdSet::new();
        for i in 0..self.cached_index.len()
            invariant
                c == self@.memory,
                wanted@ == live@,
                forall|id: Seq<char>| #[trigger]
                    live@.contains(id) <==> is_live_by(c, now, id, i as int),
        {
            let e = &self.cached_index[i];
            let ghost prior = live@;
            proof {
                assert(c.index[i as int] == e@);
            }
            if now.saturating_sub(self.live_mtime(e)) < LIVE_WINDOW_MS {
                live.insert(e.session_id.clone());
                wanted.insert(e.session_id.clone());
                if let Some(parent) = &e.calling_session_id {
                    live.insert(parent.clone());
                    wanted.insert(parent.clone());
                }
            }
            proof {
                assert forall|id: Seq<char>| #[trigger]
                    live@.contains(id) <==> is_live_by(c, now, id, i + 1) by {
                    if prior.contains(id) {
                        let j = choose|j: int|
                            0 <= j < i && is_fresh_entry(c, now, #[trigger] c.index[j]) && (
                            c.index[j].session_id == id || c.index[j].calling_session_id == Some(
                                id,
                            ));
                        assert(is_fresh_entry(c, now, c.index[j]));
                    } else if live@.contains(id) {
                        assert(is_fresh_entry(c, now, c.index[i as int]));
                    }
                }
            }
        }
        proof {
            assert forall|id: Seq<char>| #[trigger] live@.contains(id) <==> is_live_id(
                c,
                now,
                id,
            ) by {
                if is_live_by(c, now, id, c.index.len() as int) {
                    let j = choose|j: int|
                        0 <= j < c.index.len() && is_fresh_entry(c, now, #[trigger] c.index[j]) && (
                        c.index[j].session_id == id || c.index[j].calling_session_id == Some(id));
                    assert(is_fresh_entry(c, now, c.index[j]));
                }
                if is_live_id(c, now, id) {
                    let j = choose|j: int|
                        0 <= j < c.index.len() && is_fresh_entry(c, now, #[trigger] c.index[j]) && (
                        c.index[j].session_id == id || c.index[j].calling_session_id == Some(id));
                    assert(is_fresh_entry(c, now, c.index[j]));
                }
            }
        }
        for i in 0..self.cached_index.len()
            invariant
                c == self@.memory,
                forall|id: Seq<char>| #[trigger] live@.contains(id) <==> is_live_id(c, now, id),
                forall|id: Seq<char>| #[trigger]
                    wanted@.contains(id) <==> live@.contains(id) || is_kin_by(
                        c,
                        live@,
                        id,
                        i as int,
                    ),
        {
            let e = &self.cached_index[i];
            let ghost prior = wanted@;
            proof {
                assert(c.index[i as int] == e@);
            }
            if let Some(parent) = &e.calling_session_id {
                if live.contains(parent.as_str()) {
                    wanted.insert(e.session_id.clone());
                }
                if live.contains(e.session_id.as_str()) {
                    wanted.insert(parent.clone());
                }
            }
            proof {
                assert forall|id: Seq<char>| #[trigger]
                    wanted@.contains(id) <==> live@.contains(id) || is_kin_by(
                        c,
                        live@,
                        id,
                        i + 1,
                    ) by {
                    if is_kin_by(c, live@, id, i as int) {
                        let j = choose|j: int|
                            0 <= j < i && is_kin(#[trigger] c.index[j], live@, id);
                        assert(is_kin(c.index[j], live@, id));
                    }
                    if !prior.contains(id) && wanted@.contains(id) {
                        assert(is_kin(c.index[i as int], live@, id));
                    }
                }
            }
        }
        proof {
            assert forall|id: Seq<char>| #[trigger] wanted@.contains(id) <==> wanted_ids(
                c,
                now,
            ).contains(id) by {
                let n = c.index.len() as int;
                if is_kin_by(c, live@, id, n) {
                    let j = choose|j: int| 0 <= j < n && is_kin(#[trigger] c.index[j], live@, id);
                    assert(is_kin(c.index[j], live@, id));
                }
                if has_live_worker(c, now, id) {
                    let j = choose|j: int|
                        0 <= j < n && (#[trigger] c.index[j]).calling_session_id == Some(id)
                            && is_live_id(c, now, c.index[j].session_id);
                    assert(is_kin(c.index[j], live@, id));
                }
                if has_live_parent(c, now, id) {
                    let j = choose|j: int|
                        0 <= j < n && (#[trigger] c.index[j]).session_id == id
                            && c.index[j].calling_session_id is Some && is_live_id(
                            c,
                            now,
                            c.index[j].calling_session_id->0,
                        );
                    assert(is_kin(c.index[j], live@, id));
                }
            }
            assert(wanted@ =~= wanted_ids(c, now));
        }
        wanted
    }

    /// The sessions whose settings files are to be read now.
    pub fn settings_wanted_ids(&self) -> (r: IdSet)
        ensures
            exists|now: u64|
                is_clock_time(now) && r@ == #[trigger] wanted_ids(self@.memory, now),
    {
        let now = now_ms();
        self.settings_wanted_ids_at(now)
    }

    /// Starts a tick: looks for the desktop app and tells what to do next.
    pub fn start_tick(&mut self, process_info: &HashMap<u32, ProcInfo>, slow_tick: bool) -> (r:
        TickStep)
        ensures
            r == (if !old(self).active {
                TickStep::Idle
            } else if slow_tick {
                TickStep::Scan
            } else {
                TickStep::Report
            }),
            old(self).wf() ==> final(self).wf(),
            !old(self).active ==> *final(self) == *old(self),
            old(self).active ==> are_droid_pids(final(self).last_droid_pids@, process_info@),
            final(self).root == old(self).root,
            final(self).active == old(self).active,
            final(self).cached_index == old(self).cached_index,
            final(self).cached_models == old(self).cached_models,
            final(self).cached_missions == old(self).cached_missions,
            final(self).cached_issues == old(self).cached_issues,
            final(self).cached_tokens == old(self).cached_tokens,
            final(self).cached_child_tokens == old(self).cached_child_tokens,
            final(self).cached_last_call_usage == old(self).cached_last_call_usage,
            final(self).cached_settings_mtimes == old(self).cached_settings_mtimes,
    {
        if !self.active {
            return TickStep::Idle;
        }
        self.last_droid_pids = Self::find_droid_pids(process_info);
        if slow_tick {
            TickStep::Scan
        } else {
            TickStep::Report
        }
    }

    /// Remembers what was read of the workspace, and when the sessions' settings files were last
    /// changed.
    pub fn apply_scan(&mut self, scan: WorkspaceScan, walk: &SettingsWalk)
        requires
            walk.wf(),
        ensures
            old(self).wf() ==> final(self).wf(),
            is_scan_applied(*old(self), *final(self), scan, walk@),
    {
        let WorkspaceScan { index, files, missions } = scan;
        self.cached_models = read_models(
            text_of(&files.settings),
            text_of(&files.factory_settings),
        );
        self.cached_missions = read_missions(&missions);
        self.cached_issues = validate_config(&files, &missions);
        self.cached_index = index;
        let found = walk.files();
        let mut mtimes: IdMap<u64> = IdMap::new();
        proof {
            assert(mtimes@ =~= change_times(files_by_session(found@, 0)));
        }
        for i in 0..found.len()
            invariant
                mtimes@ == change_times(files_by_session(found@, i as int)),
        {
            mtimes.insert(found[i].session_id.clone(), found[i].mtime_ms);
            proof {
                assert(mtimes@ =~= change_times(files_by_session(found@, i + 1)));
            }
        }
        self.cached_settings_mtimes = mtimes;
    }

    /// Remembers what was read of the workspace and tells of which sessions the settings files are
    /// to be read at the time `now`, by what was just read.
    pub fn refresh_at(&mut self, scan: WorkspaceScan, walk: &SettingsWalk, now: u64) -> (r: IdSet)
        requires
            walk.wf(),
        ensures
            old(self).wf() ==> final(self).wf(),
            is_scan_applied(*old(self), *final(self), scan, walk@),
            r@ == wanted_ids(final(self)@.memory, now),
    {
        self.apply_scan(scan, walk);
        self.settings_wanted_ids_at(now)
    }

    /// Remembers what was read of the workspace and tells of which sessions the settings files are
    /// to be read now, by what was just read.
    pub fn refresh(&mut self, scan: WorkspaceScan, walk: &SettingsWalk) -> (r: IdSet)
        requires
            walk.wf(),
        ensures
            old(self).wf() ==> final(self).wf(),
            is_scan_applied(*old(self), *final(self), scan, walk@),
            exists|now: u64|
                is_clock_time(now) && r@ == #[trigger] wanted_ids(final(self)@.memory, now),
    {
        self.apply_scan(scan, walk);
        self.settings_wanted_ids()
    }

    /// Remembers the token usage of the wanted sessions.
    pub fn apply_tokens(&mut self, files: &Vec<SettingsText>, wanted: &IdSet)
        ensures
            old(self).wf() ==> final(self).wf(),
            final(self).cached_tokens@ == tables_after(
                files@,
                wanted@,
                files@.len() as int,
            ).own,
            final(self).cached_child_tokens@ == tables_after(
                files@,
                wanted@,
                files@.len() as int,
            ).children,
            final(self).cached_last_call_usage@ == tables_after(
                files@,
                wanted@,
                files@.len() as int,
            ).last_call,
            final(self).root == old(self).root,
            final(self).active == old(self).active,
            final(self).cached_index == old(self).cached_index,
            final(self).cached_models == old(self).cached_models,
            final(self).cached_missions == old(self).cached_missions,
            final(self).cached_issues == old(self).cached_issues,
            final(self).cached_settings_mtimes == old(self).cached_settings_mtimes,
            final(self).last_droid_pids == old(self).last_droid_pids,
    {
        let (tokens, child_tokens, last_call) = read_session_tokens(files, wanted);
        self.cached_tokens = tokens;
        self.cached_child_tokens = child_tokens;
        self.cached_last_call_usage = last_call;
    }
}

/// A session's sign of life is the later of its time in the index and that of its settings file.
pub proof fn sign_of_life_is_the_later(mtimes: Map<Seq<char>, u64>, e: EntryView)
    ensures
        live_mtime_of(mtimes, e) >= e.mtime_ms,
        mtimes.contains_key(e.session_id) ==> live_mtime_of(mtimes, e) >= mtimes[e.session_id],
        live_mtime_of(mtimes, e) == e.mtime_ms || (mtimes.contains_key(e.session_id)
            && live_mtime_of(mtimes, e) == mtimes[e.session_id]),
{
}

/// The settings of every live session are wanted, those of the parents of live workers, and those
/// of the workers of live parents, where a session is live by itself or by one of its workers.
pub proof fn families_of_fresh_sessions_are_wanted(c: Memory, now: u64, i: int)
    requires
        0 <= i < c.index.len(),
    ensures
        is_fresh_entry(c, now, c.index[i]) ==> wanted_ids(c, now).contains(c.index[i].session_id),
        is_live_id(c, now, c.index[i].session_id) ==> wanted_ids(c, now).contains(
            c.index[i].session_id,
        ),
        (is_fresh_entry(c, now, c.index[i]) || is_live_id(c, now, c.index[i].session_id))
            && c.index[i].calling_session_id is Some ==> wanted_ids(c, now).contains(
            c.index[i].calling_session_id->0,
        ),
        c.index[i].calling_session_id is Some && is_live_id(
            c,
            now,
            c.index[i].calling_session_id->0,
        ) ==> wanted_ids(c, now).contains(c.index[i].session_id),
{
    let e = c.index[i];
    if is_fresh_entry(c, now, e) {
        assert(fresh_ids(c, now).contains(e.session_id));
    }
}

/// Nothing is wanted that the index does not mention, and nothing at all where no session is
/// fresh.
pub proof fn only_indexed_sessions_are_wanted(c: Memory, now: u64, id: Seq<char>)
    requires
        wanted_ids(c, now).contains(id),
    ensures
        exists|i: int|
            0 <= i < c.index.len() && ((#[trigger] c.index[i]).session_id == id
                || c.index[i].calling_session_id == Some(id)),
        exists|i: int| 0 <= i < c.index.len() && is_fresh_entry(c, now, #[trigger] c.index[i]),
{
}

/// Who is wanted is a matter of the entries of the index, not of their order, nor of how often
/// one is listed.
pub proof fn wanted_sessions_do_not_depend_on_order(a: Memory, b: Memory, now: u64)
    requires
        a.mtimes == b.mtimes,
        forall|e: EntryView| #[trigger] a.index.contains(e) <==> b.index.contains(e),
    ensures
        wanted_ids(a, now) == wanted_ids(b, now),
{
    lemma_wanted_grow(a, now, b, now);
    lemma_wanted_grow(b, now, a, now);
    assert(wanted_ids(a, now) =~= wanted_ids(b, now));
}

/// The passing of time makes no session wanted.
pub proof fn time_makes_no_session_wanted(c: Memory, now: u64, later: u64)
    requires
        now <= later,
    ensures
        wanted_ids(c, later).subset_of(wanted_ids(c, now)),
{
    lemma_wanted_grow(c, later, c, now);
}

proof fn lemma_wanted_grow(a: Memory, at: u64, b: Memory, bt: u64)
    requires
        forall|e: EntryView| #[trigger] a.index.contains(e) ==> b.index.contains(e),
        forall|e: EntryView| #[trigger] is_fresh_entry(a, at, e) ==> is_fresh_entry(b, bt, e),
    ensures
        wanted_ids(a, at).subset_of(wanted_ids(b, bt)),
{
    assert forall|i: int| 0 <= i < a.index.len() implies exists|j: int|
        0 <= j < b.index.len() && b.index[j] == #[trigger] a.index[i] by {
        assert(a.index.contains(a.index[i]));
    }
    assert forall|id: Seq<char>| #[trigger] fresh_ids(a, at).contains(id) implies fresh_ids(
        b,
        bt,
    ).contains(id) by {
        let i = choose|i: int|
            0 <= i < a.index.len() && (#[trigger] a.index[i]).session_id == id && is_fresh_entry(
                a,
                at,
                a.index[i],
            );
        let j = choose|j: int| 0 <= j < b.index.len() && b.index[j] == a.index[i];
        assert(b.index[j].session_id == id);
    }
    assert forall|id: Seq<char>| #[trigger] has_fresh_worker(a, at, id) implies has_fresh_worker(
        b,
        bt,
        id,
    ) by {
        let i = choose|i: int|
            0 <= i < a.index.len() && (#[trigger] a.index[i]).calling_session_id == Some(id)
                && is_fresh_entry(a, at, a.index[i]);
        let j = choose|j: int| 0 <= j < b.index.len() && b.index[j] == a.index[i];
        assert(b.index[j].calling_session_id == Some(id));
    }
    assert forall|id: Seq<char>| #[trigger] has_live_worker(a, at, id) implies has_live_worker(
        b,
        bt,
        id,
    ) by {
        let i = choose|i: int|
            0 <= i < a.index.len() && (#[trigger] a.index[i]).calling_session_id == Some(id)
                && is_live_id(a, at, a.index[i].session_id);
        let j = choose|j: int| 0 <= j < b.index.len() && b.index[j] == a.index[i];
        assert(b.index[j].calling_session_id == Some(id));
    }
    assert forall|id: Seq<char>| #[trigger] has_live_parent(a, at, id) implies has_live_parent(
        b,
        bt,
        id,
    ) by {
        let i = choose|i: int|
            0 <= i < a.index.len() && (#[trigger] a.index[i]).session_id == id
                && a.index[i].calling_session_id is Some && is_live_id(
                a,
                at,
                a.index[i].calling_session_id->0,
            );
        let j = choose|j: int| 0 <= j < b.index.len() && b.index[j] == a.index[i];
        assert(b.index[j].session_id == id);
    }
}

/// Whether an entry shows a sign of life less than `within` milliseconds before `now`, or later:
/// by its time in the index, or by that of its settings file.
pub open spec fn shows_life(c: Memory, e: EntryView, now: u64, within: int) -> bool {
    now < e.mtime_ms + within || (c.mtimes.contains_key(e.session_id) && now
        < c.mtimes[e.session_id] + within)
}

/// An entry is fresh where it shows a sign of life less than ten minutes before, and its age is
/// that of its latest sign of life.
pub proof fn ages_are_those_of_signs_of_life(c: Memory, e: EntryView, now: u64, within: int)
    requires
        within > 0,
    ensures
        age_of(now, live_mtime_of(c.mtimes, e)) < within <==> shows_life(c, e, now, within),
        is_fresh_entry(c, now, e) <==> shows_life(c, e, now, 600_000),
{
}

/// Whether an entry shows that the session with the given id lives: it is fresh, and is that
/// session or one of its workers.
pub open spec fn keeps_alive(c: Memory, now: u64, e: EntryView, id: Seq<char>) -> bool {
    shows_life(c, e, now, 600_000) && (e.session_id == id || e.calling_session_id == Some(id))
}

/// Whether some entry of the index shows that the session with the given id lives.
pub open spec fn lives(c: Memory, now: u64, id: Seq<char>) -> bool {
    exists|i: int| 0 <= i < c.index.len() && keeps_alive(c, now, #[trigger] c.index[i], id)
}

/// Whether an entry is a worker of a session that lives and has the given id, or has the session
/// with the given id as its parent and lives itself.
pub open spec fn is_family(c: Memory, now: u64, e: EntryView, id: Seq<char>) -> bool {
    match e.calling_session_id {
        Some(parent) => (e.session_id == id && lives(c, now, parent)) || (parent == id && lives(
            c,
            now,
            e.session_id,
        )),
        None => false,
    }
}

/// The settings of a session are wanted where, and only where, it lives, works for one that lives,
/// or has a worker that lives; where a session lives if it or one of its workers shows a sign of
/// life less than ten minutes before.
pub proof fn wanted_sessions_live_or_are_family(c: Memory, now: u64, id: Seq<char>)
    ensures
        wanted_ids(c, now).contains(id) <==> lives(c, now, id) || exists|i: int|
            0 <= i < c.index.len() && is_family(c, now, #[trigger] c.index[i], id),
{
    let n = c.index.len() as int;
    assert forall|x: Seq<char>| #[trigger] lives(c, now, x) <==> is_live_id(c, now, x) by {
        lemma_lives(c, now, x);
    }
    if has_live_worker(c, now, id) {
        let i = choose|i: int|
            0 <= i < n && (#[trigger] c.index[i]).calling_session_id == Some(id) && is_live_id(
                c,
                now,
                c.index[i].session_id,
            );
        lemma_lives(c, now, c.index[i].session_id);
        assert(is_family(c, now, c.index[i], id));
    }
    if has_live_parent(c, now, id) {
        let i = choose|i: int|
            0 <= i < n && (#[trigger] c.index[i]).session_id == id
                && c.index[i].calling_session_id is Some && is_live_id(
                c,
                now,
                c.index[i].calling_session_id->0,
            );
        lemma_lives(c, now, c.index[i].calling_session_id->0);
        assert(is_family(c, now, c.index[i], id));
    }
    if exists|i: int| 0 <= i < n && is_family(c, now, #[trigger] c.index[i], id) {
        let i = choose|i: int| 0 <= i < n && is_family(c, now, #[trigger] c.index[i], id);
        lemma_lives(c, now, c.index[i].session_id);
        lemma_lives(c, now, c.index[i].calling_session_id->0);
        assert(c.index[i].calling_session_id is Some);
    }
    lemma_lives(c, now, id);
}

proof fn lemma_lives(c: Memory, now: u64, id: Seq<char>)
    ensures
        lives(c, now, id) <==> is_live_id(c, now, id),
{
    if lives(c, now, id) {
        let i = choose|i: int|
            0 <= i < c.index.len() && keeps_alive(c, now, #[trigger] c.index[i], id);
        ages_are_those_of_signs_of_life(c, c.index[i], now, 600_000);
        assert(is_fresh_entry(c, now, c.index[i]));
    }
    if is_live_id(c, now, id) {
        let i = choose|i: int|
            0 <= i < c.index.len() && is_fresh_entry(c, now, #[trigger] c.index[i]) && (
            c.index[i].session_id == id || c.index[i].calling_session_id == Some(id));
        ages_are_those_of_signs_of_life(c, c.index[i], now, 600_000);
        assert(keeps_alive(c, now, c.index[i], id));
    }
}

/// A command line is one of the desktop app where, with the ASCII capitals turned into small
/// letters, it holds `droid` or `factory`.
pub proof fn droid_commands_hold_a_name(command: Seq<char>)
    ensures
        is_droid_command(command) <==> (exists|a: Seq<char>, b: Seq<char>|
            ascii_lower_of(command) == #[trigger] (a + "droid"@ + b)) || (exists|
            a: Seq<char>,
            b: Seq<char>,
        | ascii_lower_of(command) == #[trigger] (a + "factory"@ + b)),
{
    occurrences_part_a_text(ascii_lower_of(command), "droid"@);
    occurrences_part_a_text(ascii_lower_of(command), "factory"@);
}

/// The processes of the desktop app are all those with such a command line, each once.
pub proof fn droid_processes_are_all_found(
    pids: Seq<u32>,
    processes: Map<u32, ProcInfo>,
    pid: u32,
)
    requires
        are_droid_pids(pids, processes),
    ensures
        (exists|i: int| 0 <= i < pids.len() && #[trigger] pids[i] == pid) <==> (
        processes.contains_key(pid) && is_droid_command(processes[pid].command@)),
        forall|i: int, j: int|
            0 <= i < j < pids.len() ==> #[trigger] pids[i] != #[trigger] pids[j],
{
    if exists|i: int| 0 <= i < pids.len() && #[trigger] pids[i] == pid {
        assert(pids.contains(pid));
    }
    if pids.contains(pid) {
        let i = choose|i: int| 0 <= i < pids.len() && pids[i] == pid;
        assert(pids[i] == pid);
    }
}

/// The times of settings files are those that were found, one for each session with a file; the
/// text of a file is there where it was read.
pub proof fn times_and_texts_are_those_that_were_found(
    files: Map<Seq<char>, (PathBuf, u64)>,
    id: Seq<char>,
    t: Seq<char>,
    e: Seq<char>,
)
    ensures
        change_times(files).contains_key(id) <==> files.contains_key(id),
        files.contains_key(id) ==> change_times(files)[id] == files[id].1,
        readable_text(FileTextView::Text(t)) == Some(t),
        readable_text(FileTextView::Missing) is None,
        readable_text(FileTextView::Unreadable(e)) is None,
{
}

/// After a scan the collector remembers what was read, in place of what it remembered before: the
/// index, the catalog of the two catalog files, the missions, the findings and the times of the
/// settings files. It keeps all else.
pub proof fn scans_replace_what_was_read(
    before: FactoryCollector,
    after: FactoryCollector,
    scan: WorkspaceScan,
    walk: SettingsWalkView,
)
    requires
        is_scan_applied(before, after, scan, walk),
    ensures
        after@.memory.index == scan.index@.map_values(|e: IndexEntry| e@),
        after@.memory.models == catalog_of(
            parsed(readable_text(scan.files.settings@)),
            parsed(readable_text(scan.files.factory_settings@)),
        ),
        after@.memory.missions.len() == ordered_directories(scan.missions@).len(),
        forall|i: int|
            0 <= i < after@.memory.missions.len() ==> #[trigger] after@.memory.missions[i]
                == mission_in(ordered_directories(scan.missions@)[i]),
        after@.issues == reported_issues(parsed_config(scan.files, scan.missions@)),
        after@.memory.mtimes == change_times(walk.found),
        after@.memory.tokens == before@.memory.tokens,
        after@.memory.child_tokens == before@.memory.child_tokens,
        after@.memory.last_call == before@.memory.last_call,
        after@.root == before@.root,
        after@.active == before@.active,
        after@.droid_pids == before@.droid_pids,
{
}

/// The view of a collector shows its fields as they are.
pub proof fn collector_views_show_the_fields(c: FactoryCollector)
    ensures
        c@.root == c.root,
        c@.active == c.active,
        c@.droid_pids == c.last_droid_pids@,
        c@.issues == c.cached_issues@.map_values(|x: FactoryConfigIssue| x@),
        c@.memory.index == c.cached_index@.map_values(|e: IndexEntry| e@),
        c@.memory.models == c.cached_models@.map_values(|m: FactoryModel| m@),
        c@.memory.missions == c.cached_missions@.map_values(|m: FactoryMission| m@),
        c@.memory.tokens == c.cached_tokens@,
        c@.memory.child_tokens == c.cached_child_tokens@,
        c@.memory.last_call == c.cached_last_call_usage@,
        c@.memory.mtimes == c.cached_settings_mtimes@,
{
}

/// An active collector knows its workspace directory.
pub proof fn active_collectors_have_a_directory(c: FactoryCollector)
    ensures
        c.wf() <==> (c.active ==> c.root is Some),
{
}

} // verus!
