//! The report: the live sessions of the workspace, with their workers.

use vstd::prelude::*;

use crate::catalog::{FactoryModel, ModelView};
use crate::clock::{is_clock_time, now_ms};
use crate::collector::{
    age_of, ages_are_those_of_signs_of_life, families_of_fresh_sessions_are_wanted, is_fresh,
    is_fresh_entry, live_mtime_of, shows_life, time_makes_no_session_wanted, wanted_ids,
    FactoryCollector, Memory,
};
use crate::index::{
    current_tasks, live_status, mission_from_tags, status_of, subagent_name, task_of, worker_name,
    EntryView, IndexEntry, SessionStatus, EXECUTING_MS, LIVE_WINDOW_MS,
};
use crate::missions::{FactoryMission, MissionView};
use crate::order::{
    is_ranking, lemma_filter_contains, lemma_filter_filter, lemma_filter_multiset,
    lemma_filter_none, lemma_filter_ordered, lemma_filter_step, lemma_sort_contains,
    lemma_sort_map, rank, same_rank, sort_by, sort_ranked, sorting_is_stable, sorting_orders,
    sorting_permutes, views, Ranked,
};
use crate::session::{AgentSession, SessionView, SubAgent, SubAgentView};
use crate::text::{base_name, base_name_of, str_eq};
use crate::tokens::{
    last_call_of, no_call, no_usage, own_usage_is_that_of_the_file, settings_document,
    tables_after, usage_of, LastCallUsage, SessionTokenUsage, SettingsText,
};

verus! {

/// Whether the entry is a worker of the session with the given id.
pub open spec fn is_worker_of(e: EntryView, id: Seq<char>) -> bool {
    e.calling_session_id == Some(id)
}

/// The entries of sessions that work for no other one.
pub open spec fn parents_of(index: Seq<EntryView>) -> Seq<EntryView> {
    index.filter(|e: EntryView| e.calling_session_id is None)
}

/// The later of two times.
pub open spec fn later(a: u64, b: u64) -> u64 {
    if a >= b {
        a
    } else {
        b
    }
}

/// The latest sign of life of the workers of a session among the first `n` entries; zero where
/// there are none.
pub open spec fn newest_worker(c: Memory, id: Seq<char>, n: int) -> u64
    decreases n,
{
    if n <= 0 {
        0
    } else if is_worker_of(c.index[n - 1], id) {
        later(newest_worker(c, id, n - 1), live_mtime_of(c.mtimes, c.index[n - 1]))
    } else {
        newest_worker(c, id, n - 1)
    }
}

/// The latest sign of life of a session or one of its workers.
pub open spec fn sign_of_life(c: Memory, parent: EntryView) -> u64 {
    later(
        live_mtime_of(c.mtimes, parent),
        newest_worker(c, parent.session_id, c.index.len() as int),
    )
}

/// Whether a session is live: it or one of its workers shows a recent sign of life.
pub open spec fn is_live(c: Memory, now: u64, parent: EntryView) -> bool {
    is_fresh(now, sign_of_life(c, parent))
}

/// The tokens of a worker, as its parent records them; zero where it does not.
pub open spec fn worker_tokens(c: Memory, w: EntryView) -> int {
    if c.child_tokens.contains_key(w.session_id) {
        c.child_tokens[w.session_id].sum()
    } else {
        0
    }
}

/// A worker as it is reported.
pub open spec fn subagent_of(c: Memory, now: u64, w: EntryView) -> SubAgentView {
    SubAgentView {
        name: worker_name(w.title),
        status: if age_of(now, live_mtime_of(c.mtimes, w)) < EXECUTING_MS {
            "working"@
        } else {
            "idle"@
        },
        tokens: worker_tokens(c, w),
    }
}

/// Whether the entry is a worker of the session with the given id that is reported with it.
pub open spec fn is_attached(c: Memory, now: u64, id: Seq<char>, w: EntryView) -> bool {
    is_worker_of(w, id) && is_fresh_entry(c, now, w)
}

/// The workers that are reported with a session: those with a recent sign of life.
pub open spec fn subagents_of(c: Memory, now: u64, id: Seq<char>) -> Seq<SubAgentView> {
    c.index.filter(|w: EntryView| is_attached(c, now, id, w)).map_values(
        |w: EntryView| subagent_of(c, now, w),
    )
}

/// The worker model of the last of the first `n` missions that has the given id and names one.
pub open spec fn worker_model_of(missions: Seq<MissionView>, id: Seq<char>, n: int) -> Option<
    Seq<char>,
>
    decreases n,
{
    if n <= 0 {
        None
    } else if missions[n - 1].mission_id == id && missions[n - 1].worker_model.len() > 0 {
        Some(missions[n - 1].worker_model)
    } else {
        worker_model_of(missions, id, n - 1)
    }
}

/// The name of the first default model from `i` on; empty where there is none.
pub open spec fn default_model_from(models: Seq<ModelView>, i: int) -> Seq<char>
    decreases models.len() - i,
{
    if i >= models.len() {
        Seq::empty()
    } else if models[i].is_default {
        models[i].model
    } else {
        default_model_from(models, i + 1)
    }
}

/// The context limit of the first model from `i` on with the given id or name; zero where there
/// is none.
pub open spec fn context_limit_from(models: Seq<ModelView>, model: Seq<char>, i: int) -> u64
    decreases models.len() - i,
{
    if i >= models.len() {
        0
    } else if models[i].id == model || models[i].model == model {
        models[i].max_context_limit
    } else {
        context_limit_from(models, model, i + 1)
    }
}

/// The model of a session: the worker model of its mission, else the default model.
pub open spec fn session_model(c: Memory, parent: EntryView) -> Seq<char> {
    let of_mission = match mission_from_tags(parent.tags, 0) {
        Some(id) => worker_model_of(c.missions, id, c.missions.len() as int),
        None => None,
    };
    match of_mission {
        Some(model) => model,
        None => default_model_from(c.models, 0),
    }
}

/// The token usage of a session.
pub open spec fn own_usage(c: Memory, id: Seq<char>) -> SessionTokenUsage {
    if c.tokens.contains_key(id) {
        c.tokens[id]
    } else {
        no_usage()
    }
}

/// The token usage of the last call of a session.
pub open spec fn call_usage(c: Memory, id: Seq<char>) -> LastCallUsage {
    if c.last_call.contains_key(id) {
        c.last_call[id]
    } else {
        no_call()
    }
}

/// The tokens that the last call took, as far as 64 bits count them.
pub open spec fn context_tokens(call: LastCallUsage) -> int {
    if call.input + call.cache_read <= u64::MAX {
        call.input + call.cache_read
    } else {
        u64::MAX as int
    }
}

/// A session as it is reported.
pub open spec fn session_of(
    c: Memory,
    now: u64,
    config_root: Seq<char>,
    parent: EntryView,
) -> SessionView {
    let age = age_of(now, sign_of_life(c, parent));
    let usage = own_usage(c, parent.session_id);
    SessionView {
        agent_cli: "factory"@,
        pid: 0,
        session_id: parent.session_id,
        cwd: parent.cwd,
        project_name: base_name_of(parent.cwd),
        started_at: live_mtime_of(c.mtimes, parent),
        status: status_of(age),
        model: session_model(c, parent),
        effort: Seq::empty(),
        context_used: context_tokens(call_usage(c, parent.session_id)),
        total_input_tokens: usage.input,
        total_output_tokens: usage.output,
        total_cache_read: usage.cache_read,
        total_cache_create: usage.cache_create,
        turn_count: parent.messages_count as int % 0x1_0000_0000,
        current_tasks: seq![task_of(parent.tags, age)],
        mem_mb: 0,
        version: Seq::empty(),
        git_branch: Seq::empty(),
        git_added: 0,
        git_modified: 0,
        token_history: Seq::empty(),
        context_history: Seq::empty(),
        compaction_count: 0,
        context_window: context_limit_from(c.models, session_model(c, parent), 0),
        subagents: subagents_of(c, now, parent.session_id),
        mem_file_count: 0,
        mem_line_count: 0,
        children: Seq::empty(),
        initial_prompt: parent.title,
        first_assistant_text: Seq::empty(),
        chat_messages: Seq::empty(),
        tool_calls: Seq::empty(),
        pending_since_ms: 0,
        thinking_since_ms: 0,
        file_accesses: Seq::empty(),
        config_root,
    }
}

/// Whether `a` shows a later sign of life than `b`.
pub open spec fn fresher(mtimes: Map<Seq<char>, u64>, a: EntryView, b: EntryView) -> bool {
    live_mtime_of(mtimes, a) > live_mtime_of(mtimes, b)
}

/// The sessions that work for no other one, the freshest first; those of the same time stay in
/// the order of the index.
pub open spec fn ordered_parents(c: Memory) -> Seq<EntryView> {
    sort_by(parents_of(c.index), |a: EntryView, b: EntryView| fresher(c.mtimes, a, b))
}

/// The entries that are reported as sessions.
pub open spec fn reported_entries(c: Memory, now: u64) -> Seq<EntryView> {
    ordered_parents(c).filter(|p: EntryView| is_live(c, now, p))
}

/// The report.
pub open spec fn sessions_of(c: Memory, now: u64, config_root: Seq<char>) -> Seq<
    SessionView,
> {
    reported_entries(c, now).map_values(|p: EntryView| session_of(c, now, config_root, p))
}

/// Whether the tokens of the worker at `w` can be counted in 64 bits, where it is reported with
/// the session at `p`.
pub open spec fn is_countable_pair(c: Memory, now: u64, p: int, w: int) -> bool {
    let parent = c.index[p];
    let worker = c.index[w];
    parent.calling_session_id is None && is_attached(c, now, parent.session_id, worker)
        && c.child_tokens.contains_key(worker.session_id)
        ==> c.child_tokens[worker.session_id].fits()
}

/// Whether the tokens of every worker that is reported can be counted in 64 bits.
pub open spec fn is_countable(c: Memory, now: u64) -> bool {
    forall|p: int, w: int|
        0 <= p < c.index.len() && 0 <= w < c.index.len() ==> #[trigger] is_countable_pair(
            c,
            now,
            p,
            w,
        )
}

/// An entry with its sign of life.
struct DatedEntry<'a> {
    entry: &'a IndexEntry,
    stamp: u64,
}

impl<'a> View for DatedEntry<'a> {
    type V = (EntryView, u64);

    closed spec fn view(&self) -> (EntryView, u64) {
        (self.entry@, self.stamp)
    }
}

impl<'a> Ranked for DatedEntry<'a> {
    closed spec fn ranks_before(a: (EntryView, u64), b: (EntryView, u64)) -> bool {
        a.1 > b.1
    }

    fn is_before(&self, other: &Self) -> (r: bool) {
        self.stamp > other.stamp
    }
}

/// The low 32 bits of a count.
fn low_count(n: u64) -> (r: u32)
    ensures
        r == n as int % 0x1_0000_0000,
{
    let low: u64 = n % 0x1_0000_0000;
    low as u32
}

/// Whether an entry is a worker of the session with the given id.
fn works_for(e: &IndexEntry, id: &str) -> (r: bool)
    ensures
        r == is_worker_of(e@, id@),
{
    match &e.calling_session_id {
        Some(parent) => str_eq(parent.as_str(), id),
        None => false,
    }
}

/// The worker model of the mission with the given id, where it names one.
fn find_worker_model<'a>(missions: &'a Vec<FactoryMission>, id: &str) -> (r: Option<&'a str>)
    ensures
        match r {
            Some(m) => worker_model_of(views(missions@), id@, missions@.len() as int) == Some(m@),
            None => worker_model_of(views(missions@), id@, missions@.len() as int) is None,
        },
{
    let mut k: usize = missions.len();
    while k > 0
        invariant
            k <= missions@.len(),
            worker_model_of(views(missions@), id@, missions@.len() as int) == worker_model_of(
                views(missions@),
                id@,
                k as int,
            ),
        decreases k,
    {
        let m = &missions[k - 1];
        if str_eq(m.mission_id.as_str(), id) && !m.worker_model.as_str().is_empty() {
            return Some(m.worker_model.as_str());
        }
        k -= 1;
    }
    None
}

/// The name of the default model; empty where there is none.
fn find_default_model(models: &Vec<FactoryModel>) -> (r: String)
    ensures
        r@ == default_model_from(views(models@), 0),
{
    for i in 0..models.len()
        invariant
            default_model_from(views(models@), 0) == default_model_from(views(models@), i as int),
    {
        if models[i].is_default {
            return models[i].model.clone();
        }
    }
    String::new()
}

/// The context limit of the model with the given id or name; zero where it is not listed.
fn find_context_limit(models: &Vec<FactoryModel>, model: &str) -> (r: u64)
    ensures
        r == context_limit_from(views(models@), model@, 0),
{
    for i in 0..models.len()
        invariant
            context_limit_from(views(models@), model@, 0) == context_limit_from(
                views(models@),
                model@,
                i as int,
            ),
    {
        if str_eq(models[i].id.as_str(), model) || str_eq(models[i].model.as_str(), model) {
            return models[i].max_context_limit;
        }
    }
    0
}

impl FactoryCollector {
    /// The workers of a session that are reported with it, and the latest sign of life of all
    /// its workers.
    fn workers_of(&self, id: &str, now: u64) -> (r: (Vec<SubAgent>, u64))
        requires
            forall|w: int|
                0 <= w < self@.memory.index.len() && is_attached(
                    self@.memory,
                    now,
                    id@,
                    #[trigger] self@.memory.index[w],
                )
                    && self@.memory.child_tokens.contains_key(self@.memory.index[w].session_id)
                    ==> self@.memory.child_tokens[self@.memory.index[w].session_id].fits(),
        ensures
            views(r.0@) == subagents_of(self@.memory, now, id@),
            r.1 == newest_worker(self@.memory, id@, self@.memory.index.len() as int),
    {
        let ghost c = self@.memory;
        let ghost keep = |w: EntryView| is_attached(c, now, id@, w);
        let ghost show = |w: EntryView| subagent_of(c, now, w);
        let mut subagents: Vec<SubAgent> = Vec::new();
        let mut newest: u64 = 0;
        proof {
            reveal(Seq::filter);
            assert(views(subagents@) =~= c.index.take(0).filter(keep).map_values(show));
        }
        for i in 0..self.cached_index.len()
            invariant
                c == self@.memory,
                keep == (|w: EntryView| is_attached(c, now, id@, w)),
                show == (|w: EntryView| subagent_of(c, now, w)),
                forall|w: int|
                    0 <= w < c.index.len() && is_attached(c, now, id@, #[trigger] c.index[w])
                        && c.child_tokens.contains_key(c.index[w].session_id)
                        ==> c.child_tokens[c.index[w].session_id].fits(),
                views(subagents@) == c.index.take(i as int).filter(keep).map_values(show),
                newest == newest_worker(c, id@, i as int),
        {
            let worker = &self.cached_index[i];
            let ghost prior = views(subagents@);
            proof {
                assert(c.index[i as int] == worker@);
                lemma_filter_step(c.index, keep, i as int);
            }
            if works_for(worker, id) {
                let stamp = self.live_mtime(worker);
                let age = now.saturating_sub(stamp);
                if stamp > newest {
                    newest = stamp;
                }
                if age < LIVE_WINDOW_MS {
                    let status = if age < EXECUTING_MS {
                        "working"
                    } else {
                        "idle"
                    };
                    let tokens: u64 = match self.cached_child_tokens.get(
                        worker.session_id.as_str(),
                    ) {
                        Some(usage) => usage.total(),
                        None => 0,
                    };
                    subagents.push(
                        SubAgent {
                            name: subagent_name(worker),
                            status: status.to_owned(),
                            tokens,
                        },
                    );
                    proof {
                        assert(keep(worker@));
                        assert(views(subagents@) =~= prior.push(show(worker@)));
                        assert(prior.push(show(worker@)) =~= c.index.take(i as int).filter(
                            keep,
                        ).push(worker@).map_values(show));
                    }
                }
            }
        }
        proof {
            assert(c.index.take(c.index.len() as int) =~= c.index);
        }
        (subagents, newest)
    }

    /// The model of a session: the worker model of its mission, else the default model.
    fn model_of_session(&self, parent: &IndexEntry) -> (r: String)
        ensures
            r@ == session_model(self@.memory, parent@),
    {
        if let Some(id) = parent.mission_id() {
            if let Some(model) = find_worker_model(&self.cached_missions, id) {
                return model.to_owned();
            }
        }
        find_default_model(&self.cached_models)
    }

    /// The session of an entry, where it is live.
    fn report_entry(&self, parent: &IndexEntry, now: u64, config_root: &str) -> (r: Option<
        AgentSession,
    >)
        requires
            forall|w: int|
                0 <= w < self@.memory.index.len() && is_attached(
                    self@.memory,
                    now,
                    parent@.session_id,
                    #[trigger] self@.memory.index[w],
                ) && self@.memory.child_tokens.contains_key(self@.memory.index[w].session_id)
                    ==> self@.memory.child_tokens[self@.memory.index[w].session_id].fits(),
        ensures
            match r {
                Some(s) => is_live(self@.memory, now, parent@) && s@ == session_of(
                    self@.memory,
                    now,
                    config_root@,
                    parent@,
                ),
                None => !is_live(self@.memory, now, parent@),
            },
    {
        let (subagents, newest) = self.workers_of(parent.session_id.as_str(), now);
        let own_stamp = self.live_mtime(parent);
        let stamp: u64 = if own_stamp >= newest {
            own_stamp
        } else {
            newest
        };
        let age = now.saturating_sub(stamp);
        if age >= LIVE_WINDOW_MS {
            return None;
        }
        let model = self.model_of_session(parent);
        let context_window = find_context_limit(&self.cached_models, model.as_str());
        let last_call: LastCallUsage = match self.cached_last_call_usage.get(
            parent.session_id.as_str(),
        ) {
            Some(usage) => *usage,
            None => LastCallUsage { input: 0, cache_read: 0 },
        };
        let tokens: SessionTokenUsage = match self.cached_tokens.get(parent.session_id.as_str()) {
            Some(usage) => *usage,
            None => SessionTokenUsage { input: 0, output: 0, cache_read: 0, cache_create: 0 },
        };
        let session = AgentSession {
            agent_cli: "factory",
            pid: 0,
            session_id: parent.session_id.clone(),
            cwd: parent.cwd.clone(),
            project_name: base_name(parent.cwd.as_str()),
            started_at: own_stamp,
            status: live_status(age),
            model,
            effort: String::new(),
            context_used: last_call.input.saturating_add(last_call.cache_read),
            total_input_tokens: tokens.input,
            total_output_tokens: tokens.output,
            total_cache_read: tokens.cache_read,
            total_cache_create: tokens.cache_create,
            turn_count: low_count(parent.messages_count),
            current_tasks: current_tasks(parent, age),
            mem_mb: 0,
            version: String::new(),
            git_branch: String::new(),
            git_added: 0,
            git_modified: 0,
            token_history: Vec::new(),
            context_history: Vec::new(),
            compaction_count: 0,
            context_window,
            subagents,
            mem_file_count: 0,
            mem_line_count: 0,
            children: Vec::new(),
            initial_prompt: parent.title.clone(),
            first_assistant_text: String::new(),
            chat_messages: Vec::new(),
            tool_calls: Vec::new(),
            pending_since_ms: 0,
            thinking_since_ms: 0,
            file_accesses: Vec::new(),
            config_root: config_root.to_owned(),
        };
        proof {
            assert(session@ =~= session_of(self@.memory, now, config_root@, parent@));
        }
        Some(session)
    }

    /// The sessions that work for no other one, the freshest first.
    fn parents_by_freshness<'a>(&'a self) -> (r: Vec<DatedEntry<'a>>)
        ensures
            views(r@) == ordered_parents(self@.memory).map_values(
                |e: EntryView| (e, live_mtime_of(self@.memory.mtimes, e)),
            ),
    {
        let ghost c = self@.memory;
        let ghost keep = |e: EntryView| e.calling_session_id is None;
        let ghost dated = |e: EntryView| (e, live_mtime_of(c.mtimes, e));
        let mut parents: Vec<DatedEntry<'a>> = Vec::new();
        proof {
            reveal(Seq::filter);
            assert(views(parents@) =~= c.index.take(0).filter(keep).map_values(dated));
        }
        for i in 0..self.cached_index.len()
            invariant
                c == self@.memory,
                keep == (|e: EntryView| e.calling_session_id is None),
                dated == (|e: EntryView| (e, live_mtime_of(c.mtimes, e))),
                views(parents@) == c.index.take(i as int).filter(keep).map_values(dated),
        {
            let entry = &self.cached_index[i];
            let ghost prior = views(parents@);
            proof {
                assert(c.index[i as int] == entry@);
                lemma_filter_step(c.index, keep, i as int);
            }
            if entry.calling_session_id.is_none() {
                let stamp = self.live_mtime(entry);
                parents.push(DatedEntry { entry, stamp });
                proof {
                    assert(views(parents@) =~= prior.push(dated(entry@)));
                    assert(prior.push(dated(entry@)) =~= c.index.take(i as int).filter(keep).push(
                        entry@,
                    ).map_values(dated));
                }
            }
        }
        proof {
            assert(c.index.take(c.index.len() as int) =~= c.index);
            lemma_sort_map(
                parents_of(c.index),
                dated,
                |a: EntryView, b: EntryView| fresher(c.mtimes, a, b),
                rank::<DatedEntry<'a>>(),
            );
        }
        sort_ranked(parents)
    }

    /// The report at the time `now`.
    pub fn build_sessions_at(&self, now: u64, config_root: &str) -> (r: Vec<AgentSession>)
        requires
            is_countable(self@.memory, now),
        ensures
            views(r@) == sessions_of(self@.memory, now, config_root@),
    {
        let ghost c = self@.memory;
        let ghost keep = |p: EntryView| is_live(c, now, p);
        let ghost show = |p: EntryView| session_of(c, now, config_root@, p);
        let ghost all = ordered_parents(c);
        let parents = self.parents_by_freshness();
        let ghost dated = all.map_values(|e: EntryView| (e, live_mtime_of(c.mtimes, e)));
        let mut sessions: Vec<AgentSession> = Vec::new();
        proof {
            reveal(Seq::filter);
            assert(views(sessions@) =~= all.take(0).filter(keep).map_values(show));
        }
        for i in 0..parents.len()
            invariant
                c == self@.memory,
                is_countable(c, now),
                keep == (|p: EntryView| is_live(c, now, p)),
                show == (|p: EntryView| session_of(c, now, config_root@, p)),
                all == ordered_parents(c),
                views(parents@) == dated,
                dated.len() == all.len(),
                forall|k: int| 0 <= k < all.len() ==> (#[trigger] dated[k]).0 == all[k],
                views(sessions@) == all.take(i as int).filter(keep).map_values(show),
        {
            let parent = parents[i].entry;
            let ghost prior = views(sessions@);
            proof {
                assert(views(parents@).len() == parents@.len());
                assert(dated[i as int] == parents@[i as int]@);
                assert(all[i as int] == parent@);
                lemma_filter_step(all, keep, i as int);
                lemma_ordered_parent(c, i as int);
                let p = choose|p: int|
                    0 <= p < c.index.len() && c.index[p] == parent@ && (
                    #[trigger] c.index[p]).calling_session_id is None;
                assert forall|w: int|
                    0 <= w < c.index.len() && is_attached(
                        c,
                        now,
                        parent@.session_id,
                        #[trigger] c.index[w],
                    ) && c.child_tokens.contains_key(
                        c.index[w].session_id,
                    ) implies c.child_tokens[c.index[w].session_id].fits() by {
                    assert(is_countable_pair(c, now, p, w));
                }
            }
            if let Some(session) = self.report_entry(parent, now, config_root) {
                sessions.push(session);
                proof {
                    assert(views(sessions@) =~= prior.push(show(parent@)));
                    assert(prior.push(show(parent@)) =~= all.take(i as int).filter(keep).push(
                        parent@,
                    ).map_values(show));
                }
            }
        }
        proof {
            assert(views(parents@).len() == parents@.len());
            assert(all.take(all.len() as int) =~= all);
        }
        sessions
    }

    /// Whether the tokens of every worker that is reported at the time `now` can be counted in 64
    /// bits.
    pub fn can_count_workers(&self, now: u64) -> (r: bool)
        ensures
            r == is_countable(self@.memory, now),
    {
        let ghost c = self@.memory;
        for p in 0..self.cached_index.len()
            invariant
                c == self@.memory,
                forall|q: int, w: int|
                    0 <= q < p && 0 <= w < c.index.len() ==> #[trigger] is_countable_pair(
                        c,
                        now,
                        q,
                        w,
                    ),
        {
            let parent = &self.cached_index[p];
            proof {
                assert(c.index[p as int] == parent@);
            }
            if parent.calling_session_id.is_none() {
                for w in 0..self.cached_index.len()
                    invariant
                        c == self@.memory,
                        0 <= p < c.index.len(),
                        c.index[p as int] == parent@,
                        parent@.calling_session_id is None,
                        forall|v: int|
                            0 <= v < w ==> #[trigger] is_countable_pair(c, now, p as int, v),
                {
                    let worker = &self.cached_index[w];
                    proof {
                        assert(c.index[w as int] == worker@);
                    }
                    if works_for(worker, parent.session_id.as_str()) && now.saturating_sub(
                        self.live_mtime(worker),
                    ) < LIVE_WINDOW_MS {
                        if let Some(usage) = self.cached_child_tokens.get(
                            worker.session_id.as_str(),
                        ) {
                            if !usage.is_countable() {
                                proof {
                                    assert(!is_countable_pair(c, now, p as int, w as int));
                                }
                                return false;
                            }
                        }
                    }
                }
            }
        }
        true
    }

    /// The report; nothing where the tokens of a worker cannot be counted in 64 bits.
    pub fn build_sessions(&self, config_root: &str) -> (r: Option<Vec<AgentSession>>)
        ensures
            exists|now: u64|
                is_clock_time(now) && match r {
                    Some(sessions) => #[trigger] is_countable(self@.memory, now) && views(sessions@)
                        == sessions_of(self@.memory, now, config_root@),
                    None => !is_countable(self@.memory, now),
                },
    {
        let now = now_ms();
        if self.can_count_workers(now) {
            Some(self.build_sessions_at(now, config_root))
        } else {
            None
        }
    }
}

/// A session in the order of the report is an entry of the index that works for no other one.
proof fn lemma_ordered_parent(c: Memory, i: int)
    requires
        0 <= i < ordered_parents(c).len(),
    ensures
        exists|p: int|
            0 <= p < c.index.len() && c.index[p] == ordered_parents(c)[i] && (
            #[trigger] c.index[p]).calling_session_id is None,
{
    let e = ordered_parents(c)[i];
    let before = |a: EntryView, b: EntryView| fresher(c.mtimes, a, b);
    assert(ordered_parents(c).contains(e));
    lemma_sort_contains(parents_of(c.index), before, e);
    let keep = |e: EntryView| e.calling_session_id is None;
    lemma_filter_contains(c.index, keep, e);
    let p = choose|p: int| 0 <= p < c.index.len() && c.index[p] == e;
    assert(c.index[p].calling_session_id is None);
}

/// A session is reported where, and only where, the index lists it as working for no other one
/// and it or one of its workers shows a recent sign of life.
pub proof fn live_parents_are_reported(c: Memory, now: u64, e: EntryView)
    ensures
        reported_entries(c, now).contains(e) <==> {
            &&& c.index.contains(e)
            &&& e.calling_session_id is None
            &&& is_fresh_entry(c, now, e) || exists|w: int|
                0 <= w < c.index.len() && is_attached(
                    c,
                    now,
                    e.session_id,
                    #[trigger] c.index[w],
                )
        },
{
    let before = |a: EntryView, b: EntryView| fresher(c.mtimes, a, b);
    let n = c.index.len() as int;
    lemma_filter_contains(ordered_parents(c), |p: EntryView| is_live(c, now, p), e);
    lemma_sort_contains(parents_of(c.index), before, e);
    lemma_filter_contains(c.index, |x: EntryView| x.calling_session_id is None, e);
    lemma_newest_worker(c, e.session_id, n);
    if exists|w: int|
        0 <= w < n && is_attached(c, now, e.session_id, #[trigger] c.index[w]) {
        let w = choose|w: int|
            0 <= w < n && is_attached(c, now, e.session_id, #[trigger] c.index[w]);
        assert(live_mtime_of(c.mtimes, c.index[w]) <= newest_worker(c, e.session_id, n));
    }
    if is_live(c, now, e) && !is_fresh_entry(c, now, e) {
        let w = choose|w: int|
            0 <= w < n && is_worker_of(#[trigger] c.index[w], e.session_id) && live_mtime_of(
                c.mtimes,
                c.index[w],
            ) == newest_worker(c, e.session_id, n);
        assert(is_attached(c, now, e.session_id, c.index[w]));
    }
}

/// Each session is reported as often as the index lists it, and no more.
pub proof fn sessions_are_reported_once(c: Memory, now: u64)
    ensures
        reported_entries(c, now).to_multiset() == parents_of(c.index).filter(
            |p: EntryView| is_live(c, now, p),
        ).to_multiset(),
{
    let before = |a: EntryView, b: EntryView| fresher(c.mtimes, a, b);
    let keep = |p: EntryView| is_live(c, now, p);
    sorting_permutes(parents_of(c.index), before);
    lemma_filter_multiset(ordered_parents(c), keep);
    lemma_filter_multiset(parents_of(c.index), keep);
}

/// Sessions are reported by their sign of life, the freshest first.
pub proof fn freshest_sessions_come_first(
    c: Memory,
    now: u64,
    config_root: Seq<char>,
    i: int,
    j: int,
)
    requires
        0 <= i < j < sessions_of(c, now, config_root).len(),
    ensures
        sessions_of(c, now, config_root)[i].started_at >= sessions_of(
            c,
            now,
            config_root,
        )[j].started_at,
{
    let before = |a: EntryView, b: EntryView| fresher(c.mtimes, a, b);
    assert(is_ranking(before));
    sorting_orders(parents_of(c.index), before);
    lemma_filter_ordered(ordered_parents(c), |p: EntryView| is_live(c, now, p), before);
    let all = reported_entries(c, now);
    assert(!before(all[j], all[i]));
}

/// Sessions with the same sign of life stay in the order of the index.
pub proof fn ties_keep_the_order_of_the_index(c: Memory, stamp: u64)
    ensures
        ordered_parents(c).filter(|e: EntryView| live_mtime_of(c.mtimes, e) == stamp)
            == parents_of(c.index).filter(|e: EntryView| live_mtime_of(c.mtimes, e) == stamp),
{
    let before = |a: EntryView, b: EntryView| fresher(c.mtimes, a, b);
    let keep = |e: EntryView| live_mtime_of(c.mtimes, e) == stamp;
    let all = parents_of(c.index);
    assert(is_ranking(before));
    if exists|x: EntryView| live_mtime_of(c.mtimes, x) == stamp {
        let x = choose|x: EntryView| live_mtime_of(c.mtimes, x) == stamp;
        sorting_is_stable(all, before, x);
        assert(keep =~= (|y: EntryView| same_rank(y, x, before)));
    } else {
        lemma_filter_none(all, keep);
        lemma_filter_none(ordered_parents(c), keep);
    }
}

/// The workers that are reported with a session are its workers with a recent sign of life.
pub proof fn fresh_workers_are_attached(
    c: Memory,
    now: u64,
    id: Seq<char>,
    a: SubAgentView,
)
    ensures
        subagents_of(c, now, id).contains(a) <==> exists|w: int|
            0 <= w < c.index.len() && is_attached(c, now, id, #[trigger] c.index[w]) && a
                == subagent_of(c, now, c.index[w]),
{
    let keep = |w: EntryView| is_attached(c, now, id, w);
    let kept = c.index.filter(keep);
    let all = subagents_of(c, now, id);
    if all.contains(a) {
        let k = choose|k: int| 0 <= k < all.len() && all[k] == a;
        assert(kept.contains(kept[k]));
        lemma_filter_contains(c.index, keep, kept[k]);
        let w = choose|w: int| 0 <= w < c.index.len() && c.index[w] == kept[k];
        assert(is_attached(c, now, id, c.index[w]));
    }
    if exists|w: int|
        0 <= w < c.index.len() && is_attached(c, now, id, #[trigger] c.index[w]) && a
            == subagent_of(c, now, c.index[w]) {
        let w = choose|w: int|
            0 <= w < c.index.len() && is_attached(c, now, id, #[trigger] c.index[w]) && a
                == subagent_of(c, now, c.index[w]);
        assert(c.index.contains(c.index[w]));
        lemma_filter_contains(c.index, keep, c.index[w]);
        let k = choose|k: int| 0 <= k < kept.len() && kept[k] == c.index[w];
        assert(all[k] == a);
    }
}

/// The settings of every session that is reported, and of every worker with it, are among those
/// that were wanted at that time or earlier, for the same index.
pub proof fn reported_sessions_are_wanted(
    c: Memory,
    now: u64,
    later: u64,
    e: EntryView,
    w: int,
)
    requires
        now <= later,
        reported_entries(c, later).contains(e),
    ensures
        wanted_ids(c, now).contains(e.session_id),
        0 <= w < c.index.len() && is_attached(c, later, e.session_id, c.index[w]) ==> wanted_ids(
            c,
            now,
        ).contains(c.index[w].session_id),
{
    live_parents_are_reported(c, later, e);
    if is_fresh_entry(c, later, e) {
        let i = choose|i: int| 0 <= i < c.index.len() && c.index[i] == e;
        families_of_fresh_sessions_are_wanted(c, later, i);
    } else {
        let k = choose|k: int|
            0 <= k < c.index.len() && is_attached(c, later, e.session_id, #[trigger] c.index[k]);
        families_of_fresh_sessions_are_wanted(c, later, k);
    }
    if 0 <= w < c.index.len() {
        families_of_fresh_sessions_are_wanted(c, later, w);
    }
    time_makes_no_session_wanted(c, now, later);
}

/// The usage that is reported of a session is the one that its settings file records, where the
/// files of the sessions wanted at that time or earlier were read, one for each session.
pub proof fn reported_usage_is_that_of_the_file(
    c: Memory,
    now: u64,
    later: u64,
    files: Seq<SettingsText>,
    e: EntryView,
    k: int,
)
    requires
        now <= later,
        reported_entries(c, later).contains(e),
        0 <= k < files.len(),
        files[k].session_id@ == e.session_id,
        forall|i: int, j: int|
            0 <= i < j < files.len() ==> (#[trigger] files[i]).session_id@ != (
            #[trigger] files[j]).session_id@,
        c.tokens == tables_after(files, wanted_ids(c, now), files.len() as int).own,
        c.last_call == tables_after(files, wanted_ids(c, now), files.len() as int).last_call,
    ensures
        own_usage(c, e.session_id) == (match usage_of(
            settings_document(files, k).get("tokenUsage"@),
        ) {
            Some(usage) => usage,
            None => no_usage(),
        }),
        call_usage(c, e.session_id) == (match last_call_of(
            settings_document(files, k).get("lastCallTokenUsage"@),
        ) {
            Some(usage) => usage,
            None => no_call(),
        }),
{
    reported_sessions_are_wanted(c, now, later, e, 0);
    own_usage_is_that_of_the_file(files, wanted_ids(c, now), files.len() as int, k);
}

/// The report depends on what was read of the workspace alone: not on the processes that were
/// found, nor on the findings of the validation.
pub proof fn reports_ignore_processes(
    a: FactoryCollector,
    b: FactoryCollector,
    now: u64,
    config_root: Seq<char>,
)
    requires
        a.cached_index == b.cached_index,
        a.cached_models == b.cached_models,
        a.cached_missions == b.cached_missions,
        a.cached_tokens == b.cached_tokens,
        a.cached_child_tokens == b.cached_child_tokens,
        a.cached_last_call_usage == b.cached_last_call_usage,
        a.cached_settings_mtimes == b.cached_settings_mtimes,
    ensures
        sessions_of(a@.memory, now, config_root) == sessions_of(b@.memory, now, config_root),
        is_countable(a@.memory, now) == is_countable(b@.memory, now),
        wanted_ids(a@.memory, now) == wanted_ids(b@.memory, now),
{
}

proof fn lemma_newest_worker(c: Memory, id: Seq<char>, n: int)
    requires
        0 <= n <= c.index.len(),
    ensures
        forall|w: int|
            0 <= w < n && is_worker_of(#[trigger] c.index[w], id) ==> live_mtime_of(
                c.mtimes,
                c.index[w],
            ) <= newest_worker(c, id, n),
        newest_worker(c, id, n) > 0 ==> exists|w: int|
            0 <= w < n && is_worker_of(#[trigger] c.index[w], id) && live_mtime_of(
                c.mtimes,
                c.index[w],
            ) == newest_worker(c, id, n),
    decreases n,
{
    if n > 0 {
        lemma_newest_worker(c, id, n - 1);
        let newest = newest_worker(c, id, n);
        if newest > 0 {
            if newest == newest_worker(c, id, n - 1) {
                let w = choose|w: int|
                    0 <= w < n - 1 && is_worker_of(#[trigger] c.index[w], id) && live_mtime_of(
                        c.mtimes,
                        c.index[w],
                    ) == newest_worker(c, id, n - 1);
                assert(is_worker_of(c.index[w], id));
            } else {
                assert(is_worker_of(c.index[n - 1], id));
            }
        }
    }
}

/// Whether a session or one of its workers shows a sign of life less than `within` milliseconds
/// before `now`, or later.
pub open spec fn family_shows_life(c: Memory, e: EntryView, now: u64, within: int) -> bool {
    shows_life(c, e, now, within) || exists|w: int|
        0 <= w < c.index.len() && (#[trigger] c.index[w]).calling_session_id == Some(e.session_id)
            && shows_life(c, c.index[w], now, within)
}

proof fn lemma_family_age(c: Memory, e: EntryView, now: u64, within: int)
    requires
        0 < within,
    ensures
        age_of(now, sign_of_life(c, e)) < within <==> family_shows_life(c, e, now, within),
{
    let n = c.index.len() as int;
    lemma_newest_worker(c, e.session_id, n);
    ages_are_those_of_signs_of_life(c, e, now, within);
    if exists|w: int|
        0 <= w < n && (#[trigger] c.index[w]).calling_session_id == Some(e.session_id)
            && shows_life(c, c.index[w], now, within) {
        let w = choose|w: int|
            0 <= w < n && (#[trigger] c.index[w]).calling_session_id == Some(e.session_id)
                && shows_life(c, c.index[w], now, within);
        assert(is_worker_of(c.index[w], e.session_id));
        ages_are_those_of_signs_of_life(c, c.index[w], now, within);
    }
    if age_of(now, sign_of_life(c, e)) < within && !shows_life(c, e, now, within) {
        let w = choose|w: int|
            0 <= w < n && is_worker_of(#[trigger] c.index[w], e.session_id) && live_mtime_of(
                c.mtimes,
                c.index[w],
            ) == newest_worker(c, e.session_id, n);
        ages_are_those_of_signs_of_life(c, c.index[w], now, within);
        assert(c.index[w].calling_session_id == Some(e.session_id));
    }
}

/// What is reported is, for each entry of the index that works for no other session and that shows
/// a sign of life less than ten minutes before, by itself or by a worker, one session; those of
/// the same time come in the order of the index.
pub proof fn live_entries_are_reported_in_order(c: Memory, now: u64, stamp: u64)
    ensures
        reported_entries(c, now).filter(|e: EntryView| live_mtime_of(c.mtimes, e) == stamp)
            == c.index.filter(
            |e: EntryView|
                e.calling_session_id is None && family_shows_life(c, e, now, 600_000)
                    && live_mtime_of(c.mtimes, e) == stamp,
        ),
{
    let at = |e: EntryView| live_mtime_of(c.mtimes, e) == stamp;
    let live = |e: EntryView| is_live(c, now, e);
    let alone = |e: EntryView| e.calling_session_id is None;
    let sorted = ordered_parents(c);
    let parents = parents_of(c.index);
    ties_keep_the_order_of_the_index(c, stamp);
    lemma_filter_filter(sorted, live, at);
    lemma_filter_filter(sorted, at, live);
    assert((|e: EntryView| live(e) && at(e)) =~= (|e: EntryView| at(e) && live(e)));
    lemma_filter_filter(parents, at, live);
    let both = |e: EntryView| at(e) && live(e);
    lemma_filter_filter(c.index, alone, both);
    let wanted = |e: EntryView|
        e.calling_session_id is None && family_shows_life(c, e, now, 600_000) && live_mtime_of(
            c.mtimes,
            e,
        ) == stamp;
    assert forall|e: EntryView| #[trigger] live(e) <==> family_shows_life(c, e, now, 600_000) by {
        lemma_family_age(c, e, now, 600_000);
    }
    assert((|e: EntryView| alone(e) && both(e)) =~= wanted);
}

/// As many sessions are reported as the index lists entries that work for no other session and
/// show a sign of life less than ten minutes before, by themselves or by a worker.
pub proof fn every_live_entry_is_reported(c: Memory, now: u64, config_root: Seq<char>)
    ensures
        ({
            let live = c.index.filter(
                |e: EntryView|
                    e.calling_session_id is None && family_shows_life(c, e, now, 600_000),
            );
            &&& sessions_of(c, now, config_root).len() == live.len()
            &&& reported_entries(c, now).to_multiset() == live.to_multiset()
        }),
{
    broadcast use vstd::seq_lib::group_to_multiset_ensures;

    let live = |e: EntryView| is_live(c, now, e);
    let alone = |e: EntryView| e.calling_session_id is None;
    let wanted = |e: EntryView|
        e.calling_session_id is None && family_shows_life(c, e, now, 600_000);
    sessions_are_reported_once(c, now);
    lemma_filter_filter(c.index, alone, live);
    assert forall|e: EntryView| #[trigger] live(e) <==> family_shows_life(c, e, now, 600_000) by {
        lemma_family_age(c, e, now, 600_000);
    }
    assert((|e: EntryView| alone(e) && live(e)) =~= wanted);
    assert(parents_of(c.index).filter(live) == c.index.filter(wanted));
    assert(reported_entries(c, now).to_multiset().len() == reported_entries(c, now).len());
}

/// The status of a reported session goes by the latest sign of life of the session and its
/// workers: thinking where one is less than 15 seconds old, else executing where one is less than
/// two minutes old, else waiting. A session that is no mission worker is shown as executing unless
/// it waits.
pub proof fn statuses_go_by_session_and_workers(
    c: Memory,
    now: u64,
    config_root: Seq<char>,
    i: int,
)
    requires
        0 <= i < sessions_of(c, now, config_root).len(),
    ensures
        ({
            let s = sessions_of(c, now, config_root)[i];
            let e = reported_entries(c, now)[i];
            &&& s.session_id == e.session_id
            &&& c.index.contains(e)
            &&& s.status == SessionStatus::Thinking <==> family_shows_life(c, e, now, 15_000)
            &&& s.status == SessionStatus::Executing <==> !family_shows_life(c, e, now, 15_000)
                && family_shows_life(c, e, now, 120_000)
            &&& s.status == SessionStatus::Waiting <==> !family_shows_life(c, e, now, 120_000)
            &&& (forall|k: int|
                0 <= k < e.tags.len() ==> (#[trigger] e.tags[k]).name != "mission-worker"@)
                && s.status != SessionStatus::Waiting ==> s.current_tasks == seq!["executing"@]
        }),
{
    let e = reported_entries(c, now)[i];
    lemma_family_age(c, e, now, 15_000);
    lemma_family_age(c, e, now, 120_000);
    if family_shows_life(c, e, now, 15_000) {
        assert(family_shows_life(c, e, now, 120_000));
    }
    assert(reported_entries(c, now).contains(e));
    live_parents_are_reported(c, now, e);
}

/// Whether the mission at `k` has the given id and names a worker model.
pub open spec fn names_worker_model(missions: Seq<MissionView>, id: Seq<char>, k: int) -> bool {
    missions[k].mission_id == id && missions[k].worker_model.len() > 0
}

/// The worker model of a mission is that of the last mission with its id that names one.
pub proof fn worker_models_are_those_of_the_last_mission(missions: Seq<MissionView>, id: Seq<char>)
    ensures
        match worker_model_of(missions, id, missions.len() as int) {
            Some(model) => exists|k: int|
                0 <= k < missions.len() && #[trigger] names_worker_model(missions, id, k) && model
                    == missions[k].worker_model && forall|j: int|
                    k < j < missions.len() ==> !#[trigger] names_worker_model(missions, id, j),
            None => forall|j: int|
                0 <= j < missions.len() ==> !#[trigger] names_worker_model(missions, id, j),
        },
{
    lemma_worker_model(missions, id, missions.len() as int);
}

proof fn lemma_worker_model(missions: Seq<MissionView>, id: Seq<char>, n: int)
    requires
        0 <= n <= missions.len(),
        forall|j: int| n <= j < missions.len() ==> !#[trigger] names_worker_model(missions, id, j),
    ensures
        match worker_model_of(missions, id, n) {
            Some(model) => exists|k: int|
                0 <= k < missions.len() && #[trigger] names_worker_model(missions, id, k) && model
                    == missions[k].worker_model && forall|j: int|
                    k < j < missions.len() ==> !#[trigger] names_worker_model(missions, id, j),
            None => forall|j: int|
                0 <= j < missions.len() ==> !#[trigger] names_worker_model(missions, id, j),
        },
    decreases n,
{
    if n > 0 {
        if names_worker_model(missions, id, n - 1) {
            assert(names_worker_model(missions, id, n - 1));
        } else {
            lemma_worker_model(missions, id, n - 1);
        }
    }
}

/// The default model is the first that is marked as one, and nothing where none is; the limit of a
/// model is that of the first with its id or name, and zero where none has it.
pub proof fn models_are_looked_up_from_the_front(models: Seq<ModelView>, model: Seq<char>)
    ensures
        (exists|i: int|
            0 <= i < models.len() && (#[trigger] models[i]).is_default && default_model_from(
                models,
                0,
            ) == models[i].model && forall|j: int|
                0 <= j < i ==> !(#[trigger] models[j]).is_default) || ((forall|j: int|
            0 <= j < models.len() ==> !(#[trigger] models[j]).is_default) && default_model_from(
            models,
            0,
        ).len() == 0),
        (exists|i: int|
            0 <= i < models.len() && ((#[trigger] models[i]).id == model || models[i].model
                == model) && context_limit_from(models, model, 0) == models[i].max_context_limit
                && forall|j: int|
                0 <= j < i ==> (#[trigger] models[j]).id != model && models[j].model != model) || ((
        forall|j: int|
            0 <= j < models.len() ==> (#[trigger] models[j]).id != model && models[j].model
                != model) && context_limit_from(models, model, 0) == 0),
{
    lemma_default_model(models, 0);
    lemma_context_limit(models, model, 0);
}

proof fn lemma_default_model(models: Seq<ModelView>, k: int)
    requires
        0 <= k <= models.len(),
        forall|j: int| 0 <= j < k ==> !(#[trigger] models[j]).is_default,
    ensures
        (exists|i: int|
            0 <= i < models.len() && (#[trigger] models[i]).is_default && default_model_from(
                models,
                k,
            ) == models[i].model && forall|j: int|
                0 <= j < i ==> !(#[trigger] models[j]).is_default) || ((forall|j: int|
            0 <= j < models.len() ==> !(#[trigger] models[j]).is_default) && default_model_from(
            models,
            k,
        ).len() == 0),
    decreases models.len() - k,
{
    if k < models.len() {
        if models[k].is_default {
            assert(models[k].is_default);
        } else {
            lemma_default_model(models, k + 1);
        }
    }
}

proof fn lemma_context_limit(models: Seq<ModelView>, model: Seq<char>, k: int)
    requires
        0 <= k <= models.len(),
        forall|j: int|
            0 <= j < k ==> (#[trigger] models[j]).id != model && models[j].model != model,
    ensures
        (exists|i: int|
            0 <= i < models.len() && ((#[trigger] models[i]).id == model || models[i].model
                == model) && context_limit_from(models, model, k) == models[i].max_context_limit
                && forall|j: int|
                0 <= j < i ==> (#[trigger] models[j]).id != model && models[j].model != model) || ((
        forall|j: int|
            0 <= j < models.len() ==> (#[trigger] models[j]).id != model && models[j].model
                != model) && context_limit_from(models, model, k) == 0),
    decreases models.len() - k,
{
    if k < models.len() {
        if models[k].id == model || models[k].model == model {
            assert(models[k].id == model || models[k].model == model);
        } else {
            lemma_context_limit(models, model, k + 1);
        }
    }
}

/// A reported session tells of its entry: who it is and where it works, when it last showed a sign
/// of life, the model of its mission or the default one with its limit, its own tokens, those of
/// its last call as far as 64 bits count them, and how often it took its turn, modulo 2^32. What
/// the workspace does not tell is empty or zero.
pub proof fn sessions_tell_of_their_entries(
    c: Memory,
    now: u64,
    config_root: Seq<char>,
    i: int,
)
    requires
        0 <= i < sessions_of(c, now, config_root).len(),
    ensures
        ({
            let s = sessions_of(c, now, config_root)[i];
            let e = reported_entries(c, now)[i];
            &&& s.agent_cli == "factory"@
            &&& s.session_id == e.session_id
            &&& s.cwd == e.cwd
            &&& s.project_name == base_name_of(e.cwd)
            &&& s.initial_prompt == e.title
            &&& s.config_root == config_root
            &&& s.started_at >= e.mtime_ms
            &&& c.mtimes.contains_key(e.session_id) ==> s.started_at >= c.mtimes[e.session_id]
            &&& s.started_at == e.mtime_ms || (c.mtimes.contains_key(e.session_id) && s.started_at
                == c.mtimes[e.session_id])
            &&& match mission_from_tags(e.tags, 0) {
                Some(id) => match worker_model_of(c.missions, id, c.missions.len() as int) {
                    Some(model) => s.model == model,
                    None => s.model == default_model_from(c.models, 0),
                },
                None => s.model == default_model_from(c.models, 0),
            }
            &&& s.context_window == context_limit_from(c.models, s.model, 0)
            &&& c.tokens.contains_key(e.session_id) ==> {
                &&& s.total_input_tokens == c.tokens[e.session_id].input
                &&& s.total_output_tokens == c.tokens[e.session_id].output
                &&& s.total_cache_read == c.tokens[e.session_id].cache_read
                &&& s.total_cache_create == c.tokens[e.session_id].cache_create
            }
            &&& !c.tokens.contains_key(e.session_id) ==> s.total_input_tokens == 0
                && s.total_output_tokens == 0 && s.total_cache_read == 0 && s.total_cache_create
                == 0
            &&& c.last_call.contains_key(e.session_id) ==> {
                let used = c.last_call[e.session_id].input + c.last_call[e.session_id].cache_read;
                if used < 0x1_0000_0000_0000_0000 {
                    s.context_used == used
                } else {
                    s.context_used == 0xffff_ffff_ffff_ffff
                }
            }
            &&& !c.last_call.contains_key(e.session_id) ==> s.context_used == 0
            &&& 0 <= s.turn_count < 0x1_0000_0000
            &&& e.messages_count < 0x1_0000_0000 ==> s.turn_count == e.messages_count
            &&& (e.messages_count - s.turn_count) % 0x1_0000_0000 == 0
            &&& s.pid == 0 && s.effort.len() == 0 && s.mem_mb == 0 && s.version.len() == 0
            &&& s.git_branch.len() == 0 && s.git_added == 0 && s.git_modified == 0
            &&& s.token_history.len() == 0 && s.context_history.len() == 0 && s.compaction_count
                == 0
            &&& s.mem_file_count == 0 && s.mem_line_count == 0 && s.children.len() == 0
            &&& s.first_assistant_text.len() == 0 && s.chat_messages.len() == 0
                && s.tool_calls.len() == 0
            &&& s.pending_since_ms == 0 && s.thinking_since_ms == 0 && s.file_accesses.len() == 0
        }),
{
}

/// The task of a reported session is one: that of a mission worker where a tag says so, else
/// executing where a tag says so or the session or one of its workers shows a sign of life less
/// than two minutes before, else waiting for input.
pub proof fn tasks_go_by_session_and_workers(
    c: Memory,
    now: u64,
    config_root: Seq<char>,
    i: int,
)
    requires
        0 <= i < sessions_of(c, now, config_root).len(),
    ensures
        ({
            let s = sessions_of(c, now, config_root)[i];
            let e = reported_entries(c, now)[i];
            let works = exists|k: int|
                0 <= k < e.tags.len() && (#[trigger] e.tags[k]).name == "mission-worker"@;
            let runs = exists|k: int|
                0 <= k < e.tags.len() && (#[trigger] e.tags[k]).name == "exec"@;
            &&& works ==> s.current_tasks == seq!["mission worker"@]
            &&& !works && (runs || family_shows_life(c, e, now, 120_000)) ==> s.current_tasks
                == seq!["executing"@]
            &&& !works && !runs && !family_shows_life(c, e, now, 120_000) ==> s.current_tasks
                == seq!["waiting for input"@]
        }),
{
    let e = reported_entries(c, now)[i];
    lemma_family_age(c, e, now, 120_000);
}

/// The workers of a reported session are all entries of the index that work for it and show a sign
/// of life less than ten minutes before, in the order of the index. Each is shown by its name, as
/// working where that sign is less than two minutes old and else as idle, and with the tokens of
/// all kinds that are recorded of it.
pub proof fn workers_tell_of_their_entries(c: Memory, now: u64, config_root: Seq<char>, i: int)
    requires
        0 <= i < sessions_of(c, now, config_root).len(),
    ensures
        ({
            let s = sessions_of(c, now, config_root)[i];
            let e = reported_entries(c, now)[i];
            let workers = c.index.filter(
                |w: EntryView|
                    w.calling_session_id == Some(e.session_id) && shows_life(c, w, now, 600_000),
            );
            &&& s.subagents.len() == workers.len()
            &&& forall|k: int|
                0 <= k < workers.len() ==> {
                    let a = #[trigger] s.subagents[k];
                    &&& a.name == worker_name(workers[k].title)
                    &&& shows_life(c, workers[k], now, 120_000) ==> a.status == "working"@
                    &&& !shows_life(c, workers[k], now, 120_000) ==> a.status == "idle"@
                    &&& c.child_tokens.contains_key(workers[k].session_id) ==> {
                        let u = c.child_tokens[workers[k].session_id];
                        a.tokens == u.input + u.output + u.cache_read + u.cache_create
                    }
                    &&& !c.child_tokens.contains_key(workers[k].session_id) ==> a.tokens == 0
                }
        }),
{
    let e = reported_entries(c, now)[i];
    let keep = |w: EntryView| is_attached(c, now, e.session_id, w);
    let wanted = |w: EntryView|
        w.calling_session_id == Some(e.session_id) && shows_life(c, w, now, 600_000);
    assert forall|w: EntryView| #[trigger] keep(w) <==> wanted(w) by {
        ages_are_those_of_signs_of_life(c, w, now, 600_000);
    }
    assert(keep =~= wanted);
    let workers = c.index.filter(wanted);
    assert forall|k: int| 0 <= k < workers.len() implies (shows_life(
        c,
        #[trigger] workers[k],
        now,
        120_000,
    ) <==> age_of(now, live_mtime_of(c.mtimes, workers[k])) < 120_000) by {
        ages_are_those_of_signs_of_life(c, workers[k], now, 120_000);
    }
}

/// The report can be made where, and only where, the tokens of all kinds that are recorded of each
/// reported worker are less than 2^64.
pub proof fn reports_can_be_made_where_tokens_fit(c: Memory, now: u64)
    ensures
        is_countable(c, now) <==> forall|p: int, w: int|
            #![trigger c.index[p], c.index[w]]
            0 <= p < c.index.len() && 0 <= w < c.index.len() && c.index[p].calling_session_id
                is None && c.index[w].calling_session_id == Some(c.index[p].session_id)
                && shows_life(c, c.index[w], now, 600_000) && c.child_tokens.contains_key(
                c.index[w].session_id,
            ) ==> c.child_tokens[c.index[w].session_id].input
                + c.child_tokens[c.index[w].session_id].output
                + c.child_tokens[c.index[w].session_id].cache_read
                + c.child_tokens[c.index[w].session_id].cache_create < 0x1_0000_0000_0000_0000,
{
    assert forall|p: int, w: int|
        0 <= p < c.index.len() && 0 <= w < c.index.len() implies (#[trigger] is_countable_pair(
        c,
        now,
        p,
        w,
    ) <==> (c.index[p].calling_session_id is None && c.index[w].calling_session_id == Some(
        c.index[p].session_id,
    ) && shows_life(c, c.index[w], now, 600_000) && c.child_tokens.contains_key(
        c.index[w].session_id,
    ) ==> c.child_tokens[c.index[w].session_id].sum() < 0x1_0000_0000_0000_0000)) by {
        ages_are_those_of_signs_of_life(c, c.index[w], now, 600_000);
    }
    if is_countable(c, now) {
        assert forall|p: int, w: int|
            #![trigger c.index[p], c.index[w]]
            0 <= p < c.index.len() && 0 <= w < c.index.len() && c.index[p].calling_session_id
                is None && c.index[w].calling_session_id == Some(c.index[p].session_id)
                && shows_life(c, c.index[w], now, 600_000) && c.child_tokens.contains_key(
                c.index[w].session_id,
            ) implies c.child_tokens[c.index[w].session_id].sum() < 0x1_0000_0000_0000_0000 by {
            assert(is_countable_pair(c, now, p, w));
        }
    }
}

} // verus!
