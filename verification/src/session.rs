//! Sessions as they are reported.

use vstd::prelude::*;

use crate::index::SessionStatus;
use crate::order::views;

verus! {

/// A worker of a session.
#[derive(Debug)]
pub struct SubAgent {
    pub name: String,
    /// "working" | "idle".
    pub status: String,
    pub tokens: u64,
}

/// The mathematical value of a [`SubAgent`].
pub struct SubAgentView {
    pub name: Seq<char>,
    pub status: Seq<char>,
    pub tokens: int,
}

impl View for SubAgent {
    type V = SubAgentView;

    open spec fn view(&self) -> SubAgentView {
        SubAgentView { name: self.name@, status: self.status@, tokens: self.tokens as int }
    }
}

/// A session of a coding agent.
#[derive(Debug)]
pub struct AgentSession {
    pub agent_cli: &'static str,
    pub pid: u32,
    pub session_id: String,
    pub cwd: String,
    pub project_name: String,
    pub started_at: u64,
    pub status: SessionStatus,
    pub model: String,
    pub effort: String,
    /// Tokens in the context as of the last call.
    pub context_used: u64,
    pub total_input_tokens: u64,
    pub total_output_tokens: u64,
    pub total_cache_read: u64,
    pub total_cache_create: u64,
    pub turn_count: u32,
    pub current_tasks: Vec<String>,
    pub mem_mb: u64,
    pub version: String,
    pub git_branch: String,
    pub git_added: u32,
    pub git_modified: u32,
    pub token_history: Vec<u64>,
    pub context_history: Vec<u64>,
    pub compaction_count: u32,
    /// Tokens that the model's context holds; zero where that is not known.
    pub context_window: u64,
    pub subagents: Vec<SubAgent>,
    pub mem_file_count: u32,
    pub mem_line_count: u32,
    pub children: Vec<String>,
    pub initial_prompt: String,
    pub first_assistant_text: String,
    pub chat_messages: Vec<String>,
    pub tool_calls: Vec<String>,
    pub pending_since_ms: u64,
    pub thinking_since_ms: u64,
    pub file_accesses: Vec<String>,
    pub config_root: String,
}

/// The mathematical value of an [`AgentSession`].
#[verifier::ext_equal]
pub struct SessionView {
    pub agent_cli: Seq<char>,
    pub pid: u32,
    pub session_id: Seq<char>,
    pub cwd: Seq<char>,
    pub project_name: Seq<char>,
    pub started_at: u64,
    pub status: SessionStatus,
    pub model: Seq<char>,
    pub effort: Seq<char>,
    pub context_used: int,
    pub total_input_tokens: u64,
    pub total_output_tokens: u64,
    pub total_cache_read: u64,
    pub total_cache_create: u64,
    pub turn_count: int,
    pub current_tasks: Seq<Seq<char>>,
    pub mem_mb: u64,
    pub version: Seq<char>,
    pub git_branch: Seq<char>,
    pub git_added: u32,
    pub git_modified: u32,
    pub token_history: Seq<u64>,
    pub context_history: Seq<u64>,
    pub compaction_count: u32,
    pub context_window: u64,
    pub subagents: Seq<SubAgentView>,
    pub mem_file_count: u32,
    pub mem_line_count: u32,
    pub children: Seq<Seq<char>>,
    pub initial_prompt: Seq<char>,
    pub first_assistant_text: Seq<char>,
    pub chat_messages: Seq<Seq<char>>,
    pub tool_calls: Seq<Seq<char>>,
    pub pending_since_ms: u64,
    pub thinking_since_ms: u64,
    pub file_accesses: Seq<Seq<char>>,
    pub config_root: Seq<char>,
}

impl View for AgentSession {
    type V = SessionView;

    open spec fn view(&self) -> SessionView {
        SessionView {
            agent_cli: self.agent_cli@,
            pid: self.pid,
            session_id: self.session_id@,
            cwd: self.cwd@,
            project_name: self.project_name@,
            started_at: self.started_at,
            status: self.status,
            model: self.model@,
            effort: self.effort@,
            context_used: self.context_used as int,
            total_input_tokens: self.total_input_tokens,
            total_output_tokens: self.total_output_tokens,
            total_cache_read: self.total_cache_read,
            total_cache_create: self.total_cache_create,
            turn_count: self.turn_count as int,
            current_tasks: views(self.current_tasks@),
            mem_mb: self.mem_mb,
            version: self.version@,
            git_branch: self.git_branch@,
            git_added: self.git_added,
            git_modified: self.git_modified,
            token_history: self.token_history@,
            context_history: self.context_history@,
            compaction_count: self.compaction_count,
            context_window: self.context_window,
            subagents: views(self.subagents@),
            mem_file_count: self.mem_file_count,
            mem_line_count: self.mem_line_count,
            children: views(self.children@),
            initial_prompt: self.initial_prompt@,
            first_assistant_text: self.first_assistant_text@,
            chat_messages: views(self.chat_messages@),
            tool_calls: views(self.tool_calls@),
            pending_since_ms: self.pending_since_ms,
            thinking_since_ms: self.thinking_since_ms,
            file_accesses: views(self.file_accesses@),
            config_root: self.config_root@,
        }
    }
}

impl SessionView {
    /// The tokens of all kinds together.
    pub open spec fn token_sum(self) -> int {
        self.total_input_tokens + self.total_output_tokens + self.total_cache_read
            + self.total_cache_create
    }
}

impl AgentSession {
    /// The tokens of all kinds together.
    pub fn total_tokens(&self) -> (r: u64)
        requires
            self@.token_sum() <= u64::MAX,
        ensures
            r == self@.token_sum(),
    {
        self.total_input_tokens + self.total_output_tokens + self.total_cache_read
            + self.total_cache_create
    }
}

/// The views of sessions and workers show the fields as they are, and the tokens of a session are
/// those of all four kinds.
pub proof fn session_views_show_the_fields(s: AgentSession, w: SubAgent)
    ensures
        s@.agent_cli == s.agent_cli@,
        s@.pid == s.pid,
        s@.session_id == s.session_id@,
        s@.cwd == s.cwd@,
        s@.project_name == s.project_name@,
        s@.started_at == s.started_at,
        s@.status == s.status,
        s@.model == s.model@,
        s@.effort == s.effort@,
        s@.context_used == s.context_used,
        s@.total_input_tokens == s.total_input_tokens,
        s@.total_output_tokens == s.total_output_tokens,
        s@.total_cache_read == s.total_cache_read,
        s@.total_cache_create == s.total_cache_create,
        s@.turn_count == s.turn_count,
        s@.current_tasks == s.current_tasks@.map_values(|t: String| t@),
        s@.mem_mb == s.mem_mb,
        s@.version == s.version@,
        s@.git_branch == s.git_branch@,
        s@.git_added == s.git_added,
        s@.git_modified == s.git_modified,
        s@.token_history == s.token_history@,
        s@.context_history == s.context_history@,
        s@.compaction_count == s.compaction_count,
        s@.context_window == s.context_window,
        s@.subagents == s.subagents@.map_values(|a: SubAgent| a@),
        s@.mem_file_count == s.mem_file_count,
        s@.mem_line_count == s.mem_line_count,
        s@.children.len() == s.children@.len(),
        s@.initial_prompt == s.initial_prompt@,
        s@.first_assistant_text == s.first_assistant_text@,
        s@.chat_messages.len() == s.chat_messages@.len(),
        s@.tool_calls.len() == s.tool_calls@.len(),
        s@.pending_since_ms == s.pending_since_ms,
        s@.thinking_since_ms == s.thinking_since_ms,
        s@.file_accesses.len() == s.file_accesses@.len(),
        s@.config_root == s.config_root@,
        w@.name == w.name@,
        w@.status == w.status@,
        w@.tokens == w.tokens,
        s@.token_sum() == s.total_input_tokens + s.total_output_tokens + s.total_cache_read
            + s.total_cache_create,
{
}

} // verus!
