//! Validation of the workspace's configuration files.

use vstd::prelude::*;

use crate::catalog::{
    agree_but_for_key, default_refs, default_refs_of, differ_in_keys_only, lemma_names_differ,
    lemma_refs_agree, model_id, references_are_those_of_the_document, refers_to, text_views,
};
use crate::json::{is_text_at, item_views, json_text, parse_json, Json, JsonView};
use crate::missions::{order_directories, ordered_directories, MissionFiles, MissionFilesView};
use crate::order::{lemma_filter_contains, lemma_filter_step, lemma_push_contains, views};
use crate::text::{
    as_opt_str, decimal, has_prefix, opt_string, opt_text, prefixes_and_suffixes_part_a_text,
    push_decimal, push_signed_decimal, signed_decimal, starts_with, str_eq,
};

verus! {

/// The most findings that are reported.
pub const MAX_ISSUES: usize = 50;

/// A finding of the validation.
#[derive(Debug, Clone)]
pub struct FactoryConfigIssue {
    /// "high" | "medium" | "low".
    pub severity: &'static str,
    /// File the issue was found in (relative to `~/.factory`).
    pub file: String,
    pub message: String,
}

/// The mathematical value of a [`FactoryConfigIssue`].
pub struct IssueView {
    pub severity: Seq<char>,
    pub file: Seq<char>,
    pub message: Seq<char>,
}

impl View for FactoryConfigIssue {
    type V = IssueView;

    open spec fn view(&self) -> IssueView {
        IssueView { severity: self.severity@, file: self.file@, message: self.message@ }
    }
}

/// What reading a file gave.
#[derive(Debug)]
pub enum FileText {
    Text(String),
    Missing,
    /// The file could not be read, for the reason given.
    Unreadable(String),
}

/// The mathematical value of a [`FileText`].
pub enum FileTextView {
    Text(Seq<char>),
    Missing,
    Unreadable(Seq<char>),
}

impl View for FileText {
    type V = FileTextView;

    open spec fn view(&self) -> FileTextView {
        match self {
            FileText::Text(t) => FileTextView::Text(t@),
            FileText::Missing => FileTextView::Missing,
            FileText::Unreadable(e) => FileTextView::Unreadable(e@),
        }
    }
}

/// What reading and parsing a file gave.
#[derive(Debug)]
pub enum ParsedFile {
    Document(Json),
    /// The file is no JSON, for the reason given.
    Invalid(String),
    Missing,
    /// The file could not be read, for the reason given.
    Unreadable(String),
}

/// The mathematical value of a [`ParsedFile`].
pub enum ParsedFileView {
    Document(JsonView),
    Invalid(Seq<char>),
    Missing,
    Unreadable(Seq<char>),
}

impl View for ParsedFile {
    type V = ParsedFileView;

    open spec fn view(&self) -> ParsedFileView {
        match self {
            ParsedFile::Document(j) => ParsedFileView::Document(j@),
            ParsedFile::Invalid(e) => ParsedFileView::Invalid(e@),
            ParsedFile::Missing => ParsedFileView::Missing,
            ParsedFile::Unreadable(e) => ParsedFileView::Unreadable(e@),
        }
    }
}

/// What was found in one mission directory.
#[derive(Debug)]
pub struct MissionCheck {
    pub dir: String,
    /// Whether `state.json` is JSON, where it could be read.
    pub state_is_json: Option<bool>,
    /// Whether `working_directory.txt` exists.
    pub has_working_directory: bool,
}

/// The mathematical value of a [`MissionCheck`].
pub struct MissionCheckView {
    pub dir: Seq<char>,
    pub state_is_json: Option<bool>,
    pub has_working_directory: bool,
}

impl View for MissionCheck {
    type V = MissionCheckView;

    open spec fn view(&self) -> MissionCheckView {
        MissionCheckView {
            dir: self.dir@,
            state_is_json: self.state_is_json,
            has_working_directory: self.has_working_directory,
        }
    }
}

/// The files that are validated.
#[derive(Debug)]
pub struct ConfigFiles {
    /// `settings.json`
    pub settings: FileText,
    /// `factory-settings.json`
    pub factory_settings: FileText,
    /// `sessions-index.json`
    pub index: FileText,
    /// `task-invocations.json`, where it could be read.
    pub task_invocations: Option<String>,
    /// `background-processes.json`, where it could be read.
    pub background_processes: Option<String>,
}

/// The files that are validated, parsed.
#[derive(Debug)]
pub struct ParsedConfig {
    pub settings: ParsedFile,
    pub factory_settings: ParsedFile,
    pub index: ParsedFile,
    /// The mission directories, in their order.
    pub missions: Vec<MissionCheck>,
    /// Whether `task-invocations.json` is JSON, where it could be read.
    pub task_invocations: Option<bool>,
    /// Whether `background-processes.json` is JSON, where it could be read.
    pub background_processes: Option<bool>,
}

/// The mathematical value of a [`ParsedConfig`].
pub struct ParsedConfigView {
    pub settings: ParsedFileView,
    pub factory_settings: ParsedFileView,
    pub index: ParsedFileView,
    pub missions: Seq<MissionCheckView>,
    pub task_invocations: Option<bool>,
    pub background_processes: Option<bool>,
}

impl View for ParsedConfig {
    type V = ParsedConfigView;

    open spec fn view(&self) -> ParsedConfigView {
        ParsedConfigView {
            settings: self.settings@,
            factory_settings: self.factory_settings@,
            index: self.index@,
            missions: views(self.missions@),
            task_invocations: self.task_invocations,
            background_processes: self.background_processes,
        }
    }
}

/// A finding.
pub open spec fn issue_of(severity: Seq<char>, file: Seq<char>, message: Seq<char>) -> IssueView {
    IssueView { severity, file, message }
}

/// A list of one finding where `found`, else of none.
pub open spec fn issue_if(found: bool, issue: IssueView) -> Seq<IssueView> {
    if found {
        seq![issue]
    } else {
        Seq::empty()
    }
}

/// The last of the first `n` models with the given id.
pub open spec fn last_with_id(models: Seq<JsonView>, id: Seq<char>, n: int) -> Option<int>
    decreases n,
{
    if n <= 0 {
        None
    } else if model_id(models[n - 1]) == id {
        Some(n - 1)
    } else {
        last_with_id(models, id, n - 1)
    }
}

/// The last of the first `n` models with the given sort index.
pub open spec fn last_with_index(models: Seq<JsonView>, index: i64, n: int) -> Option<int>
    decreases n,
{
    if n <= 0 {
        None
    } else if models[n - 1].i64_at("index"@) == Some(index) {
        Some(n - 1)
    } else {
        last_with_index(models, index, n - 1)
    }
}

/// Whether the text under `key` is absent or empty.
pub open spec fn lacks_text(m: JsonView, key: Seq<char>) -> bool {
    m.text_at(key).len() == 0
}

/// `customModels[i] missing what`
pub open spec fn missing_message(i: int, what: Seq<char>) -> Seq<char> {
    "customModels["@ + decimal(i as nat) + "] missing "@ + what
}

/// `duplicate model id 'id' at indices first and second`
pub open spec fn duplicate_id_message(id: Seq<char>, first: int, second: int) -> Seq<char> {
    "duplicate model id '"@ + id + "' at indices "@ + decimal(first as nat) + " and "@ + decimal(
        second as nat,
    )
}

/// `duplicate model index index at indices first and second`
pub open spec fn duplicate_index_message(index: i64, first: int, second: int) -> Seq<char> {
    "duplicate model index "@ + signed_decimal(index as int) + " at indices "@ + decimal(
        first as nat,
    ) + " and "@ + decimal(second as nat)
}

/// `default model 'id' is not in customModels`
pub open spec fn dangling_message(id: Seq<char>) -> Seq<char> {
    "default model '"@ + id + "' is not in customModels"@
}

/// The finding on the id of the model at `i`: it is missing, or an earlier model has it.
pub open spec fn id_issues(models: Seq<JsonView>, file: Seq<char>, i: int) -> Seq<IssueView> {
    let id = model_id(models[i]);
    if id.len() == 0 {
        seq![issue_of("low"@, file, missing_message(i, "id"@))]
    } else {
        match last_with_id(models, id, i) {
            Some(prev) => seq![issue_of("medium"@, file, duplicate_id_message(id, prev, i))],
            None => Seq::empty(),
        }
    }
}

/// The finding on the sort index of the model at `i`: an earlier model has it.
pub open spec fn index_issues(models: Seq<JsonView>, file: Seq<char>, i: int) -> Seq<IssueView> {
    match models[i].i64_at("index"@) {
        Some(index) => match last_with_index(models, index, i) {
            Some(prev) => seq![issue_of("low"@, file, duplicate_index_message(index, prev, i))],
            None => Seq::empty(),
        },
        None => Seq::empty(),
    }
}

/// The findings on the model at `i`.
pub open spec fn model_issues(models: Seq<JsonView>, file: Seq<char>, i: int) -> Seq<IssueView> {
    id_issues(models, file, i) + issue_if(
        lacks_text(models[i], "model"@),
        issue_of("low"@, file, missing_message(i, "model name"@)),
    ) + issue_if(
        lacks_text(models[i], "baseUrl"@),
        issue_of("low"@, file, missing_message(i, "baseUrl"@)),
    ) + index_issues(models, file, i)
}

/// The findings on the first `n` models.
pub open spec fn models_issues(models: Seq<JsonView>, file: Seq<char>, n: int) -> Seq<IssueView>
    decreases n,
{
    if n <= 0 {
        Seq::empty()
    } else {
        models_issues(models, file, n - 1) + model_issues(models, file, n - 1)
    }
}

/// Whether an id is one of a custom model.
pub open spec fn is_custom(id: Seq<char>) -> bool {
    has_prefix(id, "custom:"@)
}

/// Whether one of the models has the given id.
pub open spec fn is_listed(models: Seq<JsonView>, id: Seq<char>) -> bool {
    last_with_id(models, id, models.len() as int) is Some
}

/// The findings on the first `n` references to a default model: those to a custom model that is
/// not listed.
pub open spec fn dangling_issues(
    refs: Seq<Seq<char>>,
    models: Seq<JsonView>,
    file: Seq<char>,
    n: int,
) -> Seq<IssueView>
    decreases n,
{
    if n <= 0 {
        Seq::empty()
    } else {
        dangling_issues(refs, models, file, n - 1) + issue_if(
            is_custom(refs[n - 1]) && !is_listed(models, refs[n - 1]),
            issue_of("medium"@, file, dangling_message(refs[n - 1])),
        )
    }
}

/// The findings on a catalog document.
pub open spec fn models_file_issues(v: JsonView, file: Seq<char>) -> Seq<IssueView> {
    match v.array_at("customModels"@) {
        Some(models) => models_issues(models, file, models.len() as int) + dangling_issues(
            default_refs_of(v),
            models,
            file,
            default_refs_of(v).len() as int,
        ),
        None => Seq::empty(),
    }
}

/// The findings on a catalog file.
pub open spec fn catalog_file_issues(file: ParsedFileView, name: Seq<char>) -> Seq<IssueView> {
    match file {
        ParsedFileView::Document(v) => models_file_issues(v, name),
        ParsedFileView::Invalid(e) => seq![issue_of("high"@, name, "invalid JSON: "@ + e)],
        ParsedFileView::Missing => seq![issue_of("low"@, name, "missing"@)],
        ParsedFileView::Unreadable(e) => seq![issue_of("low"@, name, "unreadable: "@ + e)],
    }
}

/// The number of the first `n` index entries without a working directory.
pub open spec fn count_without_cwd(entries: Seq<JsonView>, n: int) -> nat
    decreases n,
{
    if n <= 0 {
        0
    } else if lacks_text(entries[n - 1], "cwd"@) {
        count_without_cwd(entries, n - 1) + 1
    } else {
        count_without_cwd(entries, n - 1)
    }
}

/// The findings on the index of sessions.
pub open spec fn index_file_issues(file: ParsedFileView) -> Seq<IssueView> {
    let name = "sessions-index.json"@;
    match file {
        ParsedFileView::Document(v) => match v.array_at("entries"@) {
            Some(entries) => {
                let n = count_without_cwd(entries, entries.len() as int);
                issue_if(n > 0, issue_of("low"@, name, decimal(n) + " entries without cwd"@))
            },
            None => Seq::empty(),
        },
        ParsedFileView::Invalid(e) => seq![issue_of("high"@, name, "invalid JSON: "@ + e)],
        _ => seq![issue_of("low"@, name, "missing"@)],
    }
}

/// The findings on a mission directory.
pub open spec fn mission_issues(m: MissionCheckView) -> Seq<IssueView> {
    let name = "missions/"@ + m.dir;
    issue_if(
        m.state_is_json == Some(false),
        issue_of("medium"@, name, "invalid state.json"@),
    ) + issue_if(
        !m.has_working_directory,
        issue_of("low"@, name, "missing working_directory.txt"@),
    )
}

/// The findings on the first `n` mission directories.
pub open spec fn missions_issues(missions: Seq<MissionCheckView>, n: int) -> Seq<IssueView>
    decreases n,
{
    if n <= 0 {
        Seq::empty()
    } else {
        missions_issues(missions, n - 1) + mission_issues(missions[n - 1])
    }
}

/// All findings, in the order in which they are looked for.
pub open spec fn all_issues(config: ParsedConfigView) -> Seq<IssueView> {
    catalog_file_issues(config.settings, "settings.json"@) + catalog_file_issues(
        config.factory_settings,
        "factory-settings.json"@,
    ) + index_file_issues(config.index) + missions_issues(
        config.missions,
        config.missions.len() as int,
    ) + issue_if(
        config.task_invocations == Some(false),
        issue_of("low"@, "task-invocations.json"@, "invalid JSON"@),
    ) + issue_if(
        config.background_processes == Some(false),
        issue_of("low"@, "background-processes.json"@, "invalid JSON"@),
    )
}

/// The first findings, as many as are reported.
pub open spec fn reported_issues(config: ParsedConfigView) -> Seq<IssueView> {
    let all = all_issues(config);
    if all.len() <= MAX_ISSUES {
        all
    } else {
        all.take(MAX_ISSUES as int)
    }
}

/// A file, parsed.
pub open spec fn parsed_file(file: FileTextView) -> ParsedFileView {
    match file {
        FileTextView::Text(t) => match json_text(t) {
            Ok(v) => ParsedFileView::Document(v),
            Err(e) => ParsedFileView::Invalid(e),
        },
        FileTextView::Missing => ParsedFileView::Missing,
        FileTextView::Unreadable(e) => ParsedFileView::Unreadable(e),
    }
}

/// Whether an optional text is JSON.
pub open spec fn json_check(text: Option<Seq<char>>) -> Option<bool> {
    match text {
        Some(t) => Some(json_text(t) is Ok),
        None => None,
    }
}

/// What is looked at in a mission directory.
pub open spec fn mission_check(files: MissionFilesView) -> MissionCheckView {
    MissionCheckView {
        dir: files.dir,
        state_is_json: json_check(files.state),
        has_working_directory: files.has_working_directory,
    }
}

/// The files that are validated, parsed.
pub open spec fn parsed_config(
    files: ConfigFiles,
    missions: Seq<MissionFiles>,
) -> ParsedConfigView {
    ParsedConfigView {
        settings: parsed_file(files.settings@),
        factory_settings: parsed_file(files.factory_settings@),
        index: parsed_file(files.index@),
        missions: ordered_directories(missions).map_values(
            |m: MissionFilesView| mission_check(m),
        ),
        task_invocations: json_check(opt_string(files.task_invocations)),
        background_processes: json_check(opt_string(files.background_processes)),
    }
}

/// A finding.
pub fn issue(severity: &'static str, file: &str, message: String) -> (r: FactoryConfigIssue)
    ensures
        r@ == issue_of(severity@, file@, message@),
{
    FactoryConfigIssue { severity, file: file.to_owned(), message }
}

/// Appends a finding.
fn push_issue(
    issues: &mut Vec<FactoryConfigIssue>,
    severity: &'static str,
    file: &str,
    message: String,
)
    ensures
        views(final(issues)@) == views(old(issues)@) + seq![
            issue_of(severity@, file@, message@),
        ],
{
    let ghost prior = views(issues@);
    issues.push(issue(severity, file, message));
    proof {
        assert(views(issues@) =~= prior + seq![issue_of(severity@, file@, message@)]);
    }
}

/// `customModels[i] missing what`
fn missing_text(i: usize, what: &str) -> (r: String)
    ensures
        r@ == missing_message(i as int, what@),
{
    let mut s = "customModels[".to_owned();
    push_decimal(&mut s, i as u64);
    s.append("] missing ");
    s.append(what);
    s
}

/// The last of the first `n` models with the given id.
fn find_last_id(models: &Vec<Json>, id: &str, n: usize) -> (r: Option<usize>)
    requires
        n <= models@.len(),
    ensures
        match r {
            Some(k) => last_with_id(item_views(models@), id@, n as int) == Some(k as int),
            None => last_with_id(item_views(models@), id@, n as int) is None,
        },
{
    let mut k: usize = n;
    while k > 0
        invariant
            k <= n <= models@.len(),
            last_with_id(item_views(models@), id@, n as int) == last_with_id(
                item_views(models@),
                id@,
                k as int,
            ),
        decreases k,
    {
        let other = models[k - 1].text_at("id");
        if str_eq(other.as_str(), id) {
            return Some(k - 1);
        }
        k -= 1;
    }
    None
}

/// The last of the first `n` models with the given sort index.
fn find_last_index(models: &Vec<Json>, index: i64, n: usize) -> (r: Option<usize>)
    requires
        n <= models@.len(),
    ensures
        match r {
            Some(k) => last_with_index(item_views(models@), index, n as int) == Some(k as int),
            None => last_with_index(item_views(models@), index, n as int) is None,
        },
{
    let mut k: usize = n;
    while k > 0
        invariant
            k <= n <= models@.len(),
            last_with_index(item_views(models@), index, n as int) == last_with_index(
                item_views(models@),
                index,
                k as int,
            ),
        decreases k,
    {
        if let Some(other) = models[k - 1].i64_at("index") {
            if other == index {
                return Some(k - 1);
            }
        }
        k -= 1;
    }
    None
}

/// Whether the text under `key` is absent or empty.
fn is_text_missing(m: &Json, key: &str) -> (r: bool)
    ensures
        r == lacks_text(m@, key@),
{
    match m.str_at(key) {
        Some(s) => s.is_empty(),
        None => true,
    }
}

/// Appends the findings on the model at `i`.
fn check_model(models: &Vec<Json>, file: &str, i: usize, issues: &mut Vec<FactoryConfigIssue>)
    requires
        i < models@.len(),
    ensures
        views(final(issues)@) == views(old(issues)@) + model_issues(
            item_views(models@),
            file@,
            i as int,
        ),
{
    let ghost all = item_views(models@);
    let ghost start = views(issues@);
    let m = &models[i];
    proof {
        assert(all[i as int] == m@);
    }
    let id = m.text_at("id");
    if id.as_str().is_empty() {
        push_issue(issues, "low", file, missing_text(i, "id"));
    } else if let Some(prev) = find_last_id(models, id.as_str(), i) {
        let mut s = "duplicate model id '".to_owned();
        s.append(id.as_str());
        s.append("' at indices ");
        push_decimal(&mut s, prev as u64);
        s.append(" and ");
        push_decimal(&mut s, i as u64);
        push_issue(issues, "medium", file, s);
    }
    proof {
        assert(views(issues@) =~= start + id_issues(all, file@, i as int));
    }
    if is_text_missing(m, "model") {
        push_issue(issues, "low", file, missing_text(i, "model name"));
    }
    if is_text_missing(m, "baseUrl") {
        push_issue(issues, "low", file, missing_text(i, "baseUrl"));
    }
    if let Some(index) = m.i64_at("index") {
        if let Some(prev) = find_last_index(models, index, i) {
            let mut s = "duplicate model index ".to_owned();
            push_signed_decimal(&mut s, index);
            s.append(" at indices ");
            push_decimal(&mut s, prev as u64);
            s.append(" and ");
            push_decimal(&mut s, i as u64);
            push_issue(issues, "low", file, s);
        }
    }
    proof {
        assert(views(issues@) =~= start + model_issues(all, file@, i as int));
    }
}

/// Appends the findings on a catalog document: structural problems of its models, and references
/// to default models that it does not list.
pub fn validate_models_file(v: &Json, file: &str, issues: &mut Vec<FactoryConfigIssue>)
    ensures
        views(final(issues)@) == views(old(issues)@) + models_file_issues(v@, file@),
{
    let ghost start = views(issues@);
    let models = match v.array_at("customModels") {
        Some(models) => models,
        None => {
            proof {
                assert(start =~= start + models_file_issues(v@, file@));
            }
            return;
        },
    };
    let ghost all = item_views(models@);
    proof {
        assert(views(issues@) =~= start + models_issues(all, file@, 0));
    }
    for i in 0..models.len()
        invariant
            all == item_views(models@),
            views(issues@) == start + models_issues(all, file@, i as int),
    {
        check_model(models, file, i, issues);
        proof {
            assert(views(issues@) =~= start + models_issues(all, file@, i + 1));
        }
    }
    let refs = default_refs(v);
    let ghost ref_views = default_refs_of(v@);
    let ghost found = start + models_issues(all, file@, all.len() as int);
    proof {
        assert(views(issues@) =~= found + dangling_issues(ref_views, all, file@, 0));
    }
    for i in 0..refs.len()
        invariant
            all == item_views(models@),
            ref_views == text_views(refs@),
            views(issues@) == found + dangling_issues(ref_views, all, file@, i as int),
    {
        let id = refs[i];
        proof {
            assert(ref_views[i as int] == id@);
        }
        if starts_with(id, "custom:") {
            if find_last_id(models, id, models.len()).is_none() {
                let mut s = "default model '".to_owned();
                s.append(id);
                s.append("' is not in customModels");
                push_issue(issues, "medium", file, s);
            }
        }
        proof {
            assert(views(issues@) =~= found + dangling_issues(ref_views, all, file@, i + 1));
        }
    }
    proof {
        assert(views(issues@) =~= start + models_file_issues(v@, file@));
    }
}

/// Appends the findings on a catalog file.
fn check_catalog_file(file: &ParsedFile, name: &str, issues: &mut Vec<FactoryConfigIssue>)
    ensures
        views(final(issues)@) == views(old(issues)@) + catalog_file_issues(file@, name@),
{
    match file {
        ParsedFile::Document(v) => validate_models_file(v, name, issues),
        ParsedFile::Invalid(e) => {
            let mut s = "invalid JSON: ".to_owned();
            s.append(e.as_str());
            push_issue(issues, "high", name, s);
        },
        ParsedFile::Missing => push_issue(issues, "low", name, "missing".to_owned()),
        ParsedFile::Unreadable(e) => {
            let mut s = "unreadable: ".to_owned();
            s.append(e.as_str());
            push_issue(issues, "low", name, s);
        },
    }
}

/// The number of index entries without a working directory.
fn count_missing_cwd(entries: &Vec<Json>) -> (n: usize)
    ensures
        n == count_without_cwd(item_views(entries@), entries@.len() as int),
{
    let mut n: usize = 0;
    for i in 0..entries.len()
        invariant
            n <= i,
            n == count_without_cwd(item_views(entries@), i as int),
    {
        if is_text_missing(&entries[i], "cwd") {
            n += 1;
        }
    }
    n
}

/// Appends the findings on the index of sessions.
fn check_index_file(file: &ParsedFile, issues: &mut Vec<FactoryConfigIssue>)
    ensures
        views(final(issues)@) == views(old(issues)@) + index_file_issues(file@),
{
    let ghost start = views(issues@);
    match file {
        ParsedFile::Document(v) => {
            if let Some(entries) = v.array_at("entries") {
                let n = count_missing_cwd(entries);
                if n > 0 {
                    let mut s = String::new();
                    push_decimal(&mut s, n as u64);
                    s.append(" entries without cwd");
                    proof {
                        assert(s@ =~= decimal(n as nat) + " entries without cwd"@);
                    }
                    push_issue(issues, "low", "sessions-index.json", s);
                }
            }
            proof {
                assert(views(issues@) =~= start + index_file_issues(file@));
            }
        },
        ParsedFile::Invalid(e) => {
            let mut s = "invalid JSON: ".to_owned();
            s.append(e.as_str());
            push_issue(issues, "high", "sessions-index.json", s);
        },
        _ => push_issue(issues, "low", "sessions-index.json", "missing".to_owned()),
    }
}

/// Appends the findings on a mission directory.
fn check_mission(m: &MissionCheck, issues: &mut Vec<FactoryConfigIssue>)
    ensures
        views(final(issues)@) == views(old(issues)@) + mission_issues(m@),
{
    let ghost start = views(issues@);
    let mut name = "missions/".to_owned();
    name.append(m.dir.as_str());
    let broken: bool = match m.state_is_json {
        Some(ok) => !ok,
        None => false,
    };
    if broken {
        push_issue(issues, "medium", name.as_str(), "invalid state.json".to_owned());
    }
    if !m.has_working_directory {
        push_issue(issues, "low", name.as_str(), "missing working_directory.txt".to_owned());
    }
    proof {
        assert(views(issues@) =~= start + mission_issues(m@));
    }
}

/// The findings on the parsed files, in the order in which they are looked for, at most
/// [`MAX_ISSUES`].
pub fn config_issues(config: &ParsedConfig) -> (r: Vec<FactoryConfigIssue>)
    ensures
        views(r@) == reported_issues(config@),
{
    let mut issues: Vec<FactoryConfigIssue> = Vec::new();
    check_catalog_file(&config.settings, "settings.json", &mut issues);
    check_catalog_file(&config.factory_settings, "factory-settings.json", &mut issues);
    check_index_file(&config.index, &mut issues);
    let ghost checks = views(config.missions@);
    let ghost found = views(issues@);
    proof {
        assert(found =~= catalog_file_issues(config.settings@, "settings.json"@)
            + catalog_file_issues(config.factory_settings@, "factory-settings.json"@)
            + index_file_issues(config.index@));
        assert(views(issues@) =~= found + missions_issues(checks, 0));
    }
    for i in 0..config.missions.len()
        invariant
            checks == views(config.missions@),
            views(issues@) == found + missions_issues(checks, i as int),
    {
        check_mission(&config.missions[i], &mut issues);
        proof {
            assert(checks[i as int] == config.missions@[i as int]@);
            assert(views(issues@) =~= found + missions_issues(checks, i + 1));
        }
    }
    let broken: bool = match config.task_invocations {
        Some(ok) => !ok,
        None => false,
    };
    if broken {
        push_issue(&mut issues, "low", "task-invocations.json", "invalid JSON".to_owned());
    }
    let broken: bool = match config.background_processes {
        Some(ok) => !ok,
        None => false,
    };
    if broken {
        push_issue(&mut issues, "low", "background-processes.json", "invalid JSON".to_owned());
    }
    proof {
        assert(views(issues@) =~= all_issues(config@));
    }
    issues.truncate(MAX_ISSUES);
    proof {
        assert(views(issues@) =~= reported_issues(config@));
    }
    issues
}

/// Parses a file.
fn parse_file(file: &FileText) -> (r: ParsedFile)
    ensures
        r@ == parsed_file(file@),
{
    match file {
        FileText::Text(t) => match parse_json(t.as_str()) {
            Ok(v) => ParsedFile::Document(v),
            Err(e) => ParsedFile::Invalid(e),
        },
        FileText::Missing => ParsedFile::Missing,
        FileText::Unreadable(e) => ParsedFile::Unreadable(e.clone()),
    }
}

/// Whether an optional text is JSON.
fn check_json(text: Option<&str>) -> (r: Option<bool>)
    ensures
        r == json_check(opt_text(text)),
{
    match text {
        Some(t) => Some(parse_json(t).is_ok()),
        None => None,
    }
}

/// Parses the files that are validated.
pub fn parse_config(files: &ConfigFiles, missions: &Vec<MissionFiles>) -> (r: ParsedConfig)
    ensures
        r@ == parsed_config(*files, missions@),
{
    let ordered = order_directories(missions);
    let ghost all = ordered_directories(missions@);
    let mut checks: Vec<MissionCheck> = Vec::new();
    for i in 0..ordered.len()
        invariant
            views(ordered@) == all,
            checks@.len() == i,
            forall|j: int| 0 <= j < i ==> (#[trigger] checks@[j])@ == mission_check(all[j]),
    {
        let m = ordered[i];
        proof {
            assert(all[i as int] == m@);
        }
        checks.push(
            MissionCheck {
                dir: m.dir.clone(),
                state_is_json: check_json(as_opt_str(&m.state)),
                has_working_directory: m.has_working_directory,
            },
        );
    }
    proof {
        assert(views(checks@) =~= all.map_values(|m: MissionFilesView| mission_check(m)));
    }
    ParsedConfig {
        settings: parse_file(&files.settings),
        factory_settings: parse_file(&files.factory_settings),
        index: parse_file(&files.index),
        missions: checks,
        task_invocations: check_json(as_opt_str(&files.task_invocations)),
        background_processes: check_json(as_opt_str(&files.background_processes)),
    }
}

/// Structural validation of the whole configuration.
pub fn validate_config(files: &ConfigFiles, missions: &Vec<MissionFiles>) -> (r: Vec<
    FactoryConfigIssue,
>)
    ensures
        views(r@) == reported_issues(parsed_config(*files, missions@)),
{
    let config = parse_config(files, missions);
    config_issues(&config)
}

/// At most [`MAX_ISSUES`] findings are reported, and they are the first ones.
pub proof fn reports_are_capped(config: ParsedConfigView)
    ensures
        reported_issues(config).len() <= MAX_ISSUES,
        reported_issues(config).len() <= all_issues(config).len(),
        reported_issues(config) == all_issues(config).take(reported_issues(config).len() as int),
        all_issues(config).len() <= MAX_ISSUES ==> reported_issues(config) == all_issues(config),
{
    assert(all_issues(config).take(all_issues(config).len() as int) =~= all_issues(config));
}

/// A `settings.json` that is no JSON is always reported, as the first finding and of high
/// severity.
pub proof fn broken_settings_are_reported(config: ParsedConfigView, e: Seq<char>)
    requires
        config.settings == ParsedFileView::Invalid(e),
    ensures
        reported_issues(config).len() > 0,
        reported_issues(config)[0] == issue_of("high"@, "settings.json"@, "invalid JSON: "@ + e),
{
    let head = catalog_file_issues(config.settings, "settings.json"@);
    assert(all_issues(config)[0] == head[0]);
}

/// Whether a catalog document has nothing to be found: its models have an id, a name and a base
/// URL, no two have the same id or the same sort index, and it lists every custom model that it
/// refers to as a default. A document without a list of models has nothing to be found either.
pub open spec fn is_sound(v: JsonView) -> bool {
    match v.array_at("customModels"@) {
        Some(models) => {
            &&& forall|i: int|
                0 <= i < models.len() ==> !lacks_text(#[trigger] models[i], "id"@) && !lacks_text(
                    models[i],
                    "model"@,
                ) && !lacks_text(models[i], "baseUrl"@)
            &&& forall|i: int, j: int|
                0 <= i < j < models.len() ==> model_id(#[trigger] models[i]) != model_id(
                    #[trigger] models[j],
                )
            &&& forall|i: int, j: int|
                0 <= i < j < models.len() && (#[trigger] models[i]).i64_at("index"@) is Some
                    ==> models[i].i64_at("index"@) != (#[trigger] models[j]).i64_at("index"@)
            &&& forall|k: int|
                0 <= k < default_refs_of(v).len() && is_custom(#[trigger] default_refs_of(v)[k])
                    ==> exists|i: int|
                    0 <= i < models.len() && model_id(#[trigger] models[i]) == default_refs_of(
                        v,
                    )[k]
        },
        None => true,
    }
}

/// A catalog document gives a finding where, and only where, it is not sound.
pub proof fn sound_documents_give_no_findings(v: JsonView, file: Seq<char>)
    ensures
        models_file_issues(v, file).len() == 0 <==> is_sound(v),
{
    if let Some(models) = v.array_at("customModels"@) {
        let n = models.len() as int;
        let refs = default_refs_of(v);
        lemma_models_issues_empty(models, file, n);
        lemma_dangling_issues_empty(refs, models, file, refs.len() as int);
        assert forall|i: int| 0 <= i < n implies (model_issues(models, file, i).len() == 0 <==> {
            &&& !lacks_text(models[i], "id"@)
            &&& !lacks_text(models[i], "model"@)
            &&& !lacks_text(models[i], "baseUrl"@)
            &&& last_with_id(models, model_id(models[i]), i) is None
            &&& (models[i].i64_at("index"@) is Some ==> last_with_index(
                models,
                models[i].i64_at("index"@)->0,
                i,
            ) is None)
        }) by {}
        if models_file_issues(v, file).len() == 0 {
            assert forall|i: int| 0 <= i < n implies !lacks_text(#[trigger] models[i], "id"@)
                && !lacks_text(models[i], "model"@) && !lacks_text(models[i], "baseUrl"@) by {
                assert(model_issues(models, file, i).len() == 0);
            }
            assert forall|i: int, j: int| 0 <= i < j < n implies model_id(#[trigger] models[i])
                != model_id(#[trigger] models[j]) by {
                assert(model_issues(models, file, j).len() == 0);
                lemma_last_with_id(models, model_id(models[j]), j);
            }
            assert forall|i: int, j: int|
                0 <= i < j < n && (#[trigger] models[i]).i64_at("index"@) is Some
                implies models[i].i64_at("index"@) != (#[trigger] models[j]).i64_at("index"@) by {
                assert(model_issues(models, file, j).len() == 0);
                if models[j].i64_at("index"@) is Some {
                    lemma_last_with_index(models, models[j].i64_at("index"@)->0, j);
                }
            }
            assert forall|k: int|
                0 <= k < refs.len() && is_custom(#[trigger] refs[k]) implies exists|i: int|
                0 <= i < n && model_id(#[trigger] models[i]) == refs[k] by {
                lemma_last_with_id(models, refs[k], n);
                assert(is_listed(models, refs[k]));
            }
        }
        if is_sound(v) {
            assert forall|i: int| 0 <= i < n implies #[trigger] model_issues(
                models,
                file,
                i,
            ).len() == 0 by {
                lemma_last_with_id(models, model_id(models[i]), i);
                if models[i].i64_at("index"@) is Some {
                    lemma_last_with_index(models, models[i].i64_at("index"@)->0, i);
                }
            }
            assert forall|k: int|
                0 <= k < refs.len() && is_custom(#[trigger] refs[k]) implies is_listed(
                models,
                refs[k],
            ) by {
                lemma_last_with_id(models, refs[k], n);
            }
        }
    }
}

/// API keys never reach the findings: documents that differ in nothing else give the same ones.
pub proof fn findings_drop_api_keys(a: JsonView, b: JsonView, file: Seq<char>)
    requires
        differ_in_keys_only(a, b),
    ensures
        models_file_issues(a, file) == models_file_issues(b, file),
{
    lemma_refs_agree(a, b);
    if a.array_at("customModels"@) is Some {
        let x = a.array_at("customModels"@)->0;
        let y = b.array_at("customModels"@)->0;
        lemma_models_issues_agree(x, y, file, x.len() as int);
        let refs = default_refs_of(a);
        lemma_dangling_agree(refs, x, y, file, refs.len() as int);
    }
}

/// Whether two catalog files differ at most in the API keys of the models that they list.
pub open spec fn files_differ_in_keys_only(a: ParsedFileView, b: ParsedFileView) -> bool {
    match (a, b) {
        (ParsedFileView::Document(x), ParsedFileView::Document(y)) => differ_in_keys_only(x, y),
        _ => a == b,
    }
}

/// API keys never reach the report: configurations that differ in nothing else give the same one.
pub proof fn reports_drop_api_keys(a: ParsedConfigView, b: ParsedConfigView)
    requires
        files_differ_in_keys_only(a.settings, b.settings),
        files_differ_in_keys_only(a.factory_settings, b.factory_settings),
        a.index == b.index,
        a.missions == b.missions,
        a.task_invocations == b.task_invocations,
        a.background_processes == b.background_processes,
    ensures
        reported_issues(a) == reported_issues(b),
{
    lemma_catalog_file_agrees(a.settings, b.settings, "settings.json"@);
    lemma_catalog_file_agrees(
        a.factory_settings,
        b.factory_settings,
        "factory-settings.json"@,
    );
}

proof fn lemma_catalog_file_agrees(a: ParsedFileView, b: ParsedFileView, name: Seq<char>)
    requires
        files_differ_in_keys_only(a, b),
    ensures
        catalog_file_issues(a, name) == catalog_file_issues(b, name),
{
    if a is Document && b is Document {
        findings_drop_api_keys(a->Document_0, b->Document_0, name);
    }
}

proof fn lemma_last_with_id(models: Seq<JsonView>, id: Seq<char>, n: int)
    requires
        n <= models.len(),
    ensures
        match last_with_id(models, id, n) {
            Some(k) => 0 <= k < n && model_id(models[k]) == id,
            None => forall|j: int| 0 <= j < n ==> model_id(#[trigger] models[j]) != id,
        },
    decreases n,
{
    if n > 0 && model_id(models[n - 1]) != id {
        lemma_last_with_id(models, id, n - 1);
    }
}

proof fn lemma_last_with_index(models: Seq<JsonView>, index: i64, n: int)
    requires
        n <= models.len(),
    ensures
        match last_with_index(models, index, n) {
            Some(k) => 0 <= k < n && models[k].i64_at("index"@) == Some(index),
            None => forall|j: int|
                0 <= j < n ==> (#[trigger] models[j]).i64_at("index"@) != Some(index),
        },
    decreases n,
{
    if n > 0 && models[n - 1].i64_at("index"@) != Some(index) {
        lemma_last_with_index(models, index, n - 1);
    }
}

proof fn lemma_models_issues_empty(models: Seq<JsonView>, file: Seq<char>, n: int)
    ensures
        models_issues(models, file, n).len() == 0 <==> forall|i: int|
            0 <= i < n ==> (#[trigger] model_issues(models, file, i)).len() == 0,
    decreases n,
{
    if n > 0 {
        lemma_models_issues_empty(models, file, n - 1);
        if models_issues(models, file, n).len() != 0 && models_issues(
            models,
            file,
            n - 1,
        ).len() == 0 {
            assert(model_issues(models, file, n - 1).len() != 0);
        }
    }
}

proof fn lemma_dangling_issues_empty(
    refs: Seq<Seq<char>>,
    models: Seq<JsonView>,
    file: Seq<char>,
    n: int,
)
    requires
        n <= refs.len(),
    ensures
        dangling_issues(refs, models, file, n).len() == 0 <==> forall|k: int|
            0 <= k < n && is_custom(#[trigger] refs[k]) ==> is_listed(models, refs[k]),
    decreases n,
{
    if n > 0 {
        lemma_dangling_issues_empty(refs, models, file, n - 1);
    }
}

proof fn lemma_model_reads_agree(a: JsonView, b: JsonView)
    requires
        agree_but_for_key(a, b),
    ensures
        model_id(a) == model_id(b),
        lacks_text(a, "model"@) == lacks_text(b, "model"@),
        lacks_text(a, "baseUrl"@) == lacks_text(b, "baseUrl"@),
        a.i64_at("index"@) == b.i64_at("index"@),
{
    lemma_names_differ();
    assert(a.get("id"@) == b.get("id"@));
    assert(a.get("model"@) == b.get("model"@));
    assert(a.get("baseUrl"@) == b.get("baseUrl"@));
    assert(a.get("index"@) == b.get("index"@));
}

proof fn lemma_lookups_agree(
    x: Seq<JsonView>,
    y: Seq<JsonView>,
    id: Seq<char>,
    index: i64,
    n: int,
)
    requires
        x.len() == y.len(),
        n <= x.len(),
        forall|i: int| 0 <= i < x.len() ==> agree_but_for_key(#[trigger] x[i], #[trigger] y[i]),
    ensures
        last_with_id(x, id, n) == last_with_id(y, id, n),
        last_with_index(x, index, n) == last_with_index(y, index, n),
    decreases n,
{
    if n > 0 {
        lemma_lookups_agree(x, y, id, index, n - 1);
        lemma_model_reads_agree(x[n - 1], y[n - 1]);
    }
}

proof fn lemma_models_issues_agree(
    x: Seq<JsonView>,
    y: Seq<JsonView>,
    file: Seq<char>,
    n: int,
)
    requires
        x.len() == y.len(),
        n <= x.len(),
        forall|i: int| 0 <= i < x.len() ==> agree_but_for_key(#[trigger] x[i], #[trigger] y[i]),
    ensures
        models_issues(x, file, n) == models_issues(y, file, n),
    decreases n,
{
    if n > 0 {
        lemma_models_issues_agree(x, y, file, n - 1);
        lemma_model_reads_agree(x[n - 1], y[n - 1]);
        let index = match x[n - 1].i64_at("index"@) {
            Some(i) => i,
            None => 0,
        };
        lemma_lookups_agree(x, y, model_id(x[n - 1]), index, n - 1);
        assert(model_issues(x, file, n - 1) == model_issues(y, file, n - 1));
    }
}

proof fn lemma_dangling_agree(
    refs: Seq<Seq<char>>,
    x: Seq<JsonView>,
    y: Seq<JsonView>,
    file: Seq<char>,
    n: int,
)
    requires
        x.len() == y.len(),
        n <= refs.len(),
        forall|i: int| 0 <= i < x.len() ==> agree_but_for_key(#[trigger] x[i], #[trigger] y[i]),
    ensures
        dangling_issues(refs, x, file, n) == dangling_issues(refs, y, file, n),
    decreases n,
{
    if n > 0 {
        lemma_dangling_agree(refs, x, y, file, n - 1);
        lemma_lookups_agree(x, y, refs[n - 1], 0, x.len() as int);
    }
}

/// A finding with the given words.
pub open spec fn says(
    x: IssueView,
    severity: Seq<char>,
    file: Seq<char>,
    message: Seq<char>,
) -> bool {
    x.severity == severity && x.file == file && x.message == message
}

/// Whether the model at `h` is the last before `i` for which `same` holds.
pub open spec fn is_last_before(h: int, i: int, same: spec_fn(int) -> bool) -> bool {
    0 <= h < i && same(h) && forall|g: int| h < g < i ==> !#[trigger] same(g)
}

/// On the id of a model there is one finding where it is missing, one where an earlier model has
/// it, which names the last such, and else none.
pub proof fn ids_are_missing_or_taken(models: Seq<JsonView>, file: Seq<char>, i: int, id: Seq<char>)
    requires
        0 <= i < models.len(),
        is_text_at(models[i], "id"@, id),
    ensures
        ({
            let found = id_issues(models, file, i);
            let same = |h: int| is_text_at(models[h], "id"@, id);
            &&& id.len() == 0 ==> found.len() == 1 && says(
                found[0],
                "low"@,
                file,
                "customModels["@ + decimal(i as nat) + "] missing id"@,
            )
            &&& forall|h: int|
                id.len() > 0 && #[trigger] is_last_before(h, i, same) ==> found.len() == 1 && says(
                    found[0],
                    "medium"@,
                    file,
                    "duplicate model id '"@ + id + "' at indices "@ + decimal(h as nat) + " and "@
                        + decimal(i as nat),
                )
            &&& id.len() > 0 && (forall|h: int| 0 <= h < i ==> !#[trigger] same(h)) ==> found.len()
                == 0
        }),
{
    let same = |h: int| is_text_at(models[h], "id"@, id);
    assert(model_id(models[i]) =~= id);
    reveal_strlit("] missing id");
    reveal_strlit("] missing ");
    reveal_strlit("id");
    assert(missing_message(i, "id"@) =~= "customModels["@ + decimal(i as nat) + "] missing id"@);
    lemma_last_with_id(models, id, i);
    if id.len() > 0 {
        assert forall|h: int| 0 <= h < models.len() implies (#[trigger] same(h) <==> model_id(
            models[h],
        ) == id) by {
            if model_id(models[h]) == id {
                assert(same(h));
            }
        }
        assert forall|h: int| #[trigger] is_last_before(h, i, same) implies last_with_id(
            models,
            id,
            i,
        ) == Some(h) by {
            assert(same(h));
            assert(model_id(models[h]) == id);
            assert forall|g: int| h < g < i implies model_id(#[trigger] models[g]) != id by {
                assert(!same(g));
            }
            lemma_last_is_last(models, id, 0, i, h);
        }
        if forall|h: int| 0 <= h < i ==> !#[trigger] same(h) {
            if last_with_id(models, id, i) is Some {
                assert(same(last_with_id(models, id, i)->0));
            }
        }
    }
}

proof fn lemma_last_is_last(models: Seq<JsonView>, id: Seq<char>, index: i64, n: int, h: int)
    requires
        0 <= h < n <= models.len(),
    ensures
        model_id(models[h]) == id && (forall|g: int|
            h < g < n ==> model_id(#[trigger] models[g]) != id) ==> last_with_id(models, id, n)
            == Some(h),
        models[h].i64_at("index"@) == Some(index) && (forall|g: int|
            h < g < n ==> (#[trigger] models[g]).i64_at("index"@) != Some(index))
            ==> last_with_index(models, index, n) == Some(h),
    decreases n,
{
    if h < n - 1 {
        lemma_last_is_last(models, id, index, n - 1, h);
    }
}

/// Whether the model has the given sort index.
pub open spec fn has_index(d: JsonView, index: i64) -> bool {
    match d.get("index"@) {
        Some(JsonView::Number(n)) => n.signed == Some(index),
        _ => false,
    }
}

/// On the sort index of a model there is one finding where an earlier model has it, which names
/// the last such, and else none.
pub proof fn indices_are_taken(models: Seq<JsonView>, file: Seq<char>, i: int, index: i64)
    requires
        0 <= i < models.len(),
    ensures
        ({
            let found = index_issues(models, file, i);
            let same = |h: int| has_index(models[h], index);
            &&& forall|h: int|
                has_index(models[i], index) && #[trigger] is_last_before(h, i, same) ==> found.len()
                    == 1 && says(
                    found[0],
                    "low"@,
                    file,
                    "duplicate model index "@ + signed_decimal(index as int) + " at indices "@
                        + decimal(h as nat) + " and "@ + decimal(i as nat),
                )
            &&& has_index(models[i], index) && (forall|h: int| 0 <= h < i ==> !#[trigger] same(h))
                ==> found.len() == 0
            &&& (forall|x: i64| !#[trigger] has_index(models[i], x)) ==> found.len() == 0
        }),
{
    let same = |h: int| has_index(models[h], index);
    lemma_last_with_index(models, index, i);
    assert forall|h: int| 0 <= h < models.len() implies (#[trigger] same(h) <==> models[h].i64_at(
        "index"@,
    ) == Some(index)) by {}
    assert forall|h: int| #[trigger] is_last_before(h, i, same) implies last_with_index(
        models,
        index,
        i,
    ) == Some(h) by {
        assert(same(h));
        assert forall|g: int| h < g < i implies (#[trigger] models[g]).i64_at("index"@) != Some(
            index,
        ) by {
            assert(!same(g));
        }
        lemma_last_is_last(models, Seq::empty(), index, i, h);
    }
    if has_index(models[i], index) && forall|h: int| 0 <= h < i ==> !#[trigger] same(h) {
        if last_with_index(models, index, i) is Some {
            assert(same(last_with_index(models, index, i)->0));
        }
    }
    if forall|x: i64| !#[trigger] has_index(models[i], x) {
        if models[i].i64_at("index"@) is Some {
            assert(has_index(models[i], models[i].i64_at("index"@)->0));
        }
    }
}

/// A list of the one finding, where `found`.
pub open spec fn only_if(
    found: bool,
    severity: Seq<char>,
    file: Seq<char>,
    message: Seq<char>,
) -> Seq<IssueView> {
    if found {
        seq![IssueView { severity, file, message }]
    } else {
        Seq::empty()
    }
}

/// The findings on a model are, in this order: that on its id, one where its name is missing or
/// empty, one where its base URL is, and that on its sort index.
pub proof fn findings_on_a_model(models: Seq<JsonView>, file: Seq<char>, i: int)
    requires
        0 <= i < models.len(),
    ensures
        model_issues(models, file, i) == id_issues(models, file, i) + only_if(
            is_text_at(models[i], "model"@, Seq::empty()),
            "low"@,
            file,
            "customModels["@ + decimal(i as nat) + "] missing model name"@,
        ) + only_if(
            is_text_at(models[i], "baseUrl"@, Seq::empty()),
            "low"@,
            file,
            "customModels["@ + decimal(i as nat) + "] missing baseUrl"@,
        ) + index_issues(models, file, i),
{
    reveal_strlit("] missing ");
    reveal_strlit("model name");
    reveal_strlit("baseUrl");
    reveal_strlit("] missing model name");
    reveal_strlit("] missing baseUrl");
    assert(missing_message(i, "model name"@) =~= "customModels["@ + decimal(i as nat)
        + "] missing model name"@);
    assert(missing_message(i, "baseUrl"@) =~= "customModels["@ + decimal(i as nat)
        + "] missing baseUrl"@);
    lemma_lacks_text(models[i], "model"@);
    lemma_lacks_text(models[i], "baseUrl"@);
}

proof fn lemma_lacks_text(d: JsonView, key: Seq<char>)
    ensures
        lacks_text(d, key) <==> is_text_at(d, key, Seq::empty()),
{
    if lacks_text(d, key) {
        assert(d.text_at(key) =~= Seq::empty());
    }
}

/// The findings on a catalog document are those on its models, one model after the other, and then
/// one for each reference to a custom model that it does not list; a document without a list of
/// models has none.
pub proof fn findings_on_a_document(v: JsonView, file: Seq<char>)
    ensures
        match v.get("customModels"@) {
            Some(JsonView::Array(models)) => {
                let refs = default_refs_of(v);
                &&& models_file_issues(v, file) == models_issues(models, file, models.len() as int)
                    + dangling_issues(refs, models, file, refs.len() as int)
                &&& models_issues(models, file, 0).len() == 0
                &&& forall|n: int|
                    0 <= n < models.len() ==> #[trigger] models_issues(models, file, n + 1)
                        == models_issues(models, file, n) + model_issues(models, file, n)
                &&& dangling_issues(refs, models, file, 0).len() == 0
                &&& forall|n: int|
                    0 <= n < refs.len() ==> #[trigger] dangling_issues(refs, models, file, n + 1)
                        == dangling_issues(refs, models, file, n) + only_if(
                        (exists|rest: Seq<char>| refs[n] == #[trigger] ("custom:"@ + rest)) && (
                        forall|k: int|
                            0 <= k < models.len() ==> !is_text_at(
                                #[trigger] models[k],
                                "id"@,
                                refs[n],
                            )),
                        "medium"@,
                        file,
                        "default model '"@ + refs[n] + "' is not in customModels"@,
                    )
            },
            _ => models_file_issues(v, file).len() == 0,
        },
{
    if let Some(JsonView::Array(models)) = v.get("customModels"@) {
        let refs = default_refs_of(v);
        assert forall|n: int| 0 <= n < refs.len() implies #[trigger] dangling_issues(
            refs,
            models,
            file,
            n + 1,
        ) == dangling_issues(refs, models, file, n) + only_if(
            (exists|rest: Seq<char>| refs[n] == #[trigger] ("custom:"@ + rest)) && (forall|k: int|
                0 <= k < models.len() ==> !is_text_at(#[trigger] models[k], "id"@, refs[n])),
            "medium"@,
            file,
            "default model '"@ + refs[n] + "' is not in customModels"@,
        ) by {
            prefixes_and_suffixes_part_a_text(refs[n], "custom:"@);
            if is_custom(refs[n]) {
                reveal_strlit("custom:");
                assert(refs[n].len() > 0);
                lemma_last_with_id(models, refs[n], models.len() as int);
                if is_listed(models, refs[n]) {
                    let k = last_with_id(models, refs[n], models.len() as int)->0;
                    assert(is_text_at(models[k], "id"@, refs[n]));
                } else {
                    assert forall|k: int| 0 <= k < models.len() implies !is_text_at(
                        #[trigger] models[k],
                        "id"@,
                        refs[n],
                    ) by {
                        assert(model_id(models[k]) != refs[n]);
                    }
                }
            }
        }
    }
}

/// A default model that is referred to, is custom and is not listed is always among the findings
/// on its document, and no other is.
pub proof fn dangling_references_are_found(v: JsonView, file: Seq<char>, id: Seq<char>)
    requires
        v.get("customModels"@) is Some,
        v.get("customModels"@)->0 is Array,
    ensures
        ({
            let models = v.get("customModels"@)->0->Array_0;
            let refs = default_refs_of(v);
            dangling_issues(refs, models, file, refs.len() as int).contains(
                IssueView {
                    severity: "medium"@,
                    file,
                    message: "default model '"@ + id + "' is not in customModels"@,
                },
            ) <==> refers_to(v, id) && (exists|rest: Seq<char>| id == #[trigger] ("custom:"@ + rest))
                && forall|k: int|
                0 <= k < models.len() ==> !is_text_at(#[trigger] models[k], "id"@, id)
        }),
{
    let models = v.get("customModels"@)->0->Array_0;
    let refs = default_refs_of(v);
    references_are_those_of_the_document(v, id);
    lemma_dangling_contains(refs, models, file, refs.len() as int, id);
    prefixes_and_suffixes_part_a_text(id, "custom:"@);
    lemma_last_with_id(models, id, models.len() as int);
    reveal_strlit("custom:");
    if is_custom(id) {
        assert(id.len() > 0);
        if is_listed(models, id) {
            let k = last_with_id(models, id, models.len() as int)->0;
            assert(is_text_at(models[k], "id"@, id));
        } else {
            assert forall|k: int| 0 <= k < models.len() implies !is_text_at(
                #[trigger] models[k],
                "id"@,
                id,
            ) by {
                assert(model_id(models[k]) != id);
            }
        }
    }
}

proof fn lemma_dangling_contains(
    refs: Seq<Seq<char>>,
    models: Seq<JsonView>,
    file: Seq<char>,
    n: int,
    id: Seq<char>,
)
    requires
        0 <= n <= refs.len(),
    ensures
        dangling_issues(refs, models, file, n).contains(
            issue_of("medium"@, file, dangling_message(id)),
        ) <==> is_custom(id) && !is_listed(models, id) && exists|k: int|
            0 <= k < n && #[trigger] refs[k] == id,
    decreases n,
{
    let x = issue_of("medium"@, file, dangling_message(id));
    let all = dangling_issues(refs, models, file, n);
    if n > 0 {
        lemma_dangling_contains(refs, models, file, n - 1, id);
        let prior = dangling_issues(refs, models, file, n - 1);
        let found = is_custom(refs[n - 1]) && !is_listed(models, refs[n - 1]);
        let last = issue_of("medium"@, file, dangling_message(refs[n - 1]));
        if found {
            assert(all =~= prior.push(last));
            lemma_push_contains(prior, last, x);
        } else {
            assert(all =~= prior);
        }
        if last == x {
            lemma_same_middle("default model '"@, refs[n - 1], id, "' is not in customModels"@);
        }
        if prior.contains(x) {
            let k = choose|k: int| 0 <= k < n - 1 && #[trigger] refs[k] == id;
            assert(refs[k] == id);
        }
    }
}

proof fn lemma_same_middle(a: Seq<char>, x: Seq<char>, y: Seq<char>, b: Seq<char>)
    requires
        a + x + b == a + y + b,
    ensures
        x == y,
{
    let s = a + x + b;
    assert(s.len() == a.len() + x.len() + b.len());
    assert(s.len() == a.len() + y.len() + b.len());
    assert forall|i: int| 0 <= i < x.len() implies x[i] == y[i] by {
        assert(s[a.len() + i] == x[i]);
        assert((a + y + b)[a.len() + i] == y[i]);
    }
    assert(x =~= y);
}

/// A catalog document has no finding where, and only where, every model has an id, a name and a
/// base URL, no two have the same id or the same sort index, and every custom model that the
/// document refers to is listed.
pub proof fn documents_without_findings(v: JsonView, file: Seq<char>)
    requires
        v.get("customModels"@) is Some,
        v.get("customModels"@)->0 is Array,
    ensures
        ({
            let models = v.get("customModels"@)->0->Array_0;
            models_file_issues(v, file).len() == 0 <==> {
                &&& forall|i: int|
                    0 <= i < models.len() ==> !is_text_at(
                        #[trigger] models[i],
                        "id"@,
                        Seq::empty(),
                    ) && !is_text_at(models[i], "model"@, Seq::empty()) && !is_text_at(
                        models[i],
                        "baseUrl"@,
                        Seq::empty(),
                    )
                &&& forall|i: int, j: int|
                    0 <= i < j < models.len() ==> (#[trigger] models[i]).get("id"@) != (
                    #[trigger] models[j]).get("id"@)
                &&& forall|i: int, j: int, x: i64|
                    0 <= i < j < models.len() && #[trigger] has_index(models[i], x)
                        ==> !#[trigger] has_index(models[j], x)
                &&& forall|id: Seq<char>| #[trigger]
                    refers_to(v, id) && (exists|rest: Seq<char>| id == #[trigger] ("custom:"@
                        + rest)) ==> exists|i: int|
                        0 <= i < models.len() && (#[trigger] models[i]).get("id"@) == Some(
                            JsonView::Text(id),
                        )
            }
        }),
{
    let models = v.get("customModels"@)->0->Array_0;
    let refs = default_refs_of(v);
    sound_documents_give_no_findings(v, file);
    assert(v.array_at("customModels"@) == Some(models));
    assert forall|i: int| 0 <= i < models.len() implies (lacks_text(#[trigger] models[i], "id"@)
        <==> is_text_at(models[i], "id"@, Seq::empty())) && (lacks_text(models[i], "model"@)
        <==> is_text_at(models[i], "model"@, Seq::empty())) && (lacks_text(models[i], "baseUrl"@)
        <==> is_text_at(models[i], "baseUrl"@, Seq::empty())) by {
        lemma_lacks_text(models[i], "id"@);
        lemma_lacks_text(models[i], "model"@);
        lemma_lacks_text(models[i], "baseUrl"@);
    }
    reveal_strlit("custom:");
    if models_file_issues(v, file).len() == 0 {
        assert forall|i: int, j: int| 0 <= i < j < models.len() implies (#[trigger] models[i]).get(
            "id"@,
        ) != (#[trigger] models[j]).get("id"@) by {
            assert(model_id(models[i]) != model_id(models[j]));
        }
        assert forall|i: int, j: int, x: i64|
            0 <= i < j < models.len() && #[trigger] has_index(models[i], x) implies !#[trigger] has_index(
        models[j], x) by {
            assert(models[i].i64_at("index"@) == Some(x));
            assert(models[i].i64_at("index"@) != models[j].i64_at("index"@));
        }
        assert forall|id: Seq<char>| #[trigger]
            refers_to(v, id) && (exists|rest: Seq<char>| id == #[trigger] ("custom:"@ + rest)) implies exists|
            i: int,
        |
            0 <= i < models.len() && (#[trigger] models[i]).get("id"@) == Some(
                JsonView::Text(id),
            ) by {
            references_are_those_of_the_document(v, id);
            prefixes_and_suffixes_part_a_text(id, "custom:"@);
            let k = choose|k: int| 0 <= k < refs.len() && refs[k] == id;
            assert(is_custom(refs[k]));
            let i = choose|i: int| 0 <= i < models.len() && model_id(#[trigger] models[i]) == refs[k];
            assert(models[i].get("id"@) == Some(JsonView::Text(id)));
        }
    } else if forall|i: int|
        0 <= i < models.len() ==> !is_text_at(#[trigger] models[i], "id"@, Seq::empty())
            && !is_text_at(models[i], "model"@, Seq::empty()) && !is_text_at(
            models[i],
            "baseUrl"@,
            Seq::empty(),
        ) {
        if forall|i: int, j: int|
            0 <= i < j < models.len() ==> (#[trigger] models[i]).get("id"@) != (
            #[trigger] models[j]).get("id"@) {
            assert forall|i: int, j: int| 0 <= i < j < models.len() implies model_id(
                #[trigger] models[i],
            ) != model_id(#[trigger] models[j]) by {
                assert(models[i].get("id"@) != models[j].get("id"@));
            }
        }
        if forall|i: int, j: int, x: i64|
            0 <= i < j < models.len() && #[trigger] has_index(models[i], x) ==> !#[trigger] has_index(
                models[j],
                x,
            ) {
            assert forall|i: int, j: int|
                0 <= i < j < models.len() && (#[trigger] models[i]).i64_at("index"@) is Some
                implies models[i].i64_at("index"@) != (#[trigger] models[j]).i64_at("index"@) by {
                let x = models[i].i64_at("index"@)->0;
                assert(has_index(models[i], x));
                assert(!has_index(models[j], x));
            }
        }
        if forall|id: Seq<char>| #[trigger]
            refers_to(v, id) && (exists|rest: Seq<char>| id == #[trigger] ("custom:"@ + rest))
                ==> exists|i: int|
                0 <= i < models.len() && (#[trigger] models[i]).get("id"@) == Some(
                    JsonView::Text(id),
                ) {
            assert forall|k: int| 0 <= k < refs.len() && is_custom(#[trigger] refs[k]) implies exists|
                i: int,
            | 0 <= i < models.len() && model_id(#[trigger] models[i]) == refs[k] by {
                let id = refs[k];
                assert(refs.contains(id));
                references_are_those_of_the_document(v, id);
                prefixes_and_suffixes_part_a_text(id, "custom:"@);
                assert(refers_to(v, id));
                let i = choose|i: int|
                    0 <= i < models.len() && (#[trigger] models[i]).get("id"@) == Some(
                        JsonView::Text(id),
                    );
                assert(model_id(models[i]) == id);
            }
        }
    }
}

/// A catalog file that is no JSON, is missing or cannot be read gives one finding that says so.
pub proof fn files_without_a_document_give_one_finding(name: Seq<char>, e: Seq<char>)
    ensures
        catalog_file_issues(ParsedFileView::Invalid(e), name) == only_if(
            true,
            "high"@,
            name,
            "invalid JSON: "@ + e,
        ),
        catalog_file_issues(ParsedFileView::Missing, name) == only_if(
            true,
            "low"@,
            name,
            "missing"@,
        ),
        catalog_file_issues(ParsedFileView::Unreadable(e), name) == only_if(
            true,
            "low"@,
            name,
            "unreadable: "@ + e,
        ),
        index_file_issues(ParsedFileView::Invalid(e)) == only_if(
            true,
            "high"@,
            "sessions-index.json"@,
            "invalid JSON: "@ + e,
        ),
        index_file_issues(ParsedFileView::Missing) == only_if(
            true,
            "low"@,
            "sessions-index.json"@,
            "missing"@,
        ),
        index_file_issues(ParsedFileView::Unreadable(e)) == only_if(
            true,
            "low"@,
            "sessions-index.json"@,
            "missing"@,
        ),
        forall|v: JsonView|
            #![trigger models_file_issues(v, name)]
            catalog_file_issues(ParsedFileView::Document(v), name) == models_file_issues(v, name),
{
}

/// An index gives no finding where, and only where, every entry names its working directory; else
/// it gives one that says how many do not. An index without a list of entries gives none.
pub proof fn entries_without_cwd_are_counted(v: JsonView)
    ensures
        match v.get("entries"@) {
            Some(JsonView::Array(entries)) => {
                let found = index_file_issues(ParsedFileView::Document(v));
                let lacking = entries.filter(|e: JsonView| is_text_at(e, "cwd"@, Seq::empty()));
                &&& found.len() == 0 <==> forall|i: int|
                    0 <= i < entries.len() ==> !is_text_at(
                        #[trigger] entries[i],
                        "cwd"@,
                        Seq::empty(),
                    )
                &&& found == only_if(
                    lacking.len() > 0,
                    "low"@,
                    "sessions-index.json"@,
                    decimal(lacking.len()) + " entries without cwd"@,
                )
            },
            _ => index_file_issues(ParsedFileView::Document(v)).len() == 0,
        },
{
    if let Some(JsonView::Array(entries)) = v.get("entries"@) {
        let lacks = |e: JsonView| is_text_at(e, "cwd"@, Seq::empty());
        let n = entries.len() as int;
        lemma_count_is_filter(entries, n);
        assert(entries.take(n) =~= entries);
        let lacking = entries.filter(lacks);
        if lacking.len() > 0 {
            assert(lacking.contains(lacking[0]));
            lemma_filter_contains(entries, lacks, lacking[0]);
            let i = choose|i: int| 0 <= i < n && entries[i] == lacking[0];
            assert(is_text_at(entries[i], "cwd"@, Seq::empty()));
        } else {
            assert forall|i: int| 0 <= i < n implies !is_text_at(
                #[trigger] entries[i],
                "cwd"@,
                Seq::empty(),
            ) by {
                assert(entries.contains(entries[i]));
                lemma_filter_contains(entries, lacks, entries[i]);
            }
        }
    }
}

proof fn lemma_count_is_filter(entries: Seq<JsonView>, n: int)
    requires
        0 <= n <= entries.len(),
    ensures
        count_without_cwd(entries, n) == entries.take(n).filter(
            |e: JsonView| is_text_at(e, "cwd"@, Seq::empty()),
        ).len(),
    decreases n,
{
    let lacks = |e: JsonView| is_text_at(e, "cwd"@, Seq::empty());
    if n > 0 {
        lemma_count_is_filter(entries, n - 1);
        lemma_filter_step(entries, lacks, n - 1);
        lemma_lacks_text(entries[n - 1], "cwd"@);
    } else {
        reveal(Seq::filter);
    }
}

/// A mission directory gives a finding where its state is no JSON, and one where it does not name
/// its working directory; the directories follow each other.
pub proof fn findings_on_missions(missions: Seq<MissionCheckView>, n: int)
    requires
        0 <= n < missions.len(),
    ensures
        missions_issues(missions, 0).len() == 0,
        missions_issues(missions, n + 1) == missions_issues(missions, n) + only_if(
            missions[n].state_is_json == Some(false),
            "medium"@,
            "missions/"@ + missions[n].dir,
            "invalid state.json"@,
        ) + only_if(
            !missions[n].has_working_directory,
            "low"@,
            "missions/"@ + missions[n].dir,
            "missing working_directory.txt"@,
        ),
{
    let m = missions[n];
    assert(missions_issues(missions, n + 1) =~= missions_issues(missions, n) + only_if(
        m.state_is_json == Some(false),
        "medium"@,
        "missions/"@ + m.dir,
        "invalid state.json"@,
    ) + only_if(
        !m.has_working_directory,
        "low"@,
        "missions/"@ + m.dir,
        "missing working_directory.txt"@,
    ));
}

/// What is reported are the first 50 of the findings on the two catalog files, the index, the
/// missions, and the two files that only have to be JSON, in this order.
pub proof fn findings_are_reported_file_by_file(config: ParsedConfigView)
    ensures
        ({
            let all = catalog_file_issues(config.settings, "settings.json"@) + catalog_file_issues(
                config.factory_settings,
                "factory-settings.json"@,
            ) + index_file_issues(config.index) + missions_issues(
                config.missions,
                config.missions.len() as int,
            ) + only_if(
                config.task_invocations == Some(false),
                "low"@,
                "task-invocations.json"@,
                "invalid JSON"@,
            ) + only_if(
                config.background_processes == Some(false),
                "low"@,
                "background-processes.json"@,
                "invalid JSON"@,
            );
            &&& all.len() <= 50 ==> reported_issues(config) == all
            &&& all.len() > 50 ==> reported_issues(config) == all.take(50)
        }),
{
}

/// A file is a document where the parser accepts its text, and is told apart from one that it
/// refuses, that is missing, or that cannot be read.
pub proof fn files_are_parsed_as_the_parser_does(t: Seq<char>, e: Seq<char>)
    ensures
        json_text(t) is Ok ==> parsed_file(FileTextView::Text(t)) == ParsedFileView::Document(
            json_text(t)->Ok_0,
        ),
        json_text(t) == Err::<JsonView, Seq<char>>(e) ==> parsed_file(FileTextView::Text(t))
            == ParsedFileView::Invalid(e),
        parsed_file(FileTextView::Missing) == ParsedFileView::Missing,
        parsed_file(FileTextView::Unreadable(e)) == ParsedFileView::Unreadable(e),
        json_check(Some(t)) == Some(json_text(t) is Ok),
        json_check(None) is None,
{
}

/// Each file of the configuration is parsed in its own place, and the mission directories are
/// looked at in their order.
pub proof fn configurations_are_parsed_file_by_file(
    files: ConfigFiles,
    missions: Seq<MissionFiles>,
    i: int,
)
    ensures
        ({
            let config = parsed_config(files, missions);
            let dirs = ordered_directories(missions);
            &&& config.settings == parsed_file(files.settings@)
            &&& config.factory_settings == parsed_file(files.factory_settings@)
            &&& config.index == parsed_file(files.index@)
            &&& config.task_invocations == json_check(opt_string(files.task_invocations))
            &&& config.background_processes == json_check(opt_string(files.background_processes))
            &&& config.missions.len() == dirs.len()
            &&& 0 <= i < dirs.len() ==> {
                &&& config.missions[i].dir == dirs[i].dir
                &&& config.missions[i].has_working_directory == dirs[i].has_working_directory
                &&& config.missions[i].state_is_json == (match dirs[i].state {
                    Some(t) => Some(json_text(t) is Ok),
                    None => None,
                })
            }
        }),
{
}

/// The views of findings and of files show them as they are.
pub proof fn finding_views_show_the_fields(
    x: FactoryConfigIssue,
    f: FileText,
    p: ParsedFile,
    m: MissionCheck,
    c: ParsedConfig,
)
    ensures
        x@.severity == x.severity@,
        x@.file == x.file@,
        x@.message == x.message@,
        match f {
            FileText::Text(t) => f@ == FileTextView::Text(t@),
            FileText::Missing => f@ == FileTextView::Missing,
            FileText::Unreadable(e) => f@ == FileTextView::Unreadable(e@),
        },
        match p {
            ParsedFile::Document(j) => p@ == ParsedFileView::Document(j@),
            ParsedFile::Invalid(e) => p@ == ParsedFileView::Invalid(e@),
            ParsedFile::Missing => p@ == ParsedFileView::Missing,
            ParsedFile::Unreadable(e) => p@ == ParsedFileView::Unreadable(e@),
        },
        m@.dir == m.dir@,
        m@.state_is_json == m.state_is_json,
        m@.has_working_directory == m.has_working_directory,
        c@.settings == c.settings@,
        c@.factory_settings == c.factory_settings@,
        c@.index == c.index@,
        c@.missions == views(c.missions@),
        c@.task_invocations == c.task_invocations,
        c@.background_processes == c.background_processes,
{
}

} // verus!
