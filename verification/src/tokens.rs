//! Token usage, as recorded in the sessions' settings files.

use vstd::prelude::*;

use crate::ids::{IdMap, IdSet};
use crate::json::{document_of, entry_views, is_count_at, opt_json, read_json, Json, JsonView};
use crate::order::lemma_filter_step;
use crate::text::{as_opt_str, opt_string};

verus! {

/// Token usage of a session.
#[derive(Debug, Clone, Copy)]
pub struct SessionTokenUsage {
    pub input: u64,
    pub output: u64,
    pub cache_read: u64,
    pub cache_create: u64,
}

impl Default for SessionTokenUsage {
    fn default() -> (r: Self)
        ensures
            r == no_usage(),
    {
        SessionTokenUsage { input: 0, output: 0, cache_read: 0, cache_create: 0 }
    }
}

/// No usage.
pub open spec fn no_usage() -> SessionTokenUsage {
    SessionTokenUsage { input: 0, output: 0, cache_read: 0, cache_create: 0 }
}

impl SessionTokenUsage {
    /// The tokens of all kinds together.
    pub open spec fn sum(self) -> int {
        self.input + self.output + self.cache_read + self.cache_create
    }

    /// Whether the tokens of all kinds together can be counted in 64 bits.
    pub open spec fn fits(self) -> bool {
        self.sum() <= u64::MAX
    }

    /// The tokens of all kinds together.
    pub fn total(self) -> (r: u64)
        requires
            self.fits(),
        ensures
            r == self.sum(),
    {
        self.input + self.output + self.cache_read + self.cache_create
    }

    /// Whether the tokens of all kinds together can be counted in 64 bits.
    pub fn is_countable(self) -> (r: bool)
        ensures
            r == self.fits(),
    {
        let all: u128 = self.input as u128 + self.output as u128 + self.cache_read as u128
            + self.cache_create as u128;
        all <= 0xffff_ffff_ffff_ffff
    }
}

/// Token usage of the last call of a session.
#[derive(Debug, Clone, Copy)]
pub struct LastCallUsage {
    pub input: u64,
    pub cache_read: u64,
}

impl Default for LastCallUsage {
    fn default() -> (r: Self)
        ensures
            r == no_call(),
    {
        LastCallUsage { input: 0, cache_read: 0 }
    }
}

/// No usage by a last call.
pub open spec fn no_call() -> LastCallUsage {
    LastCallUsage { input: 0, cache_read: 0 }
}

/// The usage that an object records; fields that it lacks count as zero.
pub open spec fn usage_of(v: Option<JsonView>) -> Option<SessionTokenUsage> {
    match v {
        Some(d) => match d {
            JsonView::Object(_) => Some(
                SessionTokenUsage {
                    input: d.u64_at("inputTokens"@),
                    output: d.u64_at("outputTokens"@),
                    cache_read: d.u64_at("cacheReadTokens"@),
                    cache_create: d.u64_at("cacheCreationTokens"@),
                },
            ),
            _ => None,
        },
        None => None,
    }
}

/// The usage of the last call that an object records; fields that it lacks count as zero.
pub open spec fn last_call_of(v: Option<JsonView>) -> Option<LastCallUsage> {
    match v {
        Some(d) => match d {
            JsonView::Object(_) => Some(
                LastCallUsage {
                    input: d.u64_at("inputTokens"@),
                    cache_read: d.u64_at("cacheReadTokens"@),
                },
            ),
            _ => None,
        },
        None => None,
    }
}

/// What the settings files tell of the usage of sessions.
pub struct TokenTables {
    /// A session's own usage.
    pub own: IdMap<SessionTokenUsage>,
    /// A worker's usage as its parent records it.
    pub children: IdMap<SessionTokenUsage>,
    /// The usage of a session's last call.
    pub last_call: IdMap<LastCallUsage>,
}

/// The mathematical value of [`TokenTables`].
#[verifier::ext_equal]
pub struct TokenTablesView {
    pub own: Map<Seq<char>, SessionTokenUsage>,
    pub children: Map<Seq<char>, SessionTokenUsage>,
    pub last_call: Map<Seq<char>, LastCallUsage>,
}

impl View for TokenTables {
    type V = TokenTablesView;

    open spec fn view(&self) -> TokenTablesView {
        TokenTablesView {
            own: self.own@,
            children: self.children@,
            last_call: self.last_call@,
        }
    }
}

/// Tables without an entry.
pub open spec fn no_tables() -> TokenTablesView {
    TokenTablesView { own: Map::empty(), children: Map::empty(), last_call: Map::empty() }
}

/// `m` with `id` set to `value`, where there is one.
pub open spec fn set_if<V>(m: Map<Seq<char>, V>, id: Seq<char>, value: Option<V>) -> Map<
    Seq<char>,
    V,
> {
    match value {
        Some(v) => m.insert(id, v),
        None => m,
    }
}

/// `m` with the usages of the first `n` entries.
pub open spec fn with_children(
    m: Map<Seq<char>, SessionTokenUsage>,
    entries: Seq<(Seq<char>, JsonView)>,
    n: int,
) -> Map<Seq<char>, SessionTokenUsage>
    decreases n,
{
    if n <= 0 {
        m
    } else {
        set_if(
            with_children(m, entries, n - 1),
            entries[n - 1].0,
            usage_of(Some(entries[n - 1].1)),
        )
    }
}

/// The usages of workers that a settings document records.
pub open spec fn child_entries(v: JsonView) -> Seq<(Seq<char>, JsonView)> {
    match v.get("childInclusiveTokenUsageBySessionId"@) {
        Some(d) => match d.as_object() {
            Some(entries) => entries,
            None => Seq::empty(),
        },
        None => Seq::empty(),
    }
}

/// The tables after the settings document of a session.
pub open spec fn with_settings(t: TokenTablesView, id: Seq<char>, v: JsonView) -> TokenTablesView {
    TokenTablesView {
        own: set_if(t.own, id, usage_of(v.get("tokenUsage"@))),
        children: with_children(t.children, child_entries(v), child_entries(v).len() as int),
        last_call: set_if(t.last_call, id, last_call_of(v.get("lastCallTokenUsage"@))),
    }
}

/// A settings file: the session that it belongs to and its text, where it could be read.
#[derive(Debug)]
pub struct SettingsText {
    pub session_id: String,
    pub text: Option<String>,
}

/// The tables after the first `n` files, of which only those of wanted sessions count.
pub open spec fn tables_after(
    files: Seq<SettingsText>,
    wanted: Set<Seq<char>>,
    n: int,
) -> TokenTablesView
    decreases n,
{
    if n <= 0 {
        no_tables()
    } else if wanted.contains(files[n - 1].session_id@) {
        with_settings(
            tables_after(files, wanted, n - 1),
            files[n - 1].session_id@,
            document_of(opt_string(files[n - 1].text)),
        )
    } else {
        tables_after(files, wanted, n - 1)
    }
}

/// Parses a token usage object; missing and unknown fields are tolerated.
pub fn parse_token_usage(v: Option<&Json>) -> (r: Option<SessionTokenUsage>)
    ensures
        r == usage_of(opt_json(v)),
{
    match v {
        Some(d) => match d {
            Json::Object(_) => Some(
                SessionTokenUsage {
                    input: d.u64_at("inputTokens"),
                    output: d.u64_at("outputTokens"),
                    cache_read: d.u64_at("cacheReadTokens"),
                    cache_create: d.u64_at("cacheCreationTokens"),
                },
            ),
            _ => None,
        },
        None => None,
    }
}

/// Parses the usage of a last call; missing and unknown fields are tolerated.
pub fn parse_last_call_usage(v: Option<&Json>) -> (r: Option<LastCallUsage>)
    ensures
        r == last_call_of(opt_json(v)),
{
    match v {
        Some(d) => match d {
            Json::Object(_) => Some(
                LastCallUsage {
                    input: d.u64_at("inputTokens"),
                    cache_read: d.u64_at("cacheReadTokens"),
                },
            ),
            _ => None,
        },
        None => None,
    }
}

impl TokenTables {
    /// Tables without an entry.
    pub fn new() -> (r: Self)
        ensures
            r@ == no_tables(),
    {
        TokenTables { own: IdMap::new(), children: IdMap::new(), last_call: IdMap::new() }
    }

    /// Takes in the settings document of a session.
    pub fn absorb(&mut self, session_id: &str, v: &Json)
        ensures
            final(self)@ == with_settings(old(self)@, session_id@, v@),
    {
        if let Some(usage) = parse_token_usage(v.get("tokenUsage")) {
            self.own.insert(session_id.to_owned(), usage);
        }
        if let Some(usage) = parse_last_call_usage(v.get("lastCallTokenUsage")) {
            self.last_call.insert(session_id.to_owned(), usage);
        }
        let ghost start = self.children@;
        let ghost t = self@;
        if let Some(d) = v.get("childInclusiveTokenUsageBySessionId") {
            if let Some(entries) = d.as_object() {
                let ghost all = entry_views(entries@);
                for i in 0..entries.len()
                    invariant
                        all == entry_views(entries@),
                        self.own@ == t.own,
                        self.last_call@ == t.last_call,
                        self.children@ == with_children(start, all, i as int),
                {
                    proof {
                        assert(all[i as int] == (entries@[i as int].0@, entries@[i as int].1@));
                    }
                    if let Some(usage) = parse_token_usage(Some(&entries[i].1)) {
                        self.children.insert(entries[i].0.clone(), usage);
                    }
                }
            }
        }
    }
}

/// Reads the usage of the wanted sessions out of their settings files: their own, that of their
/// workers, and that of their last call.
///
/// Where several files record the same worker, the last of them counts.
pub fn read_session_tokens(files: &Vec<SettingsText>, wanted: &IdSet) -> (r: (
    IdMap<SessionTokenUsage>,
    IdMap<SessionTokenUsage>,
    IdMap<LastCallUsage>,
))
    ensures
        r.0@ == tables_after(files@, wanted@, files@.len() as int).own,
        r.1@ == tables_after(files@, wanted@, files@.len() as int).children,
        r.2@ == tables_after(files@, wanted@, files@.len() as int).last_call,
{
    let mut tables = TokenTables::new();
    for i in 0..files.len()
        invariant
            tables@ == tables_after(files@, wanted@, i as int),
    {
        if wanted.contains(files[i].session_id.as_str()) {
            let v = read_json(as_opt_str(&files[i].text));
            tables.absorb(files[i].session_id.as_str(), &v);
        }
    }
    let TokenTables { own, children, last_call } = tables;
    (own, children, last_call)
}

/// Only wanted sessions get an entry of their own, and files of others do not count: without
/// them the tables are the same.
pub proof fn only_wanted_files_count(files: Seq<SettingsText>, wanted: Set<Seq<char>>, n: int)
    requires
        0 <= n <= files.len(),
    ensures
        tables_after(files, wanted, n).own.dom().subset_of(wanted),
        tables_after(files, wanted, n).last_call.dom().subset_of(wanted),
        ({
            let kept = files.take(n).filter(|f: SettingsText| wanted.contains(f.session_id@));
            tables_after(files, wanted, n) == tables_after(kept, wanted, kept.len() as int)
        }),
    decreases n,
{
    let keep = |f: SettingsText| wanted.contains(f.session_id@);
    if n == 0 {
        reveal(Seq::filter);
        assert(files.take(0).filter(keep).len() == 0);
    } else {
        only_wanted_files_count(files, wanted, n - 1);
        lemma_filter_step(files, keep, n - 1);
        let kept = files.take(n - 1).filter(keep);
        if keep(files[n - 1]) {
            let more = kept.push(files[n - 1]);
            lemma_tables_of_prefix(more, kept, wanted, kept.len() as int);
            assert(more[kept.len() as int] == files[n - 1]);
        }
    }
}

proof fn lemma_tables_of_prefix(
    a: Seq<SettingsText>,
    b: Seq<SettingsText>,
    wanted: Set<Seq<char>>,
    n: int,
)
    requires
        n <= a.len(),
        n <= b.len(),
        forall|i: int| 0 <= i < n ==> #[trigger] a[i] == b[i],
    ensures
        tables_after(a, wanted, n) == tables_after(b, wanted, n),
    decreases n,
{
    if n > 0 {
        lemma_tables_of_prefix(a, b, wanted, n - 1);
        assert(a[n - 1] == b[n - 1]);
    }
}

/// Whether the settings document of a file is read: its session is wanted.
pub open spec fn is_read(files: Seq<SettingsText>, wanted: Set<Seq<char>>, k: int) -> bool {
    wanted.contains(files[k].session_id@)
}

/// The settings document of a file.
pub open spec fn settings_document(files: Seq<SettingsText>, k: int) -> JsonView {
    document_of(opt_string(files[k].text))
}

/// Where each session has one file, its own usage and that of its last call are those of this
/// file, in whatever order the files come.
pub proof fn own_usage_is_that_of_the_file(
    files: Seq<SettingsText>,
    wanted: Set<Seq<char>>,
    n: int,
    k: int,
)
    requires
        0 <= k < n <= files.len(),
        forall|i: int, j: int|
            0 <= i < j < n ==> (#[trigger] files[i]).session_id@ != (
            #[trigger] files[j]).session_id@,
        is_read(files, wanted, k),
    ensures
        ({
            let t = tables_after(files, wanted, n);
            let id = files[k].session_id@;
            let v = settings_document(files, k);
            &&& usage_of(v.get("tokenUsage"@)) == (if t.own.contains_key(id) {
                Some(t.own[id])
            } else {
                None
            })
            &&& last_call_of(v.get("lastCallTokenUsage"@)) == (if t.last_call.contains_key(id) {
                Some(t.last_call[id])
            } else {
                None
            })
        }),
    decreases n,
{
    if k < n - 1 {
        own_usage_is_that_of_the_file(files, wanted, n - 1, k);
        assert(files[k].session_id@ != files[n - 1].session_id@);
    } else {
        lemma_no_entry_before(files, wanted, k, files[k].session_id@);
    }
}

proof fn lemma_no_entry_before(
    files: Seq<SettingsText>,
    wanted: Set<Seq<char>>,
    n: int,
    id: Seq<char>,
)
    requires
        0 <= n <= files.len(),
        forall|i: int| 0 <= i < n ==> (#[trigger] files[i]).session_id@ != id,
    ensures
        !tables_after(files, wanted, n).own.contains_key(id),
        !tables_after(files, wanted, n).last_call.contains_key(id),
    decreases n,
{
    if n > 0 {
        lemma_no_entry_before(files, wanted, n - 1, id);
        assert(files[n - 1].session_id@ != id);
    }
}

/// Whether the settings document of a file records a usage of the given worker.
pub open spec fn records_worker(
    files: Seq<SettingsText>,
    k: int,
    id: Seq<char>,
    usage: SessionTokenUsage,
) -> bool {
    records_child(
        child_entries(settings_document(files, k)),
        child_entries(settings_document(files, k)).len() as int,
        id,
        usage,
    )
}

/// Whether one of the first `n` entries records the given usage of the given worker.
pub open spec fn records_child(
    entries: Seq<(Seq<char>, JsonView)>,
    n: int,
    id: Seq<char>,
    usage: SessionTokenUsage,
) -> bool {
    exists|j: int|
        0 <= j < n && (#[trigger] entries[j]).0 == id && usage_of(Some(entries[j].1)) == Some(usage)
}

/// A worker has a usage where, and only where, a file that is read records one, and it is one that
/// such a file records, in whatever order the files come.
pub proof fn worker_usage_is_recorded(
    files: Seq<SettingsText>,
    wanted: Set<Seq<char>>,
    n: int,
    id: Seq<char>,
)
    requires
        0 <= n <= files.len(),
    ensures
        ({
            let t = tables_after(files, wanted, n);
            &&& t.children.contains_key(id) <==> exists|k: int, usage: SessionTokenUsage|
                0 <= k < n && is_read(files, wanted, k) && #[trigger] records_worker(
                    files,
                    k,
                    id,
                    usage,
                )
            &&& t.children.contains_key(id) ==> exists|k: int|
                0 <= k < n && is_read(files, wanted, k) && #[trigger] records_worker(
                    files,
                    k,
                    id,
                    t.children[id],
                )
        }),
    decreases n,
{
    if n > 0 {
        worker_usage_is_recorded(files, wanted, n - 1, id);
        let prior = tables_after(files, wanted, n - 1);
        let t = tables_after(files, wanted, n);
        if is_read(files, wanted, n - 1) {
            let entries = child_entries(settings_document(files, n - 1));
            lemma_with_children(prior.children, entries, entries.len() as int, id);
            if t.children.contains_key(id) {
                let usage = t.children[id];
                if records_child(entries, entries.len() as int, id, usage) {
                    assert(records_worker(files, n - 1, id, usage));
                } else {
                    let k = choose|k: int|
                        0 <= k < n - 1 && is_read(files, wanted, k) && #[trigger] records_worker(
                            files,
                            k,
                            id,
                            prior.children[id],
                        );
                    assert(records_worker(files, k, id, usage));
                }
            }
            assert forall|k: int, usage: SessionTokenUsage|
                0 <= k < n && is_read(files, wanted, k) && #[trigger] records_worker(
                    files,
                    k,
                    id,
                    usage,
                ) implies t.children.contains_key(id) by {
                if k == n - 1 {
                    assert(records_child(entries, entries.len() as int, id, usage));
                }
            }
        } else {
            if t.children.contains_key(id) {
                let k = choose|k: int|
                    0 <= k < n - 1 && is_read(files, wanted, k) && #[trigger] records_worker(
                        files,
                        k,
                        id,
                        prior.children[id],
                    );
                assert(records_worker(files, k, id, t.children[id]));
            }
        }
    }
}

proof fn lemma_with_children(
    m: Map<Seq<char>, SessionTokenUsage>,
    entries: Seq<(Seq<char>, JsonView)>,
    n: int,
    id: Seq<char>,
)
    requires
        0 <= n <= entries.len(),
    ensures
        ({
            let r = with_children(m, entries, n);
            &&& m.contains_key(id) ==> r.contains_key(id)
            &&& forall|usage: SessionTokenUsage| #[trigger]
                records_child(entries, n, id, usage) ==> r.contains_key(id)
            &&& r.contains_key(id) ==> records_child(entries, n, id, r[id]) || (m.contains_key(id)
                && r[id] == m[id])
        }),
    decreases n,
{
    if n > 0 {
        lemma_with_children(m, entries, n - 1, id);
        let prior = with_children(m, entries, n - 1);
        let r = with_children(m, entries, n);
        let value = usage_of(Some(entries[n - 1].1));
        assert forall|usage: SessionTokenUsage| #[trigger]
            records_child(entries, n, id, usage) implies r.contains_key(id) by {
            let j = choose|j: int|
                0 <= j < n && (#[trigger] entries[j]).0 == id && usage_of(Some(entries[j].1))
                    == Some(usage);
            if j < n - 1 {
                assert(records_child(entries, n - 1, id, usage));
            }
        }
        if r.contains_key(id) {
            if entries[n - 1].0 == id && value is Some {
                assert(entries[n - 1].0 == id);
            } else if records_child(entries, n - 1, id, prior[id]) {
                let j = choose|j: int|
                    0 <= j < n - 1 && (#[trigger] entries[j]).0 == id && usage_of(
                        Some(entries[j].1),
                    ) == Some(prior[id]);
                assert(entries[j].0 == id);
            }
        }
    }
}

/// Whether `usage` is what the four counts of `d` give.
pub open spec fn is_usage_in(d: JsonView, usage: SessionTokenUsage) -> bool {
    &&& is_count_at(d, "inputTokens"@, usage.input)
    &&& is_count_at(d, "outputTokens"@, usage.output)
    &&& is_count_at(d, "cacheReadTokens"@, usage.cache_read)
    &&& is_count_at(d, "cacheCreationTokens"@, usage.cache_create)
}

/// A usage is read off every object, count by count, and off nothing else.
pub proof fn usages_are_read_off_objects(v: Option<JsonView>)
    ensures
        match v {
            Some(JsonView::Object(entries)) => {
                &&& usage_of(v) is Some
                &&& is_usage_in(v->0, usage_of(v)->0)
                &&& last_call_of(v) is Some
                &&& is_count_at(v->0, "inputTokens"@, last_call_of(v)->0.input)
                &&& is_count_at(v->0, "cacheReadTokens"@, last_call_of(v)->0.cache_read)
            },
            _ => usage_of(v) is None && last_call_of(v) is None,
        },
{
}

/// The tokens of a usage are those of all four kinds, and are countable as far as 64 bits go.
pub proof fn tokens_of_all_kinds_are_counted(usage: SessionTokenUsage)
    ensures
        usage.sum() == usage.input + usage.output + usage.cache_read + usage.cache_create,
        usage.fits() <==> usage.sum() < 0x1_0000_0000_0000_0000,
        no_usage().sum() == 0,
        no_call().input == 0,
        no_call().cache_read == 0,
{
}

/// The entries of the object in which a settings document records its workers.
pub open spec fn worker_entries(v: JsonView) -> Seq<(Seq<char>, JsonView)> {
    match v.get("childInclusiveTokenUsageBySessionId"@) {
        Some(JsonView::Object(entries)) => entries,
        _ => Seq::empty(),
    }
}

/// Whether the file at `k` records a usage of the given worker in an entry from `j` on.
pub open spec fn records_from(files: Seq<SettingsText>, k: int, j: int, id: Seq<char>) -> bool {
    exists|i: int|
        j <= i < worker_entries(document_of(opt_string(files[k].text))).len() && (
        #[trigger] worker_entries(document_of(opt_string(files[k].text)))[i]).0 == id
            && worker_entries(document_of(opt_string(files[k].text)))[i].1 is Object
}

/// Every entry in which a settings file that is read records a worker gives that worker a usage,
/// and it is the usage of this very entry where no later one records the same worker.
pub proof fn every_record_of_a_worker_counts(
    files: Seq<SettingsText>,
    wanted: Set<Seq<char>>,
    n: int,
    k: int,
    j: int,
)
    requires
        0 <= k < n <= files.len(),
        wanted.contains(files[k].session_id@),
        0 <= j < worker_entries(document_of(opt_string(files[k].text))).len(),
        worker_entries(document_of(opt_string(files[k].text)))[j].1 is Object,
    ensures
        ({
            let (id, d) = worker_entries(document_of(opt_string(files[k].text)))[j];
            let children = tables_after(files, wanted, n).children;
            &&& children.contains_key(id)
            &&& !records_from(files, k, j + 1, id) && (forall|k2: int|
                k < k2 < n && wanted.contains((#[trigger] files[k2]).session_id@)
                    ==> !records_from(files, k2, 0, id)) ==> is_usage_in(d, children[id])
        }),
    decreases n,
{
    let v = document_of(opt_string(files[k].text));
    let entries = worker_entries(v);
    let (id, d) = entries[j];
    let children = tables_after(files, wanted, n).children;
    let prior = tables_after(files, wanted, n - 1).children;
    if k < n - 1 {
        every_record_of_a_worker_counts(files, wanted, n - 1, k, j);
        if wanted.contains(files[n - 1].session_id@) {
            let late = document_of(opt_string(files[n - 1].text));
            assert(child_entries(late) == worker_entries(late));
            lemma_entries_keep(prior, child_entries(late), child_entries(late).len() as int, id);
            if !records_from(files, n - 1, 0, id) {
                assert forall|i: int| 0 <= i < child_entries(late).len() implies !((
                #[trigger] child_entries(late)[i]).0 == id && child_entries(late)[i].1 is Object) by {
                    assert(worker_entries(late)[i] == child_entries(late)[i]);
                }
            }
        }
    } else {
        assert(child_entries(v) == entries);
        lemma_entry_counts(prior, entries, entries.len() as int, j);
        if !records_from(files, k, j + 1, id) {
            assert forall|i: int| j < i < entries.len() implies !((#[trigger] entries[i]).0 == id
                && entries[i].1 is Object) by {
                assert(worker_entries(document_of(opt_string(files[k].text)))[i] == entries[i]);
            }
        }
    }
}

proof fn lemma_entries_keep(
    m: Map<Seq<char>, SessionTokenUsage>,
    entries: Seq<(Seq<char>, JsonView)>,
    n: int,
    id: Seq<char>,
)
    requires
        0 <= n <= entries.len(),
    ensures
        m.contains_key(id) ==> with_children(m, entries, n).contains_key(id),
        (forall|i: int|
            0 <= i < n ==> !((#[trigger] entries[i]).0 == id && entries[i].1 is Object)) ==> (
        with_children(m, entries, n).contains_key(id) == m.contains_key(id) && (m.contains_key(id)
            ==> with_children(m, entries, n)[id] == m[id])),
    decreases n,
{
    if n > 0 {
        lemma_entries_keep(m, entries, n - 1, id);
        usages_are_read_off_objects(Some(entries[n - 1].1));
    }
}

proof fn lemma_entry_counts(
    m: Map<Seq<char>, SessionTokenUsage>,
    entries: Seq<(Seq<char>, JsonView)>,
    n: int,
    j: int,
)
    requires
        0 <= j < n <= entries.len(),
        entries[j].1 is Object,
    ensures
        with_children(m, entries, n).contains_key(entries[j].0),
        (forall|i: int|
            j < i < n ==> !((#[trigger] entries[i]).0 == entries[j].0 && entries[i].1 is Object))
            ==> is_usage_in(entries[j].1, with_children(m, entries, n)[entries[j].0]),
    decreases n,
{
    usages_are_read_off_objects(Some(entries[n - 1].1));
    if j < n - 1 {
        lemma_entry_counts(m, entries, n - 1, j);
    }
}

/// Nothing is recorded of a worker that no settings file that is read records.
pub proof fn unrecorded_workers_have_no_usage(
    files: Seq<SettingsText>,
    wanted: Set<Seq<char>>,
    n: int,
    id: Seq<char>,
)
    requires
        0 <= n <= files.len(),
        forall|k: int|
            0 <= k < n && wanted.contains((#[trigger] files[k]).session_id@) ==> !records_from(
                files,
                k,
                0,
                id,
            ),
    ensures
        !tables_after(files, wanted, n).children.contains_key(id),
    decreases n,
{
    if n > 0 {
        unrecorded_workers_have_no_usage(files, wanted, n - 1, id);
        if wanted.contains(files[n - 1].session_id@) {
            let v = document_of(opt_string(files[n - 1].text));
            let prior = tables_after(files, wanted, n - 1).children;
            assert(child_entries(v) == worker_entries(v));
            assert forall|i: int| 0 <= i < child_entries(v).len() implies !((
            #[trigger] child_entries(v)[i]).0 == id && child_entries(v)[i].1 is Object) by {
                assert(worker_entries(v)[i] == child_entries(v)[i]);
            }
            lemma_entries_keep(prior, child_entries(v), child_entries(v).len() as int, id);
        }
    }
}

/// The usage of a session and that of its last call are those that its settings file records,
/// where each session has one file: there where the document has an object under the key, count
/// by count.
pub proof fn own_records_of_a_session_count(
    files: Seq<SettingsText>,
    wanted: Set<Seq<char>>,
    n: int,
    k: int,
)
    requires
        0 <= k < n <= files.len(),
        forall|i: int, j: int|
            0 <= i < j < n ==> (#[trigger] files[i]).session_id@ != (
            #[trigger] files[j]).session_id@,
        wanted.contains(files[k].session_id@),
    ensures
        ({
            let t = tables_after(files, wanted, n);
            let id = files[k].session_id@;
            let v = document_of(opt_string(files[k].text));
            &&& match v.get("tokenUsage"@) {
                Some(JsonView::Object(entries)) => t.own.contains_key(id) && is_usage_in(
                    v.get("tokenUsage"@)->0,
                    t.own[id],
                ),
                _ => !t.own.contains_key(id),
            }
            &&& match v.get("lastCallTokenUsage"@) {
                Some(JsonView::Object(entries)) => t.last_call.contains_key(id) && is_count_at(
                    v.get("lastCallTokenUsage"@)->0,
                    "inputTokens"@,
                    t.last_call[id].input,
                ) && is_count_at(
                    v.get("lastCallTokenUsage"@)->0,
                    "cacheReadTokens"@,
                    t.last_call[id].cache_read,
                ),
                _ => !t.last_call.contains_key(id),
            }
        }),
{
    assert(is_read(files, wanted, k));
    own_usage_is_that_of_the_file(files, wanted, n, k);
    let v = document_of(opt_string(files[k].text));
    usages_are_read_off_objects(v.get("tokenUsage"@));
    usages_are_read_off_objects(v.get("lastCallTokenUsage"@));
}

/// Sessions that are not wanted, or of which there is no file, have no usage of their own.
pub proof fn sessions_without_a_read_file_have_no_usage(
    files: Seq<SettingsText>,
    wanted: Set<Seq<char>>,
    n: int,
    id: Seq<char>,
)
    requires
        0 <= n <= files.len(),
        !wanted.contains(id) || forall|k: int|
            0 <= k < n ==> (#[trigger] files[k]).session_id@ != id,
    ensures
        !tables_after(files, wanted, n).own.contains_key(id),
        !tables_after(files, wanted, n).last_call.contains_key(id),
    decreases n,
{
    if n > 0 {
        sessions_without_a_read_file_have_no_usage(files, wanted, n - 1, id);
        assert(files[n - 1].session_id@ != id || !wanted.contains(id));
    }
}

/// The view of the tables shows each as it is.
pub proof fn table_views_show_the_tables(t: TokenTables)
    ensures
        t@.own == t.own@,
        t@.children == t.children@,
        t@.last_call == t.last_call@,
        no_tables().own == Map::<Seq<char>, SessionTokenUsage>::empty(),
        no_tables().children == Map::<Seq<char>, SessionTokenUsage>::empty(),
        no_tables().last_call == Map::<Seq<char>, LastCallUsage>::empty(),
{
}

/// Taking in a document records the usage of every worker in it, one entry after the other, beside
/// what was recorded of others; and that of the session and of its last call where it has them.
pub proof fn documents_are_taken_in_whole(
    t: TokenTablesView,
    id: Seq<char>,
    v: JsonView,
    j: int,
    other: Seq<char>,
)
    requires
        0 <= j < worker_entries(v).len(),
        worker_entries(v)[j].1 is Object,
        forall|i: int| 0 <= i < worker_entries(v).len() ==> (#[trigger] worker_entries(v)[i]).0
            != other,
        forall|a: int, b: int|
            0 <= a < b < worker_entries(v).len() ==> (#[trigger] worker_entries(v)[a]).0 != (
            #[trigger] worker_entries(v)[b]).0,
    ensures
        ({
            let r = with_settings(t, id, v);
            &&& r.children.contains_key(worker_entries(v)[j].0)
            &&& is_usage_in(worker_entries(v)[j].1, r.children[worker_entries(v)[j].0])
            &&& r.children.contains_key(other) == t.children.contains_key(other)
            &&& t.children.contains_key(other) ==> r.children[other] == t.children[other]
        }),
{
    let entries = worker_entries(v);
    assert(child_entries(v) == entries);
    lemma_entry_counts(t.children, entries, entries.len() as int, j);
    lemma_entries_keep(t.children, entries, entries.len() as int, other);
}

/// Taking in a document sets the session's own usage and that of its last call where the document
/// has an object for it, and leaves those of all other sessions.
pub proof fn documents_set_the_usage_of_their_session(
    t: TokenTablesView,
    id: Seq<char>,
    v: JsonView,
    other: Seq<char>,
)
    requires
        other != id,
    ensures
        ({
            let r = with_settings(t, id, v);
            &&& match v.get("tokenUsage"@) {
                Some(JsonView::Object(entries)) => r.own.contains_key(id) && is_usage_in(
                    v.get("tokenUsage"@)->0,
                    r.own[id],
                ),
                _ => r.own == t.own,
            }
            &&& match v.get("lastCallTokenUsage"@) {
                Some(JsonView::Object(entries)) => r.last_call.contains_key(id) && is_count_at(
                    v.get("lastCallTokenUsage"@)->0,
                    "inputTokens"@,
                    r.last_call[id].input,
                ) && is_count_at(
                    v.get("lastCallTokenUsage"@)->0,
                    "cacheReadTokens"@,
                    r.last_call[id].cache_read,
                ),
                _ => r.last_call == t.last_call,
            }
            &&& r.own.contains_key(other) == t.own.contains_key(other)
            &&& t.own.contains_key(other) ==> r.own[other] == t.own[other]
            &&& r.last_call.contains_key(other) == t.last_call.contains_key(other)
            &&& t.last_call.contains_key(other) ==> r.last_call[other] == t.last_call[other]
        }),
{
}

} // verus!
