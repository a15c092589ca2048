//! The catalog of custom models.
//!
//! Models are listed under `customModels` in two files: `settings.json` (source `droid`) and
//! `factory-settings.json` (source `vibemode`). A model's `apiKey` is never carried over.

use vstd::prelude::*;

use crate::ids::IdSet;
use crate::json::{
    entry_views, is_count_at, is_text_at, item_views, opt_json, parse_optional, parsed, Json,
    JsonView,
};
use crate::order::{
    is_distinct_by, is_ordered, is_ranking, lemma_push_contains, lemma_sort_contains,
    lemma_sort_distinct, rank, sort_by, sort_ranked, sorting_orders, views, Ranked,
};
use crate::text::{
    first_difference, lemma_bytes_not_before, opt_text, str_eq, str_less, text_before,
    texts_are_totally_ordered,
};

verus! {

/// A model of the catalog, without its API key.
#[derive(Debug, Clone)]
pub struct FactoryModel {
    /// Canonical model id, e.g. `custom:large-0`.
    pub id: String,
    /// Provider model name, e.g. `large`.
    pub model: String,
    pub display_name: String,
    pub provider: String,
    pub base_url: String,
    pub max_context_limit: u64,
    pub max_output_tokens: u64,
    pub no_image_support: bool,
    /// Sort index within the source file.
    pub index: i64,
    /// Source catalog: "droid" (`settings.json`) or "vibemode" (`factory-settings.json`).
    pub source: &'static str,
    /// Whether a default, orchestrator or subagent setting refers to the model.
    pub is_default: bool,
}

/// The mathematical value of a [`FactoryModel`].
pub struct ModelView {
    pub id: Seq<char>,
    pub model: Seq<char>,
    pub display_name: Seq<char>,
    pub provider: Seq<char>,
    pub base_url: Seq<char>,
    pub max_context_limit: u64,
    pub max_output_tokens: u64,
    pub no_image_support: bool,
    pub index: i64,
    pub source: Seq<char>,
    pub is_default: bool,
}

impl View for FactoryModel {
    type V = ModelView;

    open spec fn view(&self) -> ModelView {
        ModelView {
            id: self.id@,
            model: self.model@,
            display_name: self.display_name@,
            provider: self.provider@,
            base_url: self.base_url@,
            max_context_limit: self.max_context_limit,
            max_output_tokens: self.max_output_tokens,
            no_image_support: self.no_image_support,
            index: self.index,
            source: self.source@,
            is_default: self.is_default,
        }
    }
}

/// The order of the catalog: by source, then by index, then by id.
pub open spec fn model_before(a: ModelView, b: ModelView) -> bool {
    if a.source != b.source {
        text_before(a.source, b.source)
    } else if a.index != b.index {
        a.index < b.index
    } else {
        text_before(a.id, b.id)
    }
}

impl Ranked for FactoryModel {
    open spec fn ranks_before(a: ModelView, b: ModelView) -> bool {
        model_before(a, b)
    }

    fn is_before(&self, other: &Self) -> (r: bool) {
        if !str_eq(self.source, other.source) {
            str_less(self.source, other.source)
        } else if self.index != other.index {
            self.index < other.index
        } else {
            str_less(self.id.as_str(), other.id.as_str())
        }
    }
}

/// The texts among the values of the first `n` entries.
pub open spec fn section_refs(entries: Seq<(Seq<char>, JsonView)>, n: int) -> Seq<Seq<char>>
    decreases n,
{
    if n <= 0 {
        Seq::empty()
    } else {
        match entries[n - 1].1.as_str() {
            Some(id) => section_refs(entries, n - 1).push(id),
            None => section_refs(entries, n - 1),
        }
    }
}

/// The texts in the objects among the values of the first `n` entries.
pub open spec fn general_refs(entries: Seq<(Seq<char>, JsonView)>, n: int) -> Seq<Seq<char>>
    decreases n,
{
    if n <= 0 {
        Seq::empty()
    } else {
        match entries[n - 1].1.as_object() {
            Some(section) => general_refs(entries, n - 1) + section_refs(
                section,
                section.len() as int,
            ),
            None => general_refs(entries, n - 1),
        }
    }
}

/// An optional text as a list of one or none.
pub open spec fn one_or_none(s: Option<Seq<char>>) -> Seq<Seq<char>> {
    match s {
        Some(t) => seq![t],
        None => Seq::empty(),
    }
}

/// The model that new sessions start with.
pub open spec fn session_ref(v: JsonView) -> Option<Seq<char>> {
    match v.get("sessionDefaultSettings"@) {
        Some(section) => section.str_at("model"@),
        None => None,
    }
}

/// What the settings refer to as a default: the model of new sessions, that of the mission
/// orchestrator, and the texts in the sections of `general`, in this order.
pub open spec fn default_refs_of(v: JsonView) -> Seq<Seq<char>> {
    one_or_none(session_ref(v)) + one_or_none(v.str_at("missionOrchestratorModel"@)) + (
    match v.get("general"@) {
        Some(general) => match general.as_object() {
            Some(entries) => general_refs(entries, entries.len() as int),
            None => Seq::empty(),
        },
        None => Seq::empty(),
    })
}

/// The ids of the models that the settings refer to as a default.
pub open spec fn default_ids_of(v: JsonView) -> Set<Seq<char>> {
    Set::new(|id: Seq<char>| default_refs_of(v).contains(id))
}

/// The default ids of an optional document.
pub open spec fn default_ids_in(v: Option<JsonView>) -> Set<Seq<char>> {
    match v {
        Some(d) => default_ids_of(d),
        None => Set::empty(),
    }
}

/// The models that a document lists, each with the source that it is listed under.
pub open spec fn listed_models(v: Option<JsonView>, source: Seq<char>) -> Seq<
    (Seq<char>, JsonView),
> {
    match v {
        Some(d) => match d.array_at("customModels"@) {
            Some(items) => items.map_values(|m: JsonView| (source, m)),
            None => Seq::empty(),
        },
        None => Seq::empty(),
    }
}

/// The models that the two documents list, those of `settings.json` first.
pub open spec fn candidates_of(settings: Option<JsonView>, vibemode: Option<JsonView>) -> Seq<
    (Seq<char>, JsonView),
> {
    listed_models(settings, "droid"@) + listed_models(vibemode, "vibemode"@)
}

/// The id of a listed model, empty where it has none.
pub open spec fn model_id(m: JsonView) -> Seq<char> {
    m.text_at("id"@)
}

/// Whether the candidate at `i` has an id and is the first with it.
pub open spec fn is_first_of_id(candidates: Seq<(Seq<char>, JsonView)>, i: int) -> bool {
    &&& model_id(candidates[i].1).len() > 0
    &&& forall|j: int|
        0 <= j < i ==> model_id((#[trigger] candidates[j]).1) != model_id(candidates[i].1)
}

/// The catalog entry of a listed model.
pub open spec fn model_of(source: Seq<char>, m: JsonView, defaults: Set<Seq<char>>) -> ModelView {
    ModelView {
        id: model_id(m),
        model: m.text_at("model"@),
        display_name: m.text_at("displayName"@),
        provider: m.text_at("provider"@),
        base_url: m.text_at("baseUrl"@),
        max_context_limit: m.u64_at("maxContextLimit"@),
        max_output_tokens: m.u64_at("maxOutputTokens"@),
        no_image_support: m.bool_at("noImageSupport"@),
        index: match m.i64_at("index"@) {
            Some(i) => i,
            None => 0,
        },
        source,
        is_default: defaults.contains(model_id(m)),
    }
}

/// The catalog entries of the first `n` candidates, one for each id, in the order of the files.
pub open spec fn kept_models(
    candidates: Seq<(Seq<char>, JsonView)>,
    defaults: Set<Seq<char>>,
    n: int,
) -> Seq<ModelView>
    decreases n,
{
    if n <= 0 {
        Seq::empty()
    } else if is_first_of_id(candidates, n - 1) {
        kept_models(candidates, defaults, n - 1).push(
            model_of(candidates[n - 1].0, candidates[n - 1].1, defaults),
        )
    } else {
        kept_models(candidates, defaults, n - 1)
    }
}

/// The catalog of two documents: of the models with the same id the first, in the order of the
/// catalog.
pub open spec fn catalog_of(settings: Option<JsonView>, vibemode: Option<JsonView>) -> Seq<
    ModelView,
> {
    let candidates = candidates_of(settings, vibemode);
    let defaults = default_ids_in(settings).union(default_ids_in(vibemode));
    sort_by(
        kept_models(candidates, defaults, candidates.len() as int),
        |a: ModelView, b: ModelView| model_before(a, b),
    )
}

/// The views of a list of texts.
pub open spec fn text_views(list: Seq<&str>) -> Seq<Seq<char>> {
    list.map_values(|s: &str| s@)
}

/// Appends the texts among the values of `section`.
fn push_section_refs<'a>(section: &'a Vec<(String, Json)>, refs: &mut Vec<&'a str>)
    ensures
        text_views(final(refs)@) == text_views(old(refs)@) + section_refs(
            entry_views(section@),
            section@.len() as int,
        ),
{
    let ghost start = text_views(refs@);
    let ghost entries = entry_views(section@);
    proof {
        assert(text_views(refs@) =~= start + section_refs(entries, 0));
    }
    for i in 0..section.len()
        invariant
            entries == entry_views(section@),
            text_views(refs@) == start + section_refs(entries, i as int),
    {
        let ghost prior = text_views(refs@);
        proof {
            assert(entries[i as int].1 == section@[i as int].1@);
        }
        if let Some(id) = section[i].1.as_str() {
            refs.push(id);
            proof {
                assert(text_views(refs@) =~= prior.push(id@));
                assert(prior.push(id@) =~= start + section_refs(entries, i as int).push(id@));
            }
        }
    }
}

/// What the settings refer to as a default.
pub fn default_refs<'a>(v: &'a Json) -> (refs: Vec<&'a str>)
    ensures
        text_views(refs@) == default_refs_of(v@),
{
    let mut refs: Vec<&'a str> = Vec::new();
    proof {
        assert(text_views(refs@) =~= Seq::<Seq<char>>::empty());
    }
    if let Some(section) = v.get("sessionDefaultSettings") {
        if let Some(id) = section.str_at("model") {
            refs.push(id);
        }
    }
    proof {
        assert(text_views(refs@) =~= one_or_none(session_ref(v@)));
    }
    if let Some(id) = v.str_at("missionOrchestratorModel") {
        refs.push(id);
    }
    let ghost start = one_or_none(session_ref(v@)) + one_or_none(
        v@.str_at("missionOrchestratorModel"@),
    );
    proof {
        assert(text_views(refs@) =~= start);
    }
    if let Some(general) = v.get("general") {
        if let Some(sections) = general.as_object() {
            let ghost entries = entry_views(sections@);
            proof {
                assert(text_views(refs@) =~= start + general_refs(entries, 0));
            }
            for i in 0..sections.len()
                invariant
                    entries == entry_views(sections@),
                    text_views(refs@) == start + general_refs(entries, i as int),
            {
                proof {
                    assert(entries[i as int].1 == sections@[i as int].1@);
                }
                if let Some(section) = sections[i].1.as_object() {
                    push_section_refs(section, &mut refs);
                    proof {
                        assert(text_views(refs@) =~= start + general_refs(entries, i + 1));
                    }
                }
            }
            return refs;
        }
    }
    proof {
        assert(start =~= default_refs_of(v@));
    }
    refs
}

/// Adds the ids of the models that the settings refer to as a default.
pub fn collect_default_ids(v: &Json, ids: &mut IdSet)
    ensures
        final(ids)@ == old(ids)@.union(default_ids_of(v@)),
{
    let refs = default_refs(v);
    let ghost all = default_refs_of(v@);
    let ghost start = ids@;
    proof {
        assert(ids@ =~= start.union(
            Set::new(|id: Seq<char>| all.take(0).contains(id)),
        ));
    }
    for i in 0..refs.len()
        invariant
            all == text_views(refs@),
            ids@ == start.union(
                Set::new(|id: Seq<char>| all.take(i as int).contains(id)),
            ),
    {
        let ghost prior = ids@;
        let id = refs[i];
        proof {
            assert(all[i as int] == id@);
            assert(all.take(i + 1) =~= all.take(i as int).push(id@));
            assert forall|x: Seq<char>|
                all.take(i + 1).contains(x) <==> (all.take(i as int).contains(x) || x == id@) by {
                if x == id@ {
                    assert(all.take(i + 1)[i as int] == x);
                }
                if all.take(i as int).contains(x) {
                    let k = choose|k: int| 0 <= k < i && all.take(i as int)[k] == x;
                    assert(all.take(i + 1)[k] == x);
                }
            }
        }
        ids.insert(id.to_owned());
        proof {
            assert(ids@ =~= start.union(
                Set::new(|x: Seq<char>| all.take(i + 1).contains(x)),
            ));
        }
    }
    proof {
        assert(all.take(all.len() as int) =~= all);
        assert(ids@ =~= start.union(default_ids_of(v@)));
    }
}

/// The views of a list of candidates.
pub open spec fn candidate_views(list: Seq<(&'static str, &Json)>) -> Seq<(Seq<char>, JsonView)> {
    list.map_values(|c: (&'static str, &Json)| (c.0@, c.1@))
}

/// Appends the models that a document lists.
fn push_listed<'a>(
    v: Option<&'a Json>,
    source: &'static str,
    list: &mut Vec<(&'static str, &'a Json)>,
)
    ensures
        candidate_views(final(list)@) == candidate_views(old(list)@) + listed_models(
            opt_json(v),
            source@,
        ),
{
    let ghost start = candidate_views(list@);
    let ghost all = listed_models(opt_json(v), source@);
    if let Some(document) = v {
        if let Some(items) = document.array_at("customModels") {
            proof {
                assert(candidate_views(list@) =~= start + all.take(0));
            }
            for i in 0..items.len()
                invariant
                    all == item_views(items@).map_values(|m: JsonView| (source@, m)),
                    candidate_views(list@) == start + all.take(i as int),
            {
                let ghost prior = candidate_views(list@);
                list.push((source, &items[i]));
                proof {
                    assert(all[i as int] == (source@, items@[i as int]@));
                    assert(candidate_views(list@) =~= prior.push((source@, items@[i as int]@)));
                    assert(candidate_views(list@) =~= start + all.take(i + 1));
                }
            }
            proof {
                assert(all.take(all.len() as int) =~= all);
            }
            return;
        }
    }
    proof {
        assert(start =~= start + all);
    }
}

/// The catalog of two documents, as far as they are there.
pub fn build_catalog(settings: Option<&Json>, vibemode: Option<&Json>) -> (r: Vec<FactoryModel>)
    ensures
        views(r@) == catalog_of(opt_json(settings), opt_json(vibemode)),
{
    let mut defaults = IdSet::new();
    if let Some(v) = settings {
        collect_default_ids(v, &mut defaults);
    }
    if let Some(v) = vibemode {
        collect_default_ids(v, &mut defaults);
    }
    let ghost default_set = default_ids_in(opt_json(settings)).union(
        default_ids_in(opt_json(vibemode)),
    );
    proof {
        assert(defaults@ =~= default_set);
    }
    let mut candidates: Vec<(&'static str, &Json)> = Vec::new();
    push_listed(settings, "droid", &mut candidates);
    push_listed(vibemode, "vibemode", &mut candidates);
    let ghost all = candidates_of(opt_json(settings), opt_json(vibemode));
    proof {
        assert(candidate_views(candidates@) =~= all);
    }
    let mut seen = IdSet::new();
    let mut kept: Vec<FactoryModel> = Vec::new();
    proof {
        assert(views(kept@) =~= kept_models(all, default_set, 0));
    }
    for i in 0..candidates.len()
        invariant
            all == candidate_views(candidates@),
            defaults@ == default_set,
            views(kept@) == kept_models(all, default_set, i as int),
            forall|id: Seq<char>| #[trigger]
                seen@.contains(id) <==> id.len() > 0 && exists|j: int|
                    0 <= j < i && model_id((#[trigger] all[j]).1) == id,
    {
        let (source, m) = candidates[i];
        let id = m.text_at("id");
        proof {
            assert(all[i as int] == (source@, m@));
        }
        let ghost prior = seen@;
        if id.as_str().is_empty() {
            proof {
                assert(!is_first_of_id(all, i as int));
            }
        } else if !seen.insert(id.clone()) {
            proof {
                assert(prior.contains(id@));
                assert(seen@ =~= prior);
                assert(!is_first_of_id(all, i as int));
            }
        } else {
            proof {
                assert(!prior.contains(id@));
                assert(is_first_of_id(all, i as int)) by {
                    assert forall|j: int| 0 <= j < i implies model_id((#[trigger] all[j]).1)
                        != id@ by {}
                }
            }
            let is_default = defaults.contains(id.as_str());
            let ghost before_push = views(kept@);
            kept.push(
                FactoryModel {
                    id,
                    model: m.text_at("model"),
                    display_name: m.text_at("displayName"),
                    provider: m.text_at("provider"),
                    base_url: m.text_at("baseUrl"),
                    max_context_limit: m.u64_at("maxContextLimit"),
                    max_output_tokens: m.u64_at("maxOutputTokens"),
                    no_image_support: m.bool_at("noImageSupport"),
                    index: match m.i64_at("index") {
                        Some(index) => index,
                        None => 0,
                    },
                    source,
                    is_default,
                },
            );
            proof {
                assert(views(kept@) =~= before_push.push(model_of(source@, m@, default_set)));
            }
        }
        proof {
            assert forall|x: Seq<char>| #[trigger]
                seen@.contains(x) <==> x.len() > 0 && exists|j: int|
                    0 <= j < i + 1 && model_id((#[trigger] all[j]).1) == x by {
                if x.len() > 0 && x == model_id(all[i as int].1) {
                    assert(seen@.contains(x));
                }
                if prior.contains(x) {
                    let j = choose|j: int| 0 <= j < i && model_id((#[trigger] all[j]).1) == x;
                    assert(model_id(all[j].1) == x);
                }
            }
        }
    }
    proof {
        assert(rank::<FactoryModel>() =~= (|a: ModelView, b: ModelView| model_before(a, b)));
    }
    sort_ranked(kept)
}

/// The catalog, from the texts of `settings.json` and `factory-settings.json`, as far as they
/// could be read.
pub fn read_models(settings: Option<&str>, vibemode: Option<&str>) -> (r: Vec<FactoryModel>)
    ensures
        views(r@) == catalog_of(parsed(opt_text(settings)), parsed(opt_text(vibemode))),
{
    let a = parse_optional(settings);
    let b = parse_optional(vibemode);
    build_catalog(a.as_ref(), b.as_ref())
}

/// The ranking of catalog entries.
pub open spec fn catalog_rank() -> spec_fn(ModelView, ModelView) -> bool {
    |a: ModelView, b: ModelView| model_before(a, b)
}

/// The ids of the default models of two documents.
pub open spec fn defaults_of(settings: Option<JsonView>, vibemode: Option<JsonView>) -> Set<
    Seq<char>,
> {
    default_ids_in(settings).union(default_ids_in(vibemode))
}

/// The order of the catalog is a ranking.
pub proof fn catalog_order_is_a_ranking()
    ensures
        is_ranking(catalog_rank()),
{
    let before = catalog_rank();
    assert forall|a: ModelView, b: ModelView| #[trigger] before(a, b) implies !before(b, a) by {
        texts_are_totally_ordered(a.source, b.source);
        texts_are_totally_ordered(a.id, b.id);
    }
    assert forall|a: ModelView, b: ModelView, c: ModelView|
        #![trigger before(a, b), before(b, c)]
        !before(a, b) && !before(b, c) implies !before(a, c) by {
        texts_are_totally_ordered(a.source, b.source);
        texts_are_totally_ordered(b.source, c.source);
        texts_are_totally_ordered(a.source, c.source);
        texts_are_totally_ordered(c.source, a.source);
        if a.source != b.source || b.source != c.source {
            if !text_before(a.source, b.source) && !text_before(b.source, c.source) {
                lemma_bytes_not_before(
                    vstd::utf8::encode_utf8(a.source),
                    vstd::utf8::encode_utf8(b.source),
                    vstd::utf8::encode_utf8(c.source),
                );
            }
            if a.source == c.source {
                texts_are_totally_ordered(b.source, a.source);
            }
        } else if a.index == b.index && b.index == c.index {
            lemma_bytes_not_before(
                vstd::utf8::encode_utf8(a.id),
                vstd::utf8::encode_utf8(b.id),
                vstd::utf8::encode_utf8(c.id),
            );
        }
    }
}

/// The catalog is in its order: by source, then by index, then by id.
pub proof fn catalog_is_ordered(settings: Option<JsonView>, vibemode: Option<JsonView>)
    ensures
        is_ordered(catalog_of(settings, vibemode), catalog_rank()),
{
    let candidates = candidates_of(settings, vibemode);
    let kept = kept_models(candidates, defaults_of(settings, vibemode), candidates.len() as int);
    catalog_order_is_a_ranking();
    sorting_orders(kept, catalog_rank());
}

/// The catalog holds the first listed model of each id, and nothing else.
pub proof fn catalog_holds_the_first_of_each_id(
    settings: Option<JsonView>,
    vibemode: Option<JsonView>,
    m: ModelView,
)
    ensures
        ({
            let candidates = candidates_of(settings, vibemode);
            catalog_of(settings, vibemode).contains(m) <==> exists|i: int|
                0 <= i < candidates.len() && #[trigger] is_first_of_id(candidates, i) && m
                    == model_of(
                    candidates[i].0,
                    candidates[i].1,
                    defaults_of(settings, vibemode),
                )
        }),
{
    let candidates = candidates_of(settings, vibemode);
    let defaults = defaults_of(settings, vibemode);
    let kept = kept_models(candidates, defaults, candidates.len() as int);
    lemma_kept_contains(candidates, defaults, candidates.len() as int, m);
    lemma_sort_contains(kept, catalog_rank(), m);
}

/// No two models of the catalog have the same id, and none has an empty one.
pub proof fn catalog_ids_are_unique(settings: Option<JsonView>, vibemode: Option<JsonView>)
    ensures
        is_distinct_by(catalog_of(settings, vibemode), |m: ModelView| m.id),
        forall|i: int|
            0 <= i < catalog_of(settings, vibemode).len() ==> (#[trigger] catalog_of(
                settings,
                vibemode,
            )[i]).id.len() > 0,
{
    let candidates = candidates_of(settings, vibemode);
    let defaults = defaults_of(settings, vibemode);
    let kept = kept_models(candidates, defaults, candidates.len() as int);
    lemma_kept_distinct(candidates, defaults, candidates.len() as int);
    lemma_sort_distinct(kept, catalog_rank(), |m: ModelView| m.id);
    let all = catalog_of(settings, vibemode);
    assert forall|i: int| 0 <= i < all.len() implies (#[trigger] all[i]).id.len() > 0 by {
        assert(all.contains(all[i]));
        catalog_holds_the_first_of_each_id(settings, vibemode, all[i]);
    }
}

/// Every listed model that has an id is in the catalog under it.
pub proof fn listed_ids_are_in_the_catalog(
    settings: Option<JsonView>,
    vibemode: Option<JsonView>,
    k: int,
)
    requires
        0 <= k < candidates_of(settings, vibemode).len(),
        model_id(candidates_of(settings, vibemode)[k].1).len() > 0,
    ensures
        exists|m: ModelView| #[trigger]
            catalog_of(settings, vibemode).contains(m) && m.id == model_id(
                candidates_of(settings, vibemode)[k].1,
            ),
{
    let candidates = candidates_of(settings, vibemode);
    let i = lemma_first_of_id(candidates, k);
    let m = model_of(candidates[i].0, candidates[i].1, defaults_of(settings, vibemode));
    assert(is_first_of_id(candidates, i));
    catalog_holds_the_first_of_each_id(settings, vibemode, m);
    assert(catalog_of(settings, vibemode).contains(m));
}

/// A model that `settings.json` lists is taken from there, whatever the other file says of it.
pub proof fn settings_win(
    settings: Option<JsonView>,
    vibemode: Option<JsonView>,
    k: int,
    m: ModelView,
)
    requires
        0 <= k < listed_models(settings, "droid"@).len(),
        catalog_of(settings, vibemode).contains(m),
        m.id == model_id(listed_models(settings, "droid"@)[k].1),
    ensures
        m.source == "droid"@,
{
    let own = listed_models(settings, "droid"@);
    let candidates = candidates_of(settings, vibemode);
    catalog_holds_the_first_of_each_id(settings, vibemode, m);
    let i = choose|i: int|
        0 <= i < candidates.len() && #[trigger] is_first_of_id(candidates, i) && m == model_of(
            candidates[i].0,
            candidates[i].1,
            defaults_of(settings, vibemode),
        );
    assert(candidates[k] == own[k]);
    if i >= own.len() {
        assert(model_id(candidates[k].1) == model_id(candidates[i].1));
        assert(false);
    }
    assert(candidates[i] == own[i]);
}

/// A model of the catalog is a default one where, and only where, one of the documents refers to
/// it, whichever lists it.
pub proof fn defaults_are_those_referred_to(
    settings: Option<JsonView>,
    vibemode: Option<JsonView>,
    m: ModelView,
)
    requires
        catalog_of(settings, vibemode).contains(m),
    ensures
        m.is_default == ((settings is Some && default_refs_of(settings->0).contains(m.id)) || (
        vibemode is Some && default_refs_of(vibemode->0).contains(m.id))),
{
    catalog_holds_the_first_of_each_id(settings, vibemode, m);
}

/// Whether two listed models differ at most in their API key.
pub open spec fn agree_but_for_key(a: JsonView, b: JsonView) -> bool {
    forall|key: Seq<char>| key != "apiKey"@ ==> #[trigger] a.get(key) == b.get(key)
}

/// Whether two documents differ at most in the API keys of the models that they list.
pub open spec fn differ_in_keys_only(a: JsonView, b: JsonView) -> bool {
    &&& forall|key: Seq<char>| key != "customModels"@ ==> #[trigger] a.get(key) == b.get(key)
    &&& match (a.array_at("customModels"@), b.array_at("customModels"@)) {
        (Some(x), Some(y)) => x.len() == y.len() && forall|i: int|
            0 <= i < x.len() ==> agree_but_for_key(#[trigger] x[i], #[trigger] y[i]),
        (None, None) => true,
        _ => false,
    }
}

/// Whether two optional documents differ at most in the API keys of the models that they list.
pub open spec fn opt_differ_in_keys_only(a: Option<JsonView>, b: Option<JsonView>) -> bool {
    match (a, b) {
        (Some(x), Some(y)) => differ_in_keys_only(x, y),
        (None, None) => true,
        _ => false,
    }
}

/// API keys never reach the catalog: documents that differ in nothing else give the same one.
pub proof fn catalog_drops_api_keys(
    settings: Option<JsonView>,
    vibemode: Option<JsonView>,
    settings2: Option<JsonView>,
    vibemode2: Option<JsonView>,
)
    requires
        opt_differ_in_keys_only(settings, settings2),
        opt_differ_in_keys_only(vibemode, vibemode2),
    ensures
        catalog_of(settings, vibemode) == catalog_of(settings2, vibemode2),
{
    let a = candidates_of(settings, vibemode);
    let b = candidates_of(settings2, vibemode2);
    lemma_names_differ();
    lemma_listed_agree(settings, settings2, "droid"@);
    lemma_listed_agree(vibemode, vibemode2, "vibemode"@);
    lemma_defaults_agree(settings, settings2);
    lemma_defaults_agree(vibemode, vibemode2);
    assert forall|i: int| 0 <= i < a.len() implies (#[trigger] a[i]).0 == b[i].0
        && agree_but_for_key(a[i].1, b[i].1) by {
        let n = listed_models(settings, "droid"@).len();
        if i < n {
            assert(a[i] == listed_models(settings, "droid"@)[i]);
            assert(b[i] == listed_models(settings2, "droid"@)[i]);
        } else {
            assert(a[i] == listed_models(vibemode, "vibemode"@)[i - n]);
            assert(b[i] == listed_models(vibemode2, "vibemode"@)[i - n]);
        }
    }
    lemma_kept_agree(a, b, defaults_of(settings, vibemode), a.len() as int);
}

/// None of the keys that are read is that of the API key, nor that of the list of models.
pub proof fn lemma_names_differ()
    ensures
        "id"@ != "apiKey"@,
        "model"@ != "apiKey"@,
        "displayName"@ != "apiKey"@,
        "provider"@ != "apiKey"@,
        "baseUrl"@ != "apiKey"@,
        "maxContextLimit"@ != "apiKey"@,
        "maxOutputTokens"@ != "apiKey"@,
        "noImageSupport"@ != "apiKey"@,
        "index"@ != "apiKey"@,
        "sessionDefaultSettings"@ != "customModels"@,
        "missionOrchestratorModel"@ != "customModels"@,
        "general"@ != "customModels"@,
{
    reveal_strlit("id");
    reveal_strlit("model");
    reveal_strlit("displayName");
    reveal_strlit("provider");
    reveal_strlit("baseUrl");
    reveal_strlit("maxContextLimit");
    reveal_strlit("maxOutputTokens");
    reveal_strlit("noImageSupport");
    reveal_strlit("index");
    reveal_strlit("apiKey");
    reveal_strlit("sessionDefaultSettings");
    reveal_strlit("missionOrchestratorModel");
    reveal_strlit("general");
    reveal_strlit("customModels");
    assert("id"@[0] != "apiKey"@[0]);
    assert("model"@[0] != "apiKey"@[0]);
    assert("displayName"@[0] != "apiKey"@[0]);
    assert("provider"@[0] != "apiKey"@[0]);
    assert("baseUrl"@[0] != "apiKey"@[0]);
    assert("maxContextLimit"@[0] != "apiKey"@[0]);
    assert("maxOutputTokens"@[0] != "apiKey"@[0]);
    assert("noImageSupport"@[0] != "apiKey"@[0]);
    assert("index"@[0] != "apiKey"@[0]);
    assert("general"@[0] != "customModels"@[0]);
    assert("sessionDefaultSettings"@[0] != "customModels"@[0]);
    assert("missionOrchestratorModel"@[0] != "customModels"@[0]);
}

/// Documents that differ in API keys only refer to the same default models.
pub proof fn lemma_refs_agree(a: JsonView, b: JsonView)
    requires
        differ_in_keys_only(a, b),
    ensures
        default_refs_of(a) == default_refs_of(b),
{
    lemma_names_differ();
    assert(a.get("sessionDefaultSettings"@) == b.get("sessionDefaultSettings"@));
    assert(a.get("missionOrchestratorModel"@) == b.get("missionOrchestratorModel"@));
    assert(a.get("general"@) == b.get("general"@));
}

proof fn lemma_defaults_agree(a: Option<JsonView>, b: Option<JsonView>)
    requires
        opt_differ_in_keys_only(a, b),
    ensures
        default_ids_in(a) == default_ids_in(b),
{
    if a is Some {
        lemma_refs_agree(a->0, b->0);
    }
}

proof fn lemma_listed_agree(a: Option<JsonView>, b: Option<JsonView>, source: Seq<char>)
    requires
        opt_differ_in_keys_only(a, b),
    ensures
        listed_models(a, source).len() == listed_models(b, source).len(),
        forall|i: int|
            0 <= i < listed_models(a, source).len() ==> (#[trigger] listed_models(a, source)[i]).0
                == listed_models(b, source)[i].0 && agree_but_for_key(
                listed_models(a, source)[i].1,
                listed_models(b, source)[i].1,
            ),
{
    if a is Some && a->0.array_at("customModels"@) is Some {
        let x = a->0.array_at("customModels"@)->0;
        let y = b->0.array_at("customModels"@)->0;
        assert forall|i: int| 0 <= i < x.len() implies (#[trigger] listed_models(a, source)[i]).0
            == listed_models(b, source)[i].0 && agree_but_for_key(
            listed_models(a, source)[i].1,
            listed_models(b, source)[i].1,
        ) by {
            assert(listed_models(a, source)[i] == (source, x[i]));
            assert(listed_models(b, source)[i] == (source, y[i]));
        }
    }
}

proof fn lemma_model_agrees(source: Seq<char>, a: JsonView, b: JsonView, defaults: Set<Seq<char>>)
    requires
        agree_but_for_key(a, b),
    ensures
        model_id(a) == model_id(b),
        model_of(source, a, defaults) == model_of(source, b, defaults),
{
    lemma_names_differ();
    assert(a.get("id"@) == b.get("id"@));
    assert(a.get("model"@) == b.get("model"@));
    assert(a.get("displayName"@) == b.get("displayName"@));
    assert(a.get("provider"@) == b.get("provider"@));
    assert(a.get("baseUrl"@) == b.get("baseUrl"@));
    assert(a.get("maxContextLimit"@) == b.get("maxContextLimit"@));
    assert(a.get("maxOutputTokens"@) == b.get("maxOutputTokens"@));
    assert(a.get("noImageSupport"@) == b.get("noImageSupport"@));
    assert(a.get("index"@) == b.get("index"@));
}

proof fn lemma_kept_agree(
    a: Seq<(Seq<char>, JsonView)>,
    b: Seq<(Seq<char>, JsonView)>,
    defaults: Set<Seq<char>>,
    n: int,
)
    requires
        a.len() == b.len(),
        n <= a.len(),
        forall|i: int|
            0 <= i < a.len() ==> (#[trigger] a[i]).0 == b[i].0 && agree_but_for_key(
                a[i].1,
                b[i].1,
            ),
    ensures
        kept_models(a, defaults, n) == kept_models(b, defaults, n),
    decreases n,
{
    if n > 0 {
        lemma_kept_agree(a, b, defaults, n - 1);
        assert forall|i: int| 0 <= i < n implies model_id((#[trigger] a[i]).1) == model_id(
            b[i].1,
        ) by {
            lemma_model_agrees(a[i].0, a[i].1, b[i].1, defaults);
        }
        assert(is_first_of_id(a, n - 1) == is_first_of_id(b, n - 1)) by {
            assert(model_id(a[n - 1].1) == model_id(b[n - 1].1));
            if is_first_of_id(a, n - 1) {
                assert forall|j: int| 0 <= j < n - 1 implies model_id((#[trigger] b[j]).1)
                    != model_id(b[n - 1].1) by {
                    assert(model_id(a[j].1) == model_id(b[j].1));
                }
            }
            if is_first_of_id(b, n - 1) {
                assert forall|j: int| 0 <= j < n - 1 implies model_id((#[trigger] a[j]).1)
                    != model_id(a[n - 1].1) by {
                    assert(model_id(a[j].1) == model_id(b[j].1));
                }
            }
        }
        lemma_model_agrees(a[n - 1].0, a[n - 1].1, b[n - 1].1, defaults);
    }
}

proof fn lemma_first_of_id(candidates: Seq<(Seq<char>, JsonView)>, k: int) -> (i: int)
    requires
        0 <= k < candidates.len(),
        model_id(candidates[k].1).len() > 0,
    ensures
        0 <= i <= k,
        is_first_of_id(candidates, i),
        model_id(candidates[i].1) == model_id(candidates[k].1),
    decreases k,
{
    if is_first_of_id(candidates, k) {
        k
    } else {
        let j = choose|j: int|
            0 <= j < k && model_id((#[trigger] candidates[j]).1) == model_id(candidates[k].1);
        lemma_first_of_id(candidates, j)
    }
}

proof fn lemma_kept_contains(
    candidates: Seq<(Seq<char>, JsonView)>,
    defaults: Set<Seq<char>>,
    n: int,
    m: ModelView,
)
    requires
        n <= candidates.len(),
    ensures
        kept_models(candidates, defaults, n).contains(m) <==> exists|i: int|
            0 <= i < n && #[trigger] is_first_of_id(candidates, i) && m == model_of(
                candidates[i].0,
                candidates[i].1,
                defaults,
            ),
    decreases n,
{
    if n > 0 {
        lemma_kept_contains(candidates, defaults, n - 1, m);
        let kept = kept_models(candidates, defaults, n - 1);
        let last = model_of(candidates[n - 1].0, candidates[n - 1].1, defaults);
        lemma_push_contains(kept, last, m);
        if kept.contains(m) {
            let i = choose|i: int|
                0 <= i < n - 1 && #[trigger] is_first_of_id(candidates, i) && m == model_of(
                    candidates[i].0,
                    candidates[i].1,
                    defaults,
                );
            assert(is_first_of_id(candidates, i));
        }
        if is_first_of_id(candidates, n - 1) && m == last {
            assert(kept_models(candidates, defaults, n).contains(m));
        }
    }
}

proof fn lemma_kept_distinct(
    candidates: Seq<(Seq<char>, JsonView)>,
    defaults: Set<Seq<char>>,
    n: int,
)
    requires
        n <= candidates.len(),
    ensures
        is_distinct_by(kept_models(candidates, defaults, n), |m: ModelView| m.id),
    decreases n,
{
    if n > 0 {
        lemma_kept_distinct(candidates, defaults, n - 1);
        let kept = kept_models(candidates, defaults, n - 1);
        let all = kept_models(candidates, defaults, n);
        assert forall|i: int, j: int| 0 <= i < j < all.len() implies (#[trigger] all[i]).id != (
        #[trigger] all[j]).id by {
            if j < kept.len() {
                assert(all[i] == kept[i] && all[j] == kept[j]);
            } else {
                assert(all[i] == kept[i]);
                assert(kept.contains(kept[i]));
                lemma_kept_contains(candidates, defaults, n - 1, kept[i]);
            }
        }
    }
}

/// Whether each field of `m` that a listed model gives is what `d` holds under its key.
pub open spec fn is_entry_of(m: ModelView, d: JsonView) -> bool {
    &&& is_text_at(d, "id"@, m.id)
    &&& is_text_at(d, "model"@, m.model)
    &&& is_text_at(d, "displayName"@, m.display_name)
    &&& is_text_at(d, "provider"@, m.provider)
    &&& is_text_at(d, "baseUrl"@, m.base_url)
    &&& is_count_at(d, "maxContextLimit"@, m.max_context_limit)
    &&& is_count_at(d, "maxOutputTokens"@, m.max_output_tokens)
    &&& m.no_image_support <==> d.get("noImageSupport"@) == Some(JsonView::Bool(true))
    &&& match d.get("index"@) {
        Some(JsonView::Number(n)) => match n.signed {
            Some(i) => m.index == i,
            None => m.index == 0,
        },
        _ => m.index == 0,
    }
}

/// The models that a file lists.
pub open spec fn models_in(v: Option<JsonView>) -> Seq<JsonView> {
    match v {
        Some(d) => match d.get("customModels"@) {
            Some(JsonView::Array(items)) => items,
            _ => Seq::empty(),
        },
        None => Seq::empty(),
    }
}

/// Whether one of the sections of a `general` object holds the given text.
pub open spec fn stands_in_a_section(v: JsonView, id: Seq<char>) -> bool {
    match v.get("general"@) {
        Some(JsonView::Object(sections)) => exists|i: int, j: int|
            #![trigger sections[i].1->Object_0[j]]
            0 <= i < sections.len() && sections[i].1 is Object && 0 <= j
                < sections[i].1->Object_0.len() && sections[i].1->Object_0[j].1 == JsonView::Text(
                id,
            ),
        _ => false,
    }
}

/// Whether a document refers to the given model: as the model of new sessions, as that of the
/// mission orchestrator, or in a section of `general`.
pub open spec fn refers_to(v: JsonView, id: Seq<char>) -> bool {
    ||| v.get("sessionDefaultSettings"@) is Some && v.get("sessionDefaultSettings"@)->0.get(
        "model"@,
    ) == Some(JsonView::Text(id))
    ||| v.get("missionOrchestratorModel"@) == Some(JsonView::Text(id))
    ||| stands_in_a_section(v, id)
}

/// Whether the model at `i` is listed with the id of `m`, and no earlier one is.
pub open spec fn is_first_listed(items: Seq<JsonView>, i: int, m: ModelView) -> bool {
    &&& 0 <= i < items.len()
    &&& is_entry_of(m, items[i])
    &&& forall|j: int| 0 <= j < i ==> !is_text_at(#[trigger] items[j], "id"@, m.id)
}

/// A model is in the catalog where, and only where, each of its fields is what the first model
/// listed with its id holds under the key of the field, with `settings.json` read before the other
/// file, and its id is not empty; it is a default model where a file refers to it.
pub proof fn models_are_what_the_files_list(
    settings: Option<JsonView>,
    vibemode: Option<JsonView>,
    m: ModelView,
)
    ensures
        catalog_of(settings, vibemode).contains(m) <==> {
            &&& m.id.len() > 0
            &&& m.is_default <==> (settings is Some && refers_to(settings->0, m.id)) || (
            vibemode is Some && refers_to(vibemode->0, m.id))
            &&& (m.source == "droid"@ && exists|i: int| #[trigger]
                is_first_listed(models_in(settings), i, m)) || (m.source == "vibemode"@ && (exists|
                i: int,
            | #[trigger]
                is_first_listed(models_in(vibemode), i, m)) && forall|j: int|
                0 <= j < models_in(settings).len() ==> !is_text_at(
                    #[trigger] models_in(settings)[j],
                    "id"@,
                    m.id,
                ))
        },
{
    let own = models_in(settings);
    let other = models_in(vibemode);
    let all = candidates_of(settings, vibemode);
    let defaults = defaults_of(settings, vibemode);
    assert(listed_models(settings, "droid"@) =~= own.map_values(|d: JsonView| ("droid"@, d)));
    assert(listed_models(vibemode, "vibemode"@) =~= other.map_values(
        |d: JsonView| ("vibemode"@, d),
    ));
    catalog_holds_the_first_of_each_id(settings, vibemode, m);
    if settings is Some {
        references_are_those_of_the_document(settings->0, m.id);
    }
    if vibemode is Some {
        references_are_those_of_the_document(vibemode->0, m.id);
    }
    if catalog_of(settings, vibemode).contains(m) {
        let i = choose|i: int|
            0 <= i < all.len() && #[trigger] is_first_of_id(all, i) && m == model_of(
                all[i].0,
                all[i].1,
                defaults,
            );
        if i < own.len() {
            assert(all[i] == ("droid"@, own[i]));
            assert forall|j: int| 0 <= j < i implies !is_text_at(#[trigger] own[j], "id"@, m.id) by {
                assert(all[j] == ("droid"@, own[j]));
            }
            assert(is_first_listed(own, i, m));
        } else {
            let k = i - own.len();
            assert(all[i] == ("vibemode"@, other[k]));
            assert forall|j: int| 0 <= j < k implies !is_text_at(#[trigger] other[j], "id"@, m.id) by {
                assert(all[j + own.len()] == ("vibemode"@, other[j]));
            }
            assert forall|j: int| 0 <= j < own.len() implies !is_text_at(
                #[trigger] own[j],
                "id"@,
                m.id,
            ) by {
                assert(all[j] == ("droid"@, own[j]));
            }
            assert(is_first_listed(other, k, m));
        }
    }
    if m.id.len() > 0 && (m.is_default <==> (settings is Some && refers_to(settings->0, m.id)) || (
    vibemode is Some && refers_to(vibemode->0, m.id))) {
        if m.source == "droid"@ && exists|i: int| #[trigger] is_first_listed(own, i, m) {
            let i = choose|i: int| #[trigger] is_first_listed(own, i, m);
            assert(all[i] == ("droid"@, own[i]));
            lemma_entry_is_model(m, own[i], defaults);
            assert forall|j: int| 0 <= j < i implies model_id((#[trigger] all[j]).1) != model_id(
                all[i].1,
            ) by {
                assert(all[j] == ("droid"@, own[j]));
            }
            assert(is_first_of_id(all, i));
        }
        if m.source == "vibemode"@ && (exists|i: int| #[trigger] is_first_listed(other, i, m))
            && forall|j: int|
            0 <= j < own.len() ==> !is_text_at(#[trigger] own[j], "id"@, m.id) {
            let k = choose|k: int| #[trigger] is_first_listed(other, k, m);
            let i = k + own.len();
            assert(all[i] == ("vibemode"@, other[k]));
            lemma_entry_is_model(m, other[k], defaults);
            assert forall|j: int| 0 <= j < i implies model_id((#[trigger] all[j]).1) != model_id(
                all[i].1,
            ) by {
                if j < own.len() {
                    assert(all[j] == ("droid"@, own[j]));
                } else {
                    assert(all[j] == ("vibemode"@, other[j - own.len()]));
                }
            }
            assert(is_first_of_id(all, i));
        }
    }
}

proof fn lemma_entry_is_model(m: ModelView, d: JsonView, defaults: Set<Seq<char>>)
    requires
        is_entry_of(m, d),
        m.is_default == defaults.contains(m.id),
    ensures
        m == model_of(m.source, d, defaults),
        model_id(d) == m.id,
{
    let r = model_of(m.source, d, defaults);
    assert(m.id =~= r.id);
    assert(m.model =~= r.model);
    assert(m.display_name =~= r.display_name);
    assert(m.provider =~= r.provider);
    assert(m.base_url =~= r.base_url);
}

/// What a document refers to as a default is what it holds at the three places where it can.
pub proof fn references_are_those_of_the_document(v: JsonView, id: Seq<char>)
    ensures
        default_refs_of(v).contains(id) <==> refers_to(v, id),
        default_ids_of(v).contains(id) <==> refers_to(v, id),
{
    let a = one_or_none(session_ref(v));
    let b = one_or_none(v.str_at("missionOrchestratorModel"@));
    let c = match v.get("general"@) {
        Some(general) => match general.as_object() {
            Some(entries) => general_refs(entries, entries.len() as int),
            None => Seq::empty(),
        },
        None => Seq::empty(),
    };
    let all = default_refs_of(v);
    assert(all =~= a + b + c);
    if let Some(JsonView::Object(sections)) = v.get("general"@) {
        lemma_general_refs(sections, sections.len() as int, id);
    }
    if refers_to(v, id) {
        if stands_in_a_section(v, id) {
            let k = choose|k: int| 0 <= k < c.len() && c[k] == id;
            assert(all[a.len() + b.len() + k] == id);
        } else if v.get("missionOrchestratorModel"@) == Some(JsonView::Text(id)) {
            assert(all[a.len() as int] == id);
        } else {
            assert(all[0] == id);
        }
    }
    if all.contains(id) {
        let k = choose|k: int| 0 <= k < all.len() && all[k] == id;
        if k >= a.len() + b.len() {
            assert(c[k - a.len() - b.len()] == id);
        }
    }
}

proof fn lemma_section_refs(entries: Seq<(Seq<char>, JsonView)>, n: int, id: Seq<char>)
    requires
        0 <= n <= entries.len(),
    ensures
        section_refs(entries, n).contains(id) <==> exists|j: int|
            0 <= j < n && (#[trigger] entries[j]).1 == JsonView::Text(id),
    decreases n,
{
    if n > 0 {
        lemma_section_refs(entries, n - 1, id);
        let prior = section_refs(entries, n - 1);
        if let JsonView::Text(t) = entries[n - 1].1 {
            lemma_push_contains(prior, t, id);
        }
        if prior.contains(id) {
            let j = choose|j: int| 0 <= j < n - 1 && (#[trigger] entries[j]).1 == JsonView::Text(id);
            assert(entries[j].1 == JsonView::Text(id));
        }
    }
}

proof fn lemma_general_refs(sections: Seq<(Seq<char>, JsonView)>, n: int, id: Seq<char>)
    requires
        0 <= n <= sections.len(),
    ensures
        general_refs(sections, n).contains(id) <==> exists|i: int, j: int|
            #![trigger sections[i].1->Object_0[j]]
            0 <= i < n && sections[i].1 is Object && 0 <= j < sections[i].1->Object_0.len()
                && sections[i].1->Object_0[j].1 == JsonView::Text(id),
    decreases n,
{
    if n > 0 {
        lemma_general_refs(sections, n - 1, id);
        let prior = general_refs(sections, n - 1);
        if let JsonView::Object(section) = sections[n - 1].1 {
            let more = section_refs(section, section.len() as int);
            lemma_section_refs(section, section.len() as int, id);
            if (prior + more).contains(id) {
                let k = choose|k: int| 0 <= k < (prior + more).len() && (prior + more)[k] == id;
                if k < prior.len() {
                    assert(prior[k] == id);
                } else {
                    assert(more[k - prior.len()] == id);
                    let j = choose|j: int|
                        0 <= j < section.len() && (#[trigger] section[j]).1 == JsonView::Text(id);
                    assert(sections[n - 1].1->Object_0[j].1 == JsonView::Text(id));
                }
            }
            if prior.contains(id) {
                let k = choose|k: int| 0 <= k < prior.len() && prior[k] == id;
                assert((prior + more)[k] == id);
            }
            if more.contains(id) {
                let k = choose|k: int| 0 <= k < more.len() && more[k] == id;
                assert((prior + more)[prior.len() + k] == id);
            }
            if exists|i: int, j: int|
                #![trigger sections[i].1->Object_0[j]]
                0 <= i < n && sections[i].1 is Object && 0 <= j < sections[i].1->Object_0.len()
                    && sections[i].1->Object_0[j].1 == JsonView::Text(id) {
                let (i, j) = choose|i: int, j: int|
                    #![trigger sections[i].1->Object_0[j]]
                    0 <= i < n && sections[i].1 is Object && 0 <= j
                        < sections[i].1->Object_0.len() && sections[i].1->Object_0[j].1
                        == JsonView::Text(id);
                if i == n - 1 {
                    assert(section[j].1 == JsonView::Text(id));
                } else {
                    assert(sections[i].1->Object_0[j].1 == JsonView::Text(id));
                }
            }
        }
    }
}

/// References come in the order of their places: the model of new sessions, that of the mission
/// orchestrator, and then the texts of each section of `general`, section by section.
pub proof fn references_come_in_order(v: JsonView)
    ensures
        ({
            let first = match v.get("sessionDefaultSettings"@) {
                Some(s) => match s.get("model"@) {
                    Some(JsonView::Text(t)) => seq![t],
                    _ => Seq::empty(),
                },
                None => Seq::empty(),
            };
            let second = match v.get("missionOrchestratorModel"@) {
                Some(JsonView::Text(t)) => seq![t],
                _ => Seq::empty(),
            };
            let third = match v.get("general"@) {
                Some(JsonView::Object(sections)) => general_refs(sections, sections.len() as int),
                _ => Seq::empty(),
            };
            default_refs_of(v) == first + second + third
        }),
        forall|sections: Seq<(Seq<char>, JsonView)>, n: int|
            0 <= n < sections.len() ==> #[trigger] general_refs(sections, n + 1) == general_refs(
                sections,
                n,
            ) + (match sections[n].1 {
                JsonView::Object(section) => section_refs(section, section.len() as int),
                _ => Seq::empty(),
            }),
        forall|section: Seq<(Seq<char>, JsonView)>, n: int|
            0 <= n < section.len() ==> #[trigger] section_refs(section, n + 1) == section_refs(
                section,
                n,
            ) + (match section[n].1 {
                JsonView::Text(t) => seq![t],
                _ => Seq::empty(),
            }),
        forall|entries: Seq<(Seq<char>, JsonView)>|
            (#[trigger] general_refs(entries, 0)).len() == 0 && section_refs(entries, 0).len() == 0,
{
    assert forall|sections: Seq<(Seq<char>, JsonView)>, n: int|
        0 <= n < sections.len() implies #[trigger] general_refs(sections, n + 1) == general_refs(
        sections,
        n,
    ) + (match sections[n].1 {
        JsonView::Object(section) => section_refs(section, section.len() as int),
        _ => Seq::empty(),
    }) by {
        assert(general_refs(sections, n + 1) =~= general_refs(sections, n) + (
        match sections[n].1 {
            JsonView::Object(section) => section_refs(section, section.len() as int),
            _ => Seq::empty(),
        }));
    }
    assert forall|section: Seq<(Seq<char>, JsonView)>, n: int|
        0 <= n < section.len() implies #[trigger] section_refs(section, n + 1) == section_refs(
        section,
        n,
    ) + (match section[n].1 {
        JsonView::Text(t) => seq![t],
        _ => Seq::empty(),
    }) by {
        assert(section_refs(section, n + 1) =~= section_refs(section, n) + (match section[n].1 {
            JsonView::Text(t) => seq![t],
            _ => Seq::empty(),
        }));
    }
}

/// Of two models of the catalog the earlier one is from `settings.json` and the later one from the
/// other file, or they are from the same file and the earlier one has the smaller sort index or,
/// with the same index, the id that comes first; no two have the same id.
pub proof fn models_come_by_source_index_and_id(
    settings: Option<JsonView>,
    vibemode: Option<JsonView>,
    i: int,
    j: int,
)
    requires
        0 <= i < j < catalog_of(settings, vibemode).len(),
    ensures
        ({
            let a = catalog_of(settings, vibemode)[i];
            let b = catalog_of(settings, vibemode)[j];
            &&& a.id != b.id
            &&& if a.source == b.source {
                a.index < b.index || (a.index == b.index && text_before(a.id, b.id))
            } else {
                a.source == "droid"@ && b.source == "vibemode"@
            }
        }),
{
    let all = catalog_of(settings, vibemode);
    let a = all[i];
    let b = all[j];
    catalog_is_ordered(settings, vibemode);
    catalog_ids_are_unique(settings, vibemode);
    let key = |m: ModelView| m.id;
    assert(key(all[i]) != key(all[j]));
    let before = catalog_rank();
    assert(!before(all[j], all[i]));
    texts_are_totally_ordered(a.id, b.id);
    if a.source != b.source {
        assert(all.contains(a) && all.contains(b));
        models_are_what_the_files_list(settings, vibemode, a);
        models_are_what_the_files_list(settings, vibemode, b);
        if a.source == "vibemode"@ {
            lemma_droid_before_vibemode();
        }
    }
}

proof fn lemma_droid_before_vibemode()
    ensures
        text_before("droid"@, "vibemode"@),
{
    reveal_strlit("droid");
    reveal_strlit("vibemode");
    let x = vstd::utf8::encode_utf8("droid"@);
    let y = vstd::utf8::encode_utf8("vibemode"@);
    vstd::utf8::is_ascii_chars_encode_utf8("droid"@);
    vstd::utf8::is_ascii_chars_encode_utf8("vibemode"@);
    assert(x[0] < y[0]);
    assert(first_difference(x, y, 0));
}

/// Every model that a file lists with an id is in the catalog under it.
pub proof fn every_listed_id_is_in_the_catalog(
    settings: Option<JsonView>,
    vibemode: Option<JsonView>,
    id: Seq<char>,
    k: int,
)
    requires
        id.len() > 0,
        (0 <= k < models_in(settings).len() && is_text_at(models_in(settings)[k], "id"@, id)) || (0
            <= k < models_in(vibemode).len() && is_text_at(models_in(vibemode)[k], "id"@, id)),
    ensures
        exists|i: int|
            0 <= i < catalog_of(settings, vibemode).len() && (#[trigger] catalog_of(
                settings,
                vibemode,
            )[i]).id == id,
{
    let own = models_in(settings);
    let other = models_in(vibemode);
    let all = candidates_of(settings, vibemode);
    assert(listed_models(settings, "droid"@) =~= own.map_values(|d: JsonView| ("droid"@, d)));
    assert(listed_models(vibemode, "vibemode"@) =~= other.map_values(
        |d: JsonView| ("vibemode"@, d),
    ));
    let n = if 0 <= k < own.len() && is_text_at(own[k], "id"@, id) {
        assert(all[k] == ("droid"@, own[k]));
        k
    } else {
        assert(all[k + own.len()] == ("vibemode"@, other[k]));
        k + own.len()
    };
    listed_ids_are_in_the_catalog(settings, vibemode, n);
    let m = choose|m: ModelView| #[trigger]
        catalog_of(settings, vibemode).contains(m) && m.id == model_id(all[n].1);
    assert(m.id == id);
}

/// The view of a model shows its fields as they are.
pub proof fn model_views_show_the_fields(m: FactoryModel)
    ensures
        m@.id == m.id@,
        m@.model == m.model@,
        m@.display_name == m.display_name@,
        m@.provider == m.provider@,
        m@.base_url == m.base_url@,
        m@.max_context_limit == m.max_context_limit,
        m@.max_output_tokens == m.max_output_tokens,
        m@.no_image_support == m.no_image_support,
        m@.index == m.index,
        m@.source == m.source@,
        m@.is_default == m.is_default,
{
}

/// The views of texts and of listed models are those of the items, in their order.
pub proof fn list_views_are_those_of_the_items(
    texts: Seq<&str>,
    listed: Seq<(&'static str, &Json)>,
    i: int,
)
    ensures
        text_views(texts).len() == texts.len(),
        0 <= i < texts.len() ==> text_views(texts)[i] == texts[i]@,
        candidate_views(listed).len() == listed.len(),
        0 <= i < listed.len() ==> candidate_views(listed)[i] == (listed[i].0@, listed[i].1@),
{
}

} // verus!
