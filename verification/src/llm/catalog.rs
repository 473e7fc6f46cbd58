//! The catalog of models: a snapshot of models.dev where there is one, else the
//! models that are known without asking.

use crate::json::{
    fields_view, lemma_fields_view, lemma_list_view, list_view, parse_json, parsed, Json, JsonView,
};
use crate::providers::{ProviderSpec, StaticModel};
use crate::text::views;
use vstd::prelude::*;
use vstd::string::*;

verus! {

/// A catalog older than this is refreshed: one day, in milliseconds.
pub const TTL_MS: u64 = 86_400_000;

#[derive(Debug, PartialEq, Eq)]
pub struct ModelInfo {
    pub id: String,
    pub name: String,
    pub family: String,
    pub reasoning: bool,
    pub tool_call: bool,
    pub attachment: bool,
    pub modalities_in: Vec<String>,
    pub context: u64,
    pub output: u64,
}

#[verifier::ext_equal]
pub struct ModelView {
    pub id: Seq<char>,
    pub name: Seq<char>,
    pub family: Seq<char>,
    pub reasoning: bool,
    pub tool_call: bool,
    pub attachment: bool,
    pub modalities_in: Seq<Seq<char>>,
    pub context: u64,
    pub output: u64,
}

impl View for ModelInfo {
    type V = ModelView;

    open spec fn view(&self) -> ModelView {
        ModelView {
            id: self.id@,
            name: self.name@,
            family: self.family@,
            reasoning: self.reasoning,
            tool_call: self.tool_call,
            attachment: self.attachment,
            modalities_in: views(self.modalities_in@),
            context: self.context,
            output: self.output,
        }
    }
}

/// The models of one provider; `source` is `models.dev` or `static`.
#[derive(Debug, PartialEq, Eq)]
pub struct ProviderCatalog {
    pub provider: String,
    pub provider_name: String,
    pub models: Vec<ModelInfo>,
    pub fetched_at: u64,
    pub source: String,
}

#[verifier::ext_equal]
pub struct CatalogView {
    pub provider: Seq<char>,
    pub provider_name: Seq<char>,
    pub models: Seq<ModelView>,
    pub fetched_at: u64,
    pub source: Seq<char>,
}

pub open spec fn model_views(list: Seq<ModelInfo>) -> Seq<ModelView> {
    list.map_values(|m: ModelInfo| m@)
}

impl View for ProviderCatalog {
    type V = CatalogView;

    open spec fn view(&self) -> CatalogView {
        CatalogView {
            provider: self.provider@,
            provider_name: self.provider_name@,
            models: model_views(self.models@),
            fetched_at: self.fetched_at,
            source: self.source@,
        }
    }
}

pub open spec fn catalog_views(list: Seq<ProviderCatalog>) -> Seq<CatalogView> {
    list.map_values(|c: ProviderCatalog| c@)
}

/// The list with one more model: before the models of a smaller context that
/// stand at its end.
pub open spec fn placed(list: Seq<ModelView>, model: ModelView) -> Seq<ModelView>
    decreases list.len(),
{
    if list.len() == 0 || list.last().context >= model.context {
        list.push(model)
    } else {
        placed(list.drop_last(), model).push(list.last())
    }
}

/// The largest context first; models of the same size keep their order.
pub open spec fn by_context(models: Seq<ModelView>) -> Seq<ModelView>
    decreases models.len(),
{
    if models.len() == 0 {
        Seq::empty()
    } else {
        placed(by_context(models.drop_last()), models.last())
    }
}

pub open spec fn descending(list: Seq<ModelView>) -> bool {
    forall|i: int, j: int|
        0 <= i < j < list.len() ==> #[trigger] list[i].context >= #[trigger] list[j].context
}

proof fn lemma_placed(list: Seq<ModelView>, model: ModelView, at: int)
    requires
        0 <= at <= list.len(),
        at == 0 || list[at - 1].context >= model.context,
        forall|j: int| at <= j < list.len() ==> #[trigger] list[j].context < model.context,
    ensures
        placed(list, model) == list.insert(at, model),
    decreases list.len(),
{
    if at == list.len() {
        assert(list.insert(at, model) =~= list.push(model));
    } else {
        assert(list.last() == list[list.len() - 1]);
        lemma_placed(list.drop_last(), model, at);
        assert(list.drop_last().insert(at, model).push(list.last()) =~= list.insert(at, model));
    }
}

proof fn lemma_placed_facts(list: Seq<ModelView>, model: ModelView)
    requires
        descending(list),
    ensures
        descending(placed(list, model)),
        placed(list, model).len() == list.len() + 1,
        placed(list, model).to_multiset() == list.to_multiset().insert(model),
        forall|i: int|
            0 <= i < placed(list, model).len() ==> (#[trigger] placed(list, model)[i]).context
                <= model.context || list.len() > 0 && placed(list, model)[i].context
                <= list[0].context,
    decreases list.len(),
{
    broadcast use vstd::seq_lib::group_to_multiset_ensures;

    if list.len() == 0 || list.last().context >= model.context {
        assert forall|i: int| 0 <= i < list.len() implies (#[trigger] list[i]).context >= model.context by {
            assert(list[list.len() - 1].context >= model.context);
        }
        assert forall|i: int| 0 <= i < list.len() + 1 implies (#[trigger] placed(list, model)[i]).context
            <= model.context || list.len() > 0 && placed(list, model)[i].context <= list[0].context by {
            if i < list.len() {
                assert(list[0].context >= list[i].context || i == 0);
            }
        }
    } else {
        let head = list.drop_last();
        lemma_placed_facts(head, model);
        assert(list =~= head.push(list.last()));
        let p = placed(head, model);
        assert forall|i: int| 0 <= i < p.len() implies (#[trigger] p[i]).context >= list.last().context by {
            lemma_placed_floor(head, model, list.last().context);
        }
        assert(p.push(list.last()).to_multiset() =~= list.to_multiset().insert(model));
        assert forall|i: int| 0 <= i < list.len() + 1 implies (#[trigger] placed(list, model)[i]).context
            <= model.context || list.len() > 0 && placed(list, model)[i].context <= list[0].context by {
            if i < p.len() {
                assert(placed(list, model)[i] == p[i]);
                if head.len() > 0 {
                    assert(head[0] == list[0]);
                }
            }
        }
    }
}

proof fn lemma_placed_floor(list: Seq<ModelView>, model: ModelView, floor: u64)
    requires
        model.context >= floor,
        forall|i: int| 0 <= i < list.len() ==> (#[trigger] list[i]).context >= floor,
    ensures
        forall|i: int|
            0 <= i < placed(list, model).len() ==> (#[trigger] placed(list, model)[i]).context
                >= floor,
    decreases list.len(),
{
    if !(list.len() == 0 || list.last().context >= model.context) {
        lemma_placed_floor(list.drop_last(), model, floor);
        let p = placed(list.drop_last(), model);
        assert forall|i: int| 0 <= i < placed(list, model).len() implies (#[trigger] placed(
            list,
            model,
        )[i]).context >= floor by {
            if i < p.len() {
                assert(placed(list, model)[i] == p[i]);
            } else {
                assert(list[list.len() - 1].context >= floor);
            }
        }
    }
}

/// The list holds the same models, the largest context first.
pub proof fn law_largest_context_first(models: Seq<ModelView>)
    ensures
        descending(by_context(models)),
        by_context(models).to_multiset() == models.to_multiset(),
    decreases models.len(),
{
    broadcast use vstd::seq_lib::group_to_multiset_ensures;

    if models.len() > 0 {
        law_largest_context_first(models.drop_last());
        lemma_placed_facts(by_context(models.drop_last()), models.last());
        assert(models =~= models.drop_last().push(models.last()));
    }
}

fn place(list: &mut Vec<ModelInfo>, model: ModelInfo)
    ensures
        model_views(final(list)@) == placed(model_views(old(list)@), model@),
{
    let mut at: usize = list.len();
    while at > 0 && list[at - 1].context < model.context
        invariant
            at <= list@.len(),
            forall|j: int| at <= j < list@.len() ==> (#[trigger] list@[j]).context < model.context,
        decreases at,
    {
        at = at - 1;
    }
    let ghost m = model@;
    let ghost before = list@;
    list.insert(at, model);
    proof {
        lemma_placed(model_views(before), m, at as int);
        assert(model_views(list@) =~= model_views(before).insert(at as int, m));
    }
}

/// The texts in a list of values; what is no text is left out.
pub open spec fn texts(items: Seq<JsonView>) -> Seq<Seq<char>>
    decreases items.len(),
{
    if items.len() == 0 {
        Seq::empty()
    } else {
        match items.last().text() {
            Some(text) => texts(items.drop_last()).push(text),
            None => texts(items.drop_last()),
        }
    }
}

fn texts_of(items: &Vec<Json>) -> (r: Vec<String>)
    ensures
        views(r@) == texts(list_view(items@)),
{
    let mut out: Vec<String> = Vec::new();
    let ghost all = list_view(items@);
    proof {
        lemma_list_view(items@);
        assert(all.take(0) =~= Seq::<JsonView>::empty());
        assert(views(out@) =~= Seq::<Seq<char>>::empty());
    }
    let mut i: usize = 0;
    while i < items.len()
        invariant
            i <= items@.len(),
            all == list_view(items@),
            views(out@) == texts(all.take(i as int)),
        decreases items@.len() - i,
    {
        proof {
            lemma_list_view(items@);
            assert(all.take(i + 1).drop_last() =~= all.take(i as int));
            assert(all.take(i + 1).last() == items@[i as int]@);
        }
        let ghost before = out@;
        if let Some(text) = items[i].as_str() {
            out.push(text.clone());
            assert(views(out@) =~= views(before).push(text@));
        }
        i = i + 1;
    }
    assert(all.take(i as int) =~= all) by {
        lemma_list_view(items@);
    }
    out
}

pub open spec fn flag(value: JsonView, key: Seq<char>) -> bool {
    value.get(key) == Some(JsonView::Bool(true))
}

fn flag_at(value: &Json, key: &str) -> (r: bool)
    ensures
        r == flag(value@, key@),
{
    match value.get(key) {
        Some(v) => match v.as_bool() {
            Some(b) => b,
            None => false,
        },
        None => false,
    }
}

/// A number of the model's `limit`, or zero.
pub open spec fn limit(value: JsonView, key: Seq<char>) -> u64 {
    match value.get("limit"@) {
        Some(l) => match l.number_under(key) {
            Some(n) => n,
            None => 0,
        },
        None => 0,
    }
}

fn limit_at(value: &Json, key: &str) -> (r: u64)
    ensures
        r == limit(value@, key@),
{
    match value.get("limit") {
        Some(l) => match l.number_at(key) {
            Some(n) => n,
            None => 0,
        },
        None => 0,
    }
}

pub open spec fn text_or(value: JsonView, key: Seq<char>, default: Seq<char>) -> Seq<char> {
    match value.text_under(key) {
        Some(text) => text,
        None => default,
    }
}

fn text_at_or(value: &Json, key: &str, default: &str) -> (r: String)
    ensures
        r@ == text_or(value@, key@, default@),
{
    match value.text_at(key) {
        Some(text) => text.clone(),
        None => default.to_owned(),
    }
}

pub open spec fn modalities(value: JsonView) -> Seq<Seq<char>> {
    match value.get("modalities"@) {
        Some(m) => match m.get("input"@) {
            Some(JsonView::Arr(items)) => texts(items),
            _ => Seq::empty(),
        },
        None => Seq::empty(),
    }
}

fn modalities_of(value: &Json) -> (r: Vec<String>)
    ensures
        views(r@) == modalities(value@),
{
    if let Some(m) = value.get("modalities") {
        if let Some(input) = m.get("input") {
            if let Some(items) = input.as_array() {
                return texts_of(items);
            }
        }
    }
    let out: Vec<String> = Vec::new();
    assert(views(out@) =~= Seq::<Seq<char>>::empty());
    out
}

/// A model as models.dev describes it; what it leaves out is empty, false or
/// zero, and the name is the identifier.
pub open spec fn dev_model(id: Seq<char>, value: JsonView) -> ModelView {
    ModelView {
        id,
        name: text_or(value, "name"@, id),
        family: text_or(value, "family"@, Seq::empty()),
        reasoning: flag(value, "reasoning"@),
        tool_call: flag(value, "tool_call"@),
        attachment: flag(value, "attachment"@),
        modalities_in: modalities(value),
        context: limit(value, "context"@),
        output: limit(value, "output"@),
    }
}

fn model_from(id: &str, value: &Json) -> (r: ModelInfo)
    ensures
        r@ == dev_model(id@, value@),
{
    let name = text_at_or(value, "name", id);
    let family = match value.text_at("family") {
        Some(text) => text.clone(),
        None => String::new(),
    };
    ModelInfo {
        id: id.to_owned(),
        name,
        family,
        reasoning: flag_at(value, "reasoning"),
        tool_call: flag_at(value, "tool_call"),
        attachment: flag_at(value, "attachment"),
        modalities_in: modalities_of(value),
        context: limit_at(value, "context"),
        output: limit_at(value, "output"),
    }
}

pub open spec fn dev_models(fields: Seq<(Seq<char>, JsonView)>) -> Seq<ModelView> {
    fields.map_values(|f: (Seq<char>, JsonView)| dev_model(f.0, f.1))
}

fn models_from(fields: &Vec<(String, Json)>) -> (r: Vec<ModelInfo>)
    ensures
        model_views(r@) == by_context(dev_models(fields_view(fields@))),
{
    let mut out: Vec<ModelInfo> = Vec::new();
    let ghost all = dev_models(fields_view(fields@));
    proof {
        lemma_fields_view(fields@);
        assert(all.take(0) =~= Seq::<ModelView>::empty());
        assert(model_views(out@) =~= Seq::<ModelView>::empty());
    }
    let mut i: usize = 0;
    while i < fields.len()
        invariant
            i <= fields@.len(),
            all == dev_models(fields_view(fields@)),
            model_views(out@) == by_context(all.take(i as int)),
        decreases fields@.len() - i,
    {
        proof {
            lemma_fields_view(fields@);
            assert(all.take(i + 1).drop_last() =~= all.take(i as int));
            assert(fields_view(fields@)[i as int] == (
                fields@[i as int].0@,
                fields@[i as int].1@,
            ));
        }
        let model = model_from(fields[i].0.as_str(), &fields[i].1);
        assert(all.take(i + 1).last() == model@);
        place(&mut out, model);
        i = i + 1;
    }
    assert(all.take(i as int) =~= all) by {
        lemma_fields_view(fields@);
    }
    out
}

/// What models.dev says of one provider of the registry: nothing, if it does
/// not know it, or an error, if it lists no models for it.
pub open spec fn dev_entry(root: JsonView, spec: ProviderSpec, now: u64) -> Result<Option<CatalogView>, ()> {
    match spec.models_dev {
        None => Ok(None),
        Some(dev_id) => match root.get(dev_id@) {
            None => Ok(None),
            Some(provider) => match provider.get("models"@) {
                Some(JsonView::Obj(fields)) => Ok(
                    Some(
                        CatalogView {
                            provider: spec.key@,
                            provider_name: text_or(provider, "name"@, spec.display@),
                            models: by_context(dev_models(fields)),
                            fetched_at: now,
                            source: "models.dev"@,
                        },
                    ),
                ),
                _ => Err(()),
            },
        },
    }
}

/// The entries of all providers of the registry, in its order.
pub open spec fn dev_entries(root: JsonView, registry: Seq<ProviderSpec>, now: u64) -> Option<Seq<CatalogView>>
    decreases registry.len(),
{
    if registry.len() == 0 {
        Some(Seq::empty())
    } else {
        match dev_entries(root, registry.drop_last(), now) {
            None => None,
            Some(head) => match dev_entry(root, registry.last(), now) {
                Err(_) => None,
                Ok(None) => Some(head),
                Ok(Some(entry)) => Some(head.push(entry)),
            },
        }
    }
}

/// The catalog in a snapshot of models.dev; an empty one is none.
pub open spec fn dev_catalog(snapshot: Result<JsonView, Seq<char>>, registry: Seq<ProviderSpec>, now: u64) -> Option<
    Seq<CatalogView>,
> {
    match snapshot {
        Err(_) => None,
        Ok(root) => match dev_entries(root, registry, now) {
            None => None,
            Some(list) => if list.len() == 0 {
                None
            } else {
                Some(list)
            },
        },
    }
}

pub open spec fn opt_catalog(r: Option<Vec<ProviderCatalog>>) -> Option<Seq<CatalogView>> {
    match r {
        Some(list) => Some(catalog_views(list@)),
        None => None,
    }
}

fn entry_from(root: &Json, spec: &ProviderSpec, now: u64) -> (r: Result<Option<ProviderCatalog>, ()>)
    ensures
        (match r {
            Ok(Some(entry)) => Ok(Some(entry@)),
            Ok(None) => Ok(None),
            Err(_) => Err(()),
        }) == dev_entry(root@, *spec, now),
{
    let provider = match &spec.models_dev {
        None => return Ok(None),
        Some(dev_id) => match root.get(dev_id.as_str()) {
            None => return Ok(None),
            Some(provider) => provider,
        },
    };
    let fields = match provider.get("models") {
        None => return Err(()),
        Some(models) => match models.as_object() {
            None => return Err(()),
            Some(fields) => fields,
        },
    };
    Ok(
        Some(
            ProviderCatalog {
                provider: spec.key.clone(),
                provider_name: text_at_or(provider, "name", spec.display.as_str()),
                models: models_from(fields),
                fetched_at: now,
                source: "models.dev".to_owned(),
            },
        ),
    )
}

proof fn lemma_entries_fail(root: JsonView, registry: Seq<ProviderSpec>, now: u64, n: int)
    requires
        0 <= n <= registry.len(),
        dev_entries(root, registry.take(n), now) is None,
    ensures
        dev_entries(root, registry, now) is None,
    decreases registry.len() - n,
{
    if n < registry.len() {
        assert(registry.take(n + 1).drop_last() =~= registry.take(n));
        lemma_entries_fail(root, registry, now, n + 1);
    } else {
        assert(registry.take(n) =~= registry);
    }
}

/// The catalog in the value that a snapshot of models.dev holds.
pub fn catalog_from(root: &Json, registry: &Vec<ProviderSpec>, now: u64) -> (r: Option<
    Vec<ProviderCatalog>,
>)
    ensures
        opt_catalog(r) == dev_catalog(Ok(root@), registry@, now),
{
    let mut out: Vec<ProviderCatalog> = Vec::new();
    proof {
        assert(registry@.take(0) =~= Seq::<ProviderSpec>::empty());
        assert(catalog_views(out@) =~= Seq::<CatalogView>::empty());
    }
    let mut i: usize = 0;
    while i < registry.len()
        invariant
            i <= registry@.len(),
            dev_entries(root@, registry@.take(i as int), now) == Some(catalog_views(out@)),
        decreases registry@.len() - i,
    {
        assert(registry@.take(i + 1).drop_last() =~= registry@.take(i as int));
        let ghost before = out@;
        match entry_from(root, &registry[i], now) {
            Err(_) => {
                proof {
                    lemma_entries_fail(root@, registry@, now, i + 1);
                }
                return None;
            },
            Ok(None) => {},
            Ok(Some(entry)) => {
                let ghost e = entry@;
                out.push(entry);
                assert(catalog_views(out@) =~= catalog_views(before).push(e));
            },
        }
        i = i + 1;
    }
    assert(registry@.take(i as int) =~= registry@);
    if out.len() == 0 {
        None
    } else {
        Some(out)
    }
}

/// The catalog in a snapshot of models.dev, for the providers of the registry.
pub fn parse_models_dev(text: &str, registry: &Vec<ProviderSpec>, now: u64) -> (r: Option<
    Vec<ProviderCatalog>,
>)
    ensures
        opt_catalog(r) == dev_catalog(parsed(text@), registry@, now),
{
    match parse_json(text) {
        Ok(root) => catalog_from(&root, registry, now),
        Err(_) => None,
    }
}

/// A model that is known without asking.
pub open spec fn static_model(model: StaticModel) -> ModelView {
    ModelView {
        id: model.id@,
        name: model.name@,
        family: Seq::empty(),
        reasoning: model.reasoning,
        tool_call: true,
        attachment: model.attachment,
        modalities_in: if model.attachment {
            seq!["text"@, "image"@]
        } else {
            seq!["text"@]
        },
        context: model.context,
        output: 0,
    }
}

pub open spec fn static_entry(spec: ProviderSpec, now: u64) -> CatalogView {
    CatalogView {
        provider: spec.key@,
        provider_name: spec.display@,
        models: spec.static_models@.map_values(|m: StaticModel| static_model(m)),
        fetched_at: now,
        source: "static"@,
    }
}

/// One entry for each provider of the registry, in its order.
pub open spec fn static_entries(registry: Seq<ProviderSpec>, now: u64) -> Seq<CatalogView> {
    registry.map_values(|spec: ProviderSpec| static_entry(spec, now))
}

fn known_model(model: &StaticModel) -> (r: ModelInfo)
    ensures
        r@ == static_model(*model),
{
    let mut modalities: Vec<String> = Vec::new();
    modalities.push("text".to_owned());
    if model.attachment {
        modalities.push("image".to_owned());
    }
    let r = ModelInfo {
        id: model.id.clone(),
        name: model.name.clone(),
        family: String::new(),
        reasoning: model.reasoning,
        tool_call: true,
        attachment: model.attachment,
        modalities_in: modalities,
        context: model.context,
        output: 0,
    };
    assert(r@.modalities_in =~= static_model(*model).modalities_in);
    r
}

fn known_models(models: &Vec<StaticModel>) -> (r: Vec<ModelInfo>)
    ensures
        model_views(r@) == models@.map_values(|m: StaticModel| static_model(m)),
{
    let mut out: Vec<ModelInfo> = Vec::new();
    let mut i: usize = 0;
    while i < models.len()
        invariant
            i <= models@.len(),
            model_views(out@) == models@.take(i as int).map_values(
                |m: StaticModel| static_model(m),
            ),
        decreases models@.len() - i,
    {
        let ghost before = out@;
        let model = known_model(&models[i]);
        out.push(model);
        i = i + 1;
        assert(model_views(out@) =~= models@.take(i as int).map_values(
            |m: StaticModel| static_model(m),
        )) by {
            assert(model_views(out@) =~= model_views(before).push(model@));
        }
    }
    assert(models@.take(i as int) =~= models@);
    out
}

pub fn static_catalog(registry: &Vec<ProviderSpec>, now: u64) -> (r: Vec<ProviderCatalog>)
    ensures
        catalog_views(r@) == static_entries(registry@, now),
{
    let mut out: Vec<ProviderCatalog> = Vec::new();
    let mut i: usize = 0;
    while i < registry.len()
        invariant
            i <= registry@.len(),
            catalog_views(out@) == static_entries(registry@.take(i as int), now),
        decreases registry@.len() - i,
    {
        let ghost before = out@;
        let entry = ProviderCatalog {
            provider: registry[i].key.clone(),
            provider_name: registry[i].display.clone(),
            models: known_models(&registry[i].static_models),
            fetched_at: now,
            source: "static".to_owned(),
        };
        assert(entry@ == static_entry(registry@[i as int], now));
        out.push(entry);
        i = i + 1;
        assert(catalog_views(out@) =~= static_entries(registry@.take(i as int), now)) by {
            assert(catalog_views(out@) =~= catalog_views(before).push(entry@));
        }
    }
    assert(registry@.take(i as int) =~= registry@);
    out
}

/// The catalog to start with, and whether it is to be refreshed: the one on
/// disk, if it holds anything, else the static one.
pub fn opening(disk: Option<Vec<ProviderCatalog>>, registry: &Vec<ProviderSpec>, now: u64) -> (r: (
    Vec<ProviderCatalog>,
    bool,
))
    ensures
        match disk {
            Some(list) if list@.len() > 0 => r.0 == list && r.1 == (now - list@[0].fetched_at
                > TTL_MS),
            _ => catalog_views(r.0@) == static_entries(registry@, now) && r.1,
        },
{
    match disk {
        Some(list) if list.len() > 0 => {
            let fetched: u64 = list[0].fetched_at;
            let stale = now > fetched && now - fetched > TTL_MS;
            (list, stale)
        },
        _ => (static_catalog(registry, now), true),
    }
}

/// Where the default model of a provider is among its static models, the static
/// catalog lists it: a probe works without any snapshot.
pub proof fn law_static_catalog_has_default_models(registry: Seq<ProviderSpec>, now: u64, i: int, j: int)
    requires
        0 <= i < registry.len(),
        0 <= j < registry[i].static_models@.len(),
        registry[i].static_models@[j].id@ == registry[i].default_model@,
    ensures
        static_entries(registry, now).len() == registry.len(),
        static_entries(registry, now)[i].provider == registry[i].key@,
        static_entries(registry, now)[i].models[j].id == registry[i].default_model@,
{
}

/// A model is what its entry says: its name or else its id, its family, what it can
/// do, and its limits, which are none where they are not given.
pub proof fn law_models_are_read(id: Seq<char>, value: JsonView)
    ensures
        ({
            let model = dev_model(id, value);
            &&& model.id == id
            &&& value.text_under("name"@) matches Some(name) ==> model.name == name
            &&& value.text_under("name"@) is None ==> model.name == id
            &&& value.text_under("family"@) matches Some(family) ==> model.family == family
            &&& model.reasoning <==> value.get("reasoning"@) == Some(JsonView::Bool(true))
            &&& model.tool_call <==> value.get("tool_call"@) == Some(JsonView::Bool(true))
            &&& model.attachment <==> value.get("attachment"@) == Some(JsonView::Bool(true))
            &&& value.get("limit"@) matches Some(limits) ==> {
                &&& limits.number_under("context"@) matches Some(n) ==> model.context == n
                &&& limits.number_under("output"@) matches Some(n) ==> model.output == n
                &&& limits.number_under("context"@) is None ==> model.context == 0
                &&& limits.number_under("output"@) is None ==> model.output == 0
            }
            &&& value.get("limit"@) is None ==> model.context == 0 && model.output == 0
        }),
{
}

/// The texts of a list are those of its items that are texts, in order.
pub proof fn law_texts_are_kept(items: Seq<JsonView>, item: JsonView)
    ensures
        item matches JsonView::Str(text) ==> texts(items.push(item)) == texts(items).push(text),
        !(item is Str) ==> texts(items.push(item)) == texts(items),
        texts(Seq::<JsonView>::empty()).len() == 0,
{
    assert(items.push(item).drop_last() =~= items);
}

/// The catalogue of a snapshot goes through the registry in order. A provider that
/// the snapshot does not have is left out, one with models is listed with every one
/// of them, and one whose models cannot be read spoils the whole.
pub proof fn law_catalog_follows_the_registry(
    root: JsonView,
    registry: Seq<ProviderSpec>,
    spec: ProviderSpec,
    now: u64,
)
    ensures
        ({
            let before = dev_entries(root, registry, now);
            let after = dev_entries(root, registry.push(spec), now);
            let found = match spec.models_dev {
                Some(id) => root.get(id@),
                None => None,
            };
            &&& before is None ==> after is None
            &&& before is Some && found is None ==> after == before
            &&& before is Some && found is Some ==> match found->0.get("models"@) {
                Some(JsonView::Obj(fields)) => {
                    &&& after is Some
                    &&& after->0.len() == before->0.len() + 1
                    &&& after->0.drop_last() == before->0
                    &&& after->0.last().provider == spec.key@
                    &&& after->0.last().fetched_at == now
                    &&& after->0.last().models.to_multiset() == fields.map_values(
                        |f: (Seq<char>, JsonView)| dev_model(f.0, f.1),
                    ).to_multiset()
                },
                _ => after is None,
            }
        }),
        dev_entries(root, Seq::empty(), now) == Some(Seq::<CatalogView>::empty()),
{
    assert(registry.push(spec).drop_last() =~= registry);
    let after = dev_entries(root, registry.push(spec), now);
    if let Some(before) = dev_entries(root, registry, now) {
        if let Some(id) = spec.models_dev {
            if let Some(provider) = root.get(id@) {
                if let Some(JsonView::Obj(fields)) = provider.get("models"@) {
                    assert(after->0.drop_last() =~= before);
                    law_largest_context_first(dev_models(fields));
                }
            }
        }
    }
}

/// The built-in catalogue lists every provider of the registry with its own models,
/// in order.
pub proof fn law_static_catalog_is_the_registry(registry: Seq<ProviderSpec>, now: u64, i: int, j: int)
    requires
        0 <= i < registry.len(),
    ensures
        ({
            let entry = static_entries(registry, now)[i];
            let own = registry[i].static_models@;
            &&& static_entries(registry, now).len() == registry.len()
            &&& entry.provider == registry[i].key@
            &&& entry.provider_name == registry[i].display@
            &&& entry.fetched_at == now
            &&& entry.models.len() == own.len()
            &&& 0 <= j < own.len() ==> {
                &&& entry.models[j].id == own[j].id@
                &&& entry.models[j].name == own[j].name@
                &&& entry.models[j].context == own[j].context
                &&& entry.models[j].reasoning == own[j].reasoning
                &&& entry.models[j].attachment == own[j].attachment
                &&& entry.models[j].modalities_in.contains("image"@) ==> own[j].attachment
            }
        }),
{
    reveal_strlit("image");
    reveal_strlit("text");
    assert("image"@.len() == 5 && "text"@.len() == 4);
    if 0 <= j < registry[i].static_models@.len() {
        let model = static_entries(registry, now)[i].models[j];
        assert(model == static_model(registry[i].static_models@[j]));
        if model.modalities_in.contains("image"@) && !registry[i].static_models@[j].attachment {
            assert(model.modalities_in[0] == "text"@);
        }
    }
}

/// A snapshot that cannot be read, or that has none of the providers, gives no
/// catalogue; any other gives all of its entries.
pub proof fn law_empty_snapshots_give_none(
    root: JsonView,
    error: Seq<char>,
    registry: Seq<ProviderSpec>,
    now: u64,
)
    ensures
        dev_catalog(Err(error), registry, now) is None,
        dev_catalog(Ok(root), registry, now) is Some <==> (dev_entries(root, registry, now) matches Some(
            list,
        ) && list.len() > 0),
        dev_catalog(Ok(root), registry, now) matches Some(list) ==> dev_entries(root, registry, now)
            == Some(list),
{
}

} // verus!
