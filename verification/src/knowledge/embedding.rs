//! Recall by meaning: where vectors come from, and for which texts they are still
//! missing. Without a provider, or where one fails, recall is by words alone.

use crate::auth::{credential_for, credential_in, AuthStore, CredentialView};
use crate::ident::{short_digest, text_digest};
use crate::json::{law_field_is_found, lemma_list_view, list_view, parse_json, parsed, Json, JsonView};
use crate::knowledge::embedding_cache::EmbeddingCache;
use crate::knowledge::store::paths::{join_path, joined_path};
use crate::text::{
    cat2, cat3, decimal, decimal_of, each_once, ends, first_chars, law_each_text_once, once_each, opt_view, starts,
    str_eq, take_chars, trim, trim_end_matches, trimmed, trimmed_of, views,
};
use vstd::prelude::*;
use vstd::string::*;

pub mod warm;

verus! {

#[derive(Debug, Clone, Copy, PartialEq, Eq, Structural)]
pub enum Protocol {
    OpenAi,
    Ollama,
}

/// What the user set: empty fields take the provider's own values, and without a
/// provider there are no vectors.
#[derive(Debug)]
pub struct EmbeddingConfig {
    pub provider: String,
    pub model: String,
    pub base_url: String,
}

/// Where vectors are asked for.
#[derive(Debug)]
pub struct Endpoint {
    pub provider: &'static str,
    pub account: Option<String>,
    pub url: String,
    pub key: Option<String>,
    pub model: String,
    pub protocol: Protocol,
    /// The one that runs on this machine may be asked on this machine.
    pub allow_loopback: bool,
}

#[verifier::ext_equal]
pub struct EndpointView {
    pub provider: Seq<char>,
    pub account: Option<Seq<char>>,
    pub url: Seq<char>,
    pub key: Option<Seq<char>>,
    pub model: Seq<char>,
    pub protocol: Protocol,
    pub allow_loopback: bool,
}

impl View for Endpoint {
    type V = EndpointView;

    open spec fn view(&self) -> EndpointView {
        EndpointView {
            provider: self.provider@,
            account: opt_view(self.account),
            url: self.url@,
            key: opt_view(self.key),
            model: self.model@,
            protocol: self.protocol,
            allow_loopback: self.allow_loopback,
        }
    }
}

/// The address that was set, else the provider's own.
pub open spec fn base_or(set: Seq<char>, own: Seq<char>) -> Seq<char> {
    let custom = trimmed_of(trimmed(set), '/');
    if custom.len() == 0 {
        own
    } else {
        custom
    }
}

pub open spec fn model_or(set: Seq<char>, own: Seq<char>) -> Seq<char> {
    let model = trimmed(set);
    if model.len() == 0 {
        own
    } else {
        model
    }
}

/// An endpoint that speaks the OpenAI protocol: it needs a credential.
pub open spec fn remote(
    provider: Seq<char>,
    own_base: Seq<char>,
    own_model: Seq<char>,
    cfg: EmbeddingConfig,
    store: Map<Seq<char>, CredentialView>,
    account: Option<Seq<char>>,
) -> Option<EndpointView> {
    match credential_in(store, provider, None) {
        None => None,
        Some(credential) => Some(
            EndpointView {
                provider,
                account,
                url: base_or(cfg.base_url@, own_base) + "/embeddings"@,
                key: Some(credential.token()),
                model: model_or(cfg.model@, own_model),
                protocol: Protocol::OpenAi,
                allow_loopback: false,
            },
        ),
    }
}

/// The endpoint that the settings name; none for a provider that is not known.
pub open spec fn endpoint_of(
    cfg: EmbeddingConfig,
    store: Map<Seq<char>, CredentialView>,
    account: Option<Seq<char>>,
) -> Option<EndpointView> {
    if cfg.provider@ == "openai"@ {
        remote(
            "openai"@,
            "https://api.openai.com/v1"@,
            "text-embedding-3-small"@,
            cfg,
            store,
            account,
        )
    } else if cfg.provider@ == "openrouter"@ {
        remote(
            "openrouter"@,
            "https://openrouter.ai/api/v1"@,
            "openai/text-embedding-3-small"@,
            cfg,
            store,
            account,
        )
    } else if cfg.provider@ == "ollama"@ {
        Some(
            EndpointView {
                provider: "ollama"@,
                account: None,
                url: base_or(cfg.base_url@, "http://localhost:11434"@) + "/api/embed"@,
                key: None,
                model: model_or(cfg.model@, "nomic-embed-text"@),
                protocol: Protocol::Ollama,
                allow_loopback: true,
            },
        )
    } else {
        None
    }
}

pub open spec fn opt_endpoint(endpoint: Option<Endpoint>) -> Option<EndpointView> {
    match endpoint {
        Some(e) => Some(e@),
        None => None,
    }
}

fn choose_base(set: &str, own: &str) -> (r: String)
    ensures
        r@ == base_or(set@, own@),
{
    let bare = trim(set);
    let custom = trim_end_matches(bare.as_str(), '/');
    if custom.as_str().is_empty() {
        own.to_owned()
    } else {
        custom
    }
}

fn choose_model(set: &str, own: &str) -> (r: String)
    ensures
        r@ == model_or(set@, own@),
{
    let model = trim(set);
    if model.as_str().is_empty() {
        own.to_owned()
    } else {
        model
    }
}

fn remote_endpoint(
    provider: &'static str,
    own_base: &str,
    own_model: &str,
    cfg: &EmbeddingConfig,
    store: &AuthStore,
    account: Option<String>,
) -> (r: Option<Endpoint>)
    ensures
        opt_endpoint(r) == remote(
            provider@,
            own_base@,
            own_model@,
            *cfg,
            store@,
            opt_view(account),
        ),
{
    let key = match credential_for(store, provider, &None) {
        Some(credential) => credential.bearer().to_owned(),
        None => return None,
    };
    let base = choose_base(cfg.base_url.as_str(), own_base);
    Some(
        Endpoint {
            provider,
            account,
            url: cat2(base.as_str(), "/embeddings"),
            key: Some(key),
            model: choose_model(cfg.model.as_str(), own_model),
            protocol: Protocol::OpenAi,
            allow_loopback: false,
        },
    )
}

/// The endpoint that the settings name. `account` is the one that serves the
/// provider where none is named.
pub fn resolve_endpoint_with(cfg: &EmbeddingConfig, store: &AuthStore, account: Option<String>) -> (r:
    Option<Endpoint>)
    ensures
        opt_endpoint(r) == endpoint_of(*cfg, store@, opt_view(account)),
{
    if str_eq(cfg.provider.as_str(), "openai") {
        remote_endpoint(
            "openai",
            "https://api.openai.com/v1",
            "text-embedding-3-small",
            cfg,
            store,
            account,
        )
    } else if str_eq(cfg.provider.as_str(), "openrouter") {
        remote_endpoint(
            "openrouter",
            "https://openrouter.ai/api/v1",
            "openai/text-embedding-3-small",
            cfg,
            store,
            account,
        )
    } else if str_eq(cfg.provider.as_str(), "ollama") {
        let base = choose_base(cfg.base_url.as_str(), "http://localhost:11434");
        Some(
            Endpoint {
                provider: "ollama",
                account: None,
                url: cat2(base.as_str(), "/api/embed"),
                key: None,
                model: choose_model(cfg.model.as_str(), "nomic-embed-text"),
                protocol: Protocol::Ollama,
                allow_loopback: true,
            },
        )
    } else {
        None
    }
}

/// The endpoint by the settings and the credentials as they were read: none where
/// one of them could not be.
pub fn resolve_endpoint(
    cfg: Result<EmbeddingConfig, String>,
    store: Result<AuthStore, String>,
    account: Option<String>,
) -> (r: Option<Endpoint>)
    ensures
        opt_endpoint(r) == (match (cfg, store) {
            (Ok(c), Ok(s)) => endpoint_of(c, s@, opt_view(account)),
            _ => None,
        }),
{
    match (cfg, store) {
        (Ok(c), Ok(s)) => resolve_endpoint_with(&c, &s, account),
        _ => None,
    }
}

/// Only the provider on this machine may be asked on this machine, and it gets no
/// credential.
pub proof fn law_only_the_local_provider_is_local(
    cfg: EmbeddingConfig,
    store: Map<Seq<char>, CredentialView>,
    account: Option<Seq<char>>,
)
    ensures
        endpoint_of(cfg, store, account) matches Some(endpoint) ==> {
            &&& endpoint.provider == cfg.provider@
            &&& endpoint.allow_loopback <==> endpoint.key is None
            &&& endpoint.allow_loopback <==> endpoint.protocol == Protocol::Ollama
        },
{
}

/// The text that stands for an entry: its description, and the beginning of its
/// content.
pub fn doc_text(description: &str, content: &str) -> (r: String)
    ensures
        r@ == description@ + "\n"@ + first_chars(content@, 1000),
{
    let head = take_chars(content, 1000);
    cat3(description, "\n", head.as_str())
}

/// The key of a text's vector: its digest, in full.
pub open spec fn hash_of(text: Seq<char>) -> Seq<char> {
    short_digest(text, 32)
}

pub fn content_hash(text: &str) -> (r: String)
    ensures
        r@ == hash_of(text@),
        r@.len() == 64,
{
    text_digest(text, 32)
}

/// The file of the cache.
pub fn cache_path(data_dir: &str) -> (r: String)
    ensures
        r@ == joined_path(data_dir@, "embedding-cache.json"@),
{
    join_path(data_dir, "embedding-cache.json")
}

pub open spec fn string_list(texts: Seq<Seq<char>>) -> JsonView {
    JsonView::Arr(texts.map_values(|text: Seq<char>| JsonView::Str(text)))
}

pub open spec fn request_view(model: Seq<char>, texts: Seq<Seq<char>>) -> JsonView {
    JsonView::object().with_str("model"@, model).with("input"@, string_list(texts))
}

fn strings(texts: &Vec<String>) -> (r: Json)
    ensures
        r@ == string_list(views(texts@)),
{
    let mut items: Vec<Json> = Vec::new();
    let ghost wanted = views(texts@).map_values(|text: Seq<char>| JsonView::Str(text));
    let mut i: usize = 0;
    assert(list_view(items@) =~= wanted.take(0));
    while i < texts.len()
        invariant
            i <= texts@.len(),
            wanted == views(texts@).map_values(|text: Seq<char>| JsonView::Str(text)),
            list_view(items@) == wanted.take(i as int),
        decreases texts@.len() - i,
    {
        crate::json::push_json(&mut items, Json::string(texts[i].as_str()));
        assert(wanted.take(i + 1) =~= wanted.take(i as int).push(JsonView::Str(texts@[i as int]@)));
        i = i + 1;
    }
    assert(wanted.take(i as int) =~= wanted);
    Json::array(items)
}

pub fn build_openai_request(model: &str, texts: &Vec<String>) -> (r: Json)
    ensures
        r@ == request_view(model@, views(texts@)),
{
    Json::object().with_str("model", model).with("input", strings(texts))
}

pub fn build_ollama_request(model: &str, texts: &Vec<String>) -> (r: Json)
    ensures
        r@ == request_view(model@, views(texts@)),
{
    Json::object().with_str("model", model).with("input", strings(texts))
}

/// Which of the texts have a vector, and which ones are to be asked for.
#[derive(Debug)]
pub struct Recall {
    /// Without a vector for the query nothing can be compared.
    pub query: bool,
    pub docs: Vec<bool>,
    pub missing: Vec<String>,
}

/// The texts without a vector, the query first.
pub open spec fn without_vector(known: Set<Seq<char>>, texts: Seq<Seq<char>>) -> Seq<Seq<char>>
    decreases texts.len(),
{
    if texts.len() == 0 {
        Seq::empty()
    } else {
        let head = without_vector(known, texts.drop_last());
        if known.contains(hash_of(texts.last())) {
            head
        } else {
            head.push(texts.last())
        }
    }
}

pub open spec fn recalled<V>(r: Recall, cache: EmbeddingCache<V>, query: Seq<char>, docs: Seq<Seq<char>>) -> bool {
    let known = cache@.dom();
    &&& r.query == known.contains(hash_of(query))
    &&& r.docs@ == docs.map_values(|doc: Seq<char>| known.contains(hash_of(doc)))
    &&& views(r.missing@) == each_once(without_vector(known, seq![query] + docs))
}

/// Looks the texts up. Each one that is missing is asked for once, however often
/// it occurs.
pub fn recall<V>(cache: &EmbeddingCache<V>, query: &str, docs: &Vec<String>) -> (r: Recall)
    ensures
        recalled(r, *cache, query@, views(docs@)),
{
    let ghost known = cache@.dom();
    let hash = content_hash(query);
    let has_query = cache.contains(hash.as_str());
    let mut missing: Vec<String> = Vec::new();
    let ghost all = seq![query@] + views(docs@);
    assert(views(missing@) =~= Seq::<Seq<char>>::empty());
    assert(all.take(0) =~= Seq::<Seq<char>>::empty());
    assert(all.take(1).drop_last() =~= all.take(0));
    if !has_query {
        missing.push(query.to_owned());
        assert(views(missing@) =~= Seq::<Seq<char>>::empty().push(query@));
    }
    assert(all.take(1).last() == query@);
    assert(views(missing@) == without_vector(known, all.take(1))) by {
        assert(without_vector(known, all.take(0)) == Seq::<Seq<char>>::empty());
    }
    let mut found: Vec<bool> = Vec::new();
    let ghost wanted = views(docs@).map_values(|doc: Seq<char>| known.contains(hash_of(doc)));
    let mut i: usize = 0;
    assert(found@ =~= wanted.take(0));
    while i < docs.len()
        invariant
            i <= docs@.len(),
            known == cache@.dom(),
            all == seq![query@] + views(docs@),
            wanted == views(docs@).map_values(|doc: Seq<char>| known.contains(hash_of(doc))),
            found@ == wanted.take(i as int),
            views(missing@) == without_vector(known, all.take(i + 1)),
        decreases docs@.len() - i,
    {
        assert(all.take(i + 2).drop_last() =~= all.take(i + 1));
        assert(all[i + 1] == docs@[i as int]@);
        let key = content_hash(docs[i].as_str());
        let there = cache.contains(key.as_str());
        found.push(there);
        assert(wanted.take(i + 1) =~= wanted.take(i as int).push(there));
        if !there {
            let ghost before = missing@;
            missing.push(docs[i].clone());
            assert(views(missing@) =~= views(before).push(docs@[i as int]@));
        }
        i = i + 1;
    }
    assert(all.take(i + 1) =~= all);
    assert(wanted.take(i as int) =~= wanted);
    Recall { query: has_query, docs: found, missing: once_each(missing) }
}

/// A number as it is written.
pub open spec fn number_text(value: JsonView) -> Option<Seq<char>> {
    match value {
        JsonView::Uint(n) => Some(decimal(n as nat)),
        JsonView::Number(text) => Some(text),
        _ => None,
    }
}

/// A vector, by its numbers: all of them, or none.
pub open spec fn vector_in(value: JsonView) -> Option<Seq<Seq<char>>> {
    match value {
        JsonView::Arr(items) => if forall|i: int|
            0 <= i < items.len() ==> number_text(#[trigger] items[i]) is Some {
            Some(items.map_values(|item: JsonView| number_text(item)->0))
        } else {
            None
        },
        _ => None,
    }
}

/// The vector of an item of an answer: the item itself, or a field of it.
pub open spec fn vector_of(item: JsonView, field: Option<Seq<char>>) -> Option<Seq<Seq<char>>> {
    match field {
        Some(key) => match item.get(key) {
            Some(value) => vector_in(value),
            None => None,
        },
        None => vector_in(item),
    }
}

/// The vectors of an answer, under a key: all of them, or none.
pub open spec fn vectors_in(
    body: JsonView,
    key: Seq<char>,
    field: Option<Seq<char>>,
) -> Option<Seq<Seq<Seq<char>>>> {
    match body.get(key) {
        Some(JsonView::Arr(items)) => if forall|i: int|
            0 <= i < items.len() ==> vector_of(#[trigger] items[i], field) is Some {
            Some(items.map_values(|item: JsonView| vector_of(item, field)->0))
        } else {
            None
        },
        _ => None,
    }
}

pub open spec fn openai_vectors(body: JsonView) -> Option<Seq<Seq<Seq<char>>>> {
    vectors_in(body, "data"@, Some("embedding"@))
}

pub open spec fn ollama_vectors(body: JsonView) -> Option<Seq<Seq<Seq<char>>>> {
    vectors_in(body, "embeddings"@, None)
}

pub open spec fn vector_view(vector: Option<Vec<String>>) -> Option<Seq<Seq<char>>> {
    match vector {
        Some(numbers) => Some(views(numbers@)),
        None => None,
    }
}

pub open spec fn rows(list: Seq<Vec<String>>) -> Seq<Seq<Seq<char>>> {
    list.map_values(|row: Vec<String>| views(row@))
}

pub open spec fn vectors_view(vectors: Option<Vec<Vec<String>>>) -> Option<Seq<Seq<Seq<char>>>> {
    match vectors {
        Some(list) => Some(rows(list@)),
        None => None,
    }
}

fn number_of(value: &Json) -> (r: Option<String>)
    ensures
        opt_view(r) == number_text(value@),
{
    match value {
        Json::Uint(n) => Some(decimal_of(*n)),
        Json::Number(text) => Some(text.clone()),
        _ => None,
    }
}

fn read_vector(value: &Json) -> (r: Option<Vec<String>>)
    ensures
        vector_view(r) == vector_in(value@),
{
    let items = match value.as_array() {
        Some(items) => items,
        None => return None,
    };
    let ghost all = list_view(items@);
    proof {
        lemma_list_view(items@);
    }
    let mut out: Vec<String> = Vec::new();
    let mut i: usize = 0;
    while i < items.len()
        invariant
            i <= items@.len() == all.len(),
            all == list_view(items@),
            value@ == JsonView::Arr(all),
            forall|k: int| 0 <= k < all.len() ==> #[trigger] all[k] == items@[k]@,
            out@.len() == i,
            forall|k: int|
                0 <= k < i ==> number_text(#[trigger] all[k]) == Some(out@[k]@),
        decreases items@.len() - i,
    {
        assert(all[i as int] == items@[i as int]@);
        match number_of(&items[i]) {
            Some(number) => out.push(number),
            None => return None,
        }
        i = i + 1;
    }
    assert(views(out@) =~= all.map_values(|item: JsonView| number_text(item)->0));
    Some(out)
}

fn read_item(item: &Json, field: Option<&str>) -> (r: Option<Vec<String>>)
    ensures
        vector_view(r) == vector_of(
            item@,
            match field {
                Some(key) => Some(key@),
                None => None,
            },
        ),
{
    match field {
        Some(key) => match item.get(key) {
            Some(value) => read_vector(value),
            None => None,
        },
        None => read_vector(item),
    }
}

fn read_vectors(body: &Json, key: &str, field: Option<&str>) -> (r: Option<Vec<Vec<String>>>)
    ensures
        vectors_view(r) == vectors_in(
            body@,
            key@,
            match field {
                Some(key) => Some(key@),
                None => None,
            },
        ),
{
    let list = match body.get(key) {
        Some(list) => list,
        None => return None,
    };
    let items = match list.as_array() {
        Some(items) => items,
        None => return None,
    };
    let ghost all = list_view(items@);
    let ghost place = match field {
        Some(key) => Some(key@),
        None => None,
    };
    proof {
        lemma_list_view(items@);
    }
    let mut out: Vec<Vec<String>> = Vec::new();
    let mut i: usize = 0;
    while i < items.len()
        invariant
            i <= items@.len() == all.len(),
            all == list_view(items@),
            body@.get(key@) == Some(JsonView::Arr(all)),
            place == (match field {
                Some(key) => Some(key@),
                None => None,
            }),
            forall|k: int| 0 <= k < all.len() ==> #[trigger] all[k] == items@[k]@,
            out@.len() == i,
            forall|k: int|
                0 <= k < i ==> vector_of(#[trigger] all[k], place) == Some(views(out@[k]@)),
        decreases items@.len() - i,
    {
        assert(all[i as int] == items@[i as int]@);
        match read_item(&items[i], field) {
            Some(vector) => out.push(vector),
            None => return None,
        }
        i = i + 1;
    }
    assert(rows(out@) =~= all.map_values(|item: JsonView| vector_of(item, place)->0));
    Some(out)
}

/// The vectors of an answer of OpenAI's kind, by the texts of their numbers.
pub fn openai_answer(body: &Json) -> (r: Option<Vec<Vec<String>>>)
    ensures
        vectors_view(r) == openai_vectors(body@),
{
    read_vectors(body, "data", Some("embedding"))
}

/// The vectors of an answer of Ollama's kind, by the texts of their numbers.
pub fn ollama_answer(body: &Json) -> (r: Option<Vec<Vec<String>>>)
    ensures
        vectors_view(r) == ollama_vectors(body@),
{
    read_vectors(body, "embeddings", None)
}

pub fn parse_openai_response(body: &str) -> (r: Option<Vec<Vec<String>>>)
    ensures
        vectors_view(r) == (match parsed(body@) {
            Ok(value) => openai_vectors(value),
            Err(_) => None,
        }),
{
    match parse_json(body) {
        Ok(value) => openai_answer(&value),
        Err(_) => None,
    }
}

pub fn parse_ollama_response(body: &str) -> (r: Option<Vec<Vec<String>>>)
    ensures
        vectors_view(r) == (match parsed(body@) {
            Ok(value) => ollama_vectors(value),
            Err(_) => None,
        }),
{
    match parse_json(body) {
        Ok(value) => ollama_answer(&value),
        Err(_) => None,
    }
}

/// A request names its model and holds every text, in order.
pub proof fn law_request_holds_the_texts(model: Seq<char>, texts: Seq<Seq<char>>)
    ensures
        request_view(model, texts).text_under("model"@) == Some(model),
        match request_view(model, texts).get("input"@) {
            Some(JsonView::Arr(list)) => list.len() == texts.len() && forall|i: int|
                0 <= i < texts.len() ==> (#[trigger] list[i]) == JsonView::Str(texts[i]),
            _ => false,
        },
{
    broadcast use law_field_is_found;

    reveal_strlit("model");
    reveal_strlit("input");
    assert("model"@.len() == 5);
    assert("input"@.len() == 5);
    assert("model"@[0] == 'm');
    assert("input"@[0] == 'i');
    let empty = JsonView::object();
    assert(forall|k: Seq<char>| (#[trigger] empty.get(k)) is None);
    let a = empty.with("model"@, JsonView::Str(model));
    let value = a.with("input"@, string_list(texts));
    assert(value == request_view(model, texts));
    assert(value.get("model"@) == Some(JsonView::Str(model)));
    assert(value.get("input"@) == Some(string_list(texts)));
}

proof fn lemma_without_vector(known: Set<Seq<char>>, texts: Seq<Seq<char>>, text: Seq<char>)
    ensures
        without_vector(known, texts).contains(text) <==> texts.contains(text) && !known.contains(
            hash_of(text),
        ),
    decreases texts.len(),
{
    if texts.len() > 0 {
        let init = texts.drop_last();
        let head = without_vector(known, init);
        let out = without_vector(known, texts);
        lemma_without_vector(known, init, text);
        if out.contains(text) {
            let i = choose|i: int| 0 <= i < out.len() && out[i] == text;
            if i < head.len() {
                assert(head[i] == text);
                let k = choose|k: int| 0 <= k < init.len() && init[k] == text;
                assert(texts[k] == text);
            } else {
                assert(texts[texts.len() - 1] == text);
            }
        }
        if texts.contains(text) && !known.contains(hash_of(text)) {
            let k = choose|k: int| 0 <= k < texts.len() && texts[k] == text;
            if k < init.len() {
                assert(init[k] == text);
                let i = choose|i: int| 0 <= i < head.len() && head[i] == text;
                assert(out[i] == text);
            } else {
                assert(out.last() == text);
            }
        }
    }
}

/// What is fetched is exactly the texts that have no vector yet, the query among
/// them, each once.
pub proof fn law_missing_texts_are_fetched_once(
    known: Set<Seq<char>>,
    query: Seq<char>,
    docs: Seq<Seq<char>>,
    text: Seq<char>,
)
    ensures
        ({
            let missing = each_once(without_vector(known, seq![query] + docs));
            &&& missing.no_duplicates()
            &&& missing.contains(text) <==> (text == query || docs.contains(text))
                && !known.contains(hash_of(text))
        }),
{
    let all = seq![query] + docs;
    let found = without_vector(known, all);
    lemma_without_vector(known, all, text);
    law_each_text_once(found, text);
    assert(all[0] == query);
    if docs.contains(text) {
        let i = choose|i: int| 0 <= i < docs.len() && docs[i] == text;
        assert(all[i + 1] == text);
    }
    if all.contains(text) && text != query {
        let i = choose|i: int| 0 <= i < all.len() && all[i] == text;
        assert(docs[i - 1] == text);
    }
}

/// The vectors of an answer are those of its items, one for one and in order, with
/// every number as it stands; an answer in which an item has none is no answer.
pub proof fn law_vectors_are_read_in_order(body: JsonView)
    ensures
        match (openai_vectors(body), body.get("data"@)) {
            (Some(vectors), Some(JsonView::Arr(items))) => vectors.len() == items.len() && forall|i:
                int|
                0 <= i < items.len() ==> (items[i].get("embedding"@) matches Some(
                    JsonView::Arr(numbers),
                ) && (#[trigger] vectors[i]).len() == numbers.len() && forall|j: int|
                    0 <= j < numbers.len() ==> number_text(numbers[j]) == Some(
                        #[trigger] vectors[i][j],
                    )),
            (Some(_), _) => false,
            (None, Some(JsonView::Arr(items))) => exists|i: int|
                0 <= i < items.len() && ((#[trigger] items[i]).get("embedding"@) is None
                    || vector_in(items[i].get("embedding"@)->0) is None),
            (None, _) => true,
        },
        match (ollama_vectors(body), body.get("embeddings"@)) {
            (Some(vectors), Some(JsonView::Arr(items))) => vectors.len() == items.len() && forall|i:
                int|
                0 <= i < items.len() ==> (items[i] matches JsonView::Arr(numbers) && (
                #[trigger] vectors[i]).len() == numbers.len() && forall|j: int|
                    0 <= j < numbers.len() ==> number_text(numbers[j]) == Some(
                        #[trigger] vectors[i][j],
                    )),
            (Some(_), _) => false,
            (None, Some(JsonView::Arr(items))) => exists|i: int|
                0 <= i < items.len() && vector_in(#[trigger] items[i]) is None,
            (None, _) => true,
        },
{
    if let Some(JsonView::Arr(items)) = body.get("data"@) {
        if let Some(vectors) = openai_vectors(body) {
            assert forall|i: int| 0 <= i < items.len() implies (items[i].get(
                "embedding"@,
            ) matches Some(JsonView::Arr(numbers)) && (#[trigger] vectors[i]).len() == numbers.len()
                && forall|j: int|
                0 <= j < numbers.len() ==> number_text(numbers[j]) == Some(
                    #[trigger] vectors[i][j],
                )) by {
                assert(vector_of(items[i], Some("embedding"@)) is Some);
            }
        } else {
            let i = choose|i: int|
                0 <= i < items.len() && vector_of(#[trigger] items[i], Some("embedding"@)) is None;
            assert(items[i].get("embedding"@) is None || vector_in(
                items[i].get("embedding"@)->0,
            ) is None);
        }
    }
    if let Some(JsonView::Arr(items)) = body.get("embeddings"@) {
        if let Some(vectors) = ollama_vectors(body) {
            assert forall|i: int| 0 <= i < items.len() implies (items[i] matches JsonView::Arr(
                numbers,
            ) && (#[trigger] vectors[i]).len() == numbers.len() && forall|j: int|
                0 <= j < numbers.len() ==> number_text(numbers[j]) == Some(
                    #[trigger] vectors[i][j],
                )) by {
                assert(vector_of(items[i], None::<Seq<char>>) is Some);
            }
        } else {
            let i = choose|i: int|
                0 <= i < items.len() && vector_of(#[trigger] items[i], None::<Seq<char>>) is None;
            assert(vector_in(items[i]) is None);
        }
    }
}

/// An endpoint is asked with the provider's stored credential, at the configured
/// address or else its own, for the configured model or else its own. A remote one
/// without a credential is not asked.
pub proof fn law_endpoint_is_the_configured_one(
    cfg: EmbeddingConfig,
    store: Map<Seq<char>, CredentialView>,
    account: Option<Seq<char>>,
)
    ensures
        ({
            let found = endpoint_of(cfg, store, account);
            let base = trimmed_of(trimmed(cfg.base_url@), '/');
            let remote = cfg.provider@ == "openai"@ || cfg.provider@ == "openrouter"@;
            &&& remote ==> (found is Some <==> store.contains_key(cfg.provider@))
            &&& cfg.provider@ == "ollama"@ ==> found is Some
            &&& !remote && cfg.provider@ != "ollama"@ ==> found is None
            &&& found matches Some(endpoint) ==> {
                &&& base.len() > 0 ==> starts(endpoint.url, base)
                &&& trimmed(cfg.model@).len() > 0 ==> endpoint.model == trimmed(cfg.model@)
                &&& remote ==> endpoint.key == Some(store[cfg.provider@].token())
                    && endpoint.account == account && ends(endpoint.url, "/embeddings"@)
                &&& !remote ==> endpoint.key is None && ends(endpoint.url, "/api/embed"@)
            }
        }),
{
    reveal_strlit("openai");
    reveal_strlit("openrouter");
    reveal_strlit("ollama");
    reveal_strlit("default");
    assert("openai"@.len() == 6 && "ollama"@.len() == 6 && "openrouter"@.len() == 10);
    assert("openai"@[1] == 'p' && "ollama"@[1] == 'l');
    if let Some(endpoint) = endpoint_of(cfg, store, account) {
        let base = trimmed_of(trimmed(cfg.base_url@), '/');
        if base.len() > 0 {
            assert(endpoint.url.subrange(0, base.len() as int) =~= base);
        }
        let a = "/embeddings"@;
        let b = "/api/embed"@;
        let n = endpoint.url.len() as int;
        if cfg.provider@ == "ollama"@ {
            assert(endpoint.url.subrange(n - b.len(), n) =~= b);
        } else {
            assert(endpoint.url.subrange(n - a.len(), n) =~= a);
        }
    }
}

/// What is recalled tells of the query and of each text, in order, whether its vector
/// is known; a text is missing exactly where it is not, and is asked for once.
pub proof fn law_recall_tells_what_is_known<V>(
    r: Recall,
    cache: EmbeddingCache<V>,
    query: Seq<char>,
    docs: Seq<Seq<char>>,
    i: int,
)
    requires
        recalled(r, cache, query, docs),
    ensures
        r.query <==> cache@.contains_key(hash_of(query)),
        r.docs@.len() == docs.len(),
        0 <= i < docs.len() ==> (r.docs@[i] <==> cache@.contains_key(hash_of(docs[i]))),
        views(r.missing@).no_duplicates(),
        views(r.missing@).contains(query) <==> !cache@.contains_key(hash_of(query)),
        0 <= i < docs.len() ==> (views(r.missing@).contains(docs[i]) <==> !cache@.contains_key(
            hash_of(docs[i]),
        )),
{
    let all = seq![query] + docs;
    let known = cache@.dom();
    law_each_text_once(without_vector(known, all), query);
    lemma_without_vector(known, all, query);
    assert(all[0] == query);
    if 0 <= i < docs.len() {
        law_each_text_once(without_vector(known, all), docs[i]);
        lemma_without_vector(known, all, docs[i]);
        assert(all[i + 1] == docs[i]);
    }
}

} // verus!
