//! The models that an endpoint lists.

use crate::auth::{credential_for, credential_in, AuthStore, CredentialView};
use crate::config::CustomProviderDef;
use crate::json::{lemma_list_view, list_view, Json, JsonView};
use crate::llm::mrm::manager::ModelResourceManager;
use crate::providers::{find, spec_of, AuthKind, ProviderSpec, WireProtocol};
use crate::text::{behind, cat2, ends, opt_view, starts, str_eq, strip_prefix, views};
use vstd::prelude::*;
use vstd::string::*;

verus! {

/// What came of asking an endpoint for its models. `source` is `endpoint`,
/// `unsupported` or `error`.
#[derive(Debug, PartialEq, Eq)]
pub struct ModelsOutcome {
    pub models: Vec<String>,
    pub source: String,
    pub detail: String,
}

#[verifier::ext_equal]
pub struct OutcomeView {
    pub models: Seq<Seq<char>>,
    pub source: Seq<char>,
    pub detail: Seq<char>,
}

impl View for ModelsOutcome {
    type V = OutcomeView;

    open spec fn view(&self) -> OutcomeView {
        OutcomeView { models: views(self.models@), source: self.source@, detail: self.detail@ }
    }
}

/// No models, for this reason.
pub open spec fn without_models(source: Seq<char>, detail: Seq<char>) -> OutcomeView {
    OutcomeView { models: Seq::empty(), source, detail }
}

fn no_models(source: &str, detail: String) -> (r: ModelsOutcome)
    ensures
        r@ == without_models(source@, detail@),
{
    let r = ModelsOutcome { models: Vec::new(), source: source.to_owned(), detail };
    assert(r@.models =~= Seq::<Seq<char>>::empty());
    r
}

/// How a request for models is authenticated.
#[derive(Debug, Clone, Copy, PartialEq, Eq, Structural)]
pub enum ModelsAuth {
    /// The key in `x-api-key`, with `anthropic-version` beside it.
    ApiKeyHeader,
    Bearer,
    Anonymous,
}

/// The request that lists models.
#[derive(Debug)]
pub struct ModelsRequest {
    pub url: String,
    pub auth: ModelsAuth,
    pub bearer: Option<String>,
}

#[verifier::ext_equal]
pub struct RequestView {
    pub url: Seq<char>,
    pub auth: ModelsAuth,
    pub bearer: Option<Seq<char>>,
}

impl View for ModelsRequest {
    type V = RequestView;

    open spec fn view(&self) -> RequestView {
        RequestView { url: self.url@, auth: self.auth, bearer: opt_view(self.bearer) }
    }
}

/// The path below a base URL that lists models.
pub open spec fn models_path(protocol: Seq<char>) -> Seq<char> {
    if protocol == "anthropic"@ {
        "v1/models"@
    } else {
        "models"@
    }
}

pub fn models_suffix(protocol: &str) -> (r: &'static str)
    ensures
        r@ == models_path(protocol@),
{
    if str_eq(protocol, "anthropic") {
        "v1/models"
    } else {
        "models"
    }
}

/// Where the models are listed, and whether the key goes into a header of its
/// own; or why there is no such place. `endpoint` is a custom provider's base
/// URL joined with `models_path`, `models_url` the address that a provider of
/// the registry has for its models.
pub open spec fn listing_of(
    provider: Seq<char>,
    custom: Map<Seq<char>, CustomProviderDef>,
    registry: Seq<ProviderSpec>,
    endpoint: Result<Seq<char>, Seq<char>>,
    models_url: Option<Seq<char>>,
) -> Result<(Seq<char>, bool), OutcomeView> {
    match behind(provider, "custom:"@) {
        Some(name) => if !custom.contains_key(name) {
            Err(without_models("error"@, "custom provider not configured: "@ + name))
        } else {
            match endpoint {
                Err(error) => Err(without_models("error"@, error)),
                Ok(url) => Ok((url, custom[name].protocol@ == "anthropic"@)),
            }
        },
        None => match spec_of(registry, provider) {
            None => Err(
                without_models("unsupported"@, provider + " 订阅端点不支持 /models"@),
            ),
            Some(spec) => match models_url {
                None => Err(
                    without_models(
                        "unsupported"@,
                        provider + " 端点未暴露 /models（用内置目录）"@,
                    ),
                ),
                Some(url) => Ok((url, spec.protocol == WireProtocol::Anthropic)),
            },
        },
    }
}

pub open spec fn auth_of(api_key_header: bool, bearer: Option<Seq<char>>) -> ModelsAuth {
    if bearer is None {
        ModelsAuth::Anonymous
    } else if api_key_header {
        ModelsAuth::ApiKeyHeader
    } else {
        ModelsAuth::Bearer
    }
}

/// The request that lists a provider's models, or what is answered without one.
pub open spec fn request_of(
    provider: Seq<char>,
    account: Option<Seq<char>>,
    store: Map<Seq<char>, CredentialView>,
    custom: Map<Seq<char>, CustomProviderDef>,
    registry: Seq<ProviderSpec>,
    endpoint: Result<Seq<char>, Seq<char>>,
    models_url: Option<Seq<char>>,
) -> Result<RequestView, OutcomeView> {
    match listing_of(provider, custom, registry, endpoint, models_url) {
        Err(outcome) => Err(outcome),
        Ok((url, api_key_header)) => {
            let local_free = match spec_of(registry, provider) {
                Some(spec) => spec.auth == AuthKind::LocalFree,
                None => false,
            };
            let bearer = match credential_in(store, provider, account) {
                Some(c) => Some(c.token()),
                None => None,
            };
            if !local_free && bearer is None {
                Err(without_models("error"@, "无凭证"@))
            } else {
                Ok(RequestView { url, auth: auth_of(api_key_header, bearer), bearer })
            }
        },
    }
}

/// The outcome of planning, by its view.
pub open spec fn plan_view(r: Result<ModelsRequest, ModelsOutcome>) -> Result<RequestView, OutcomeView> {
    match r {
        Ok(request) => Ok(request@),
        Err(outcome) => Err(outcome@),
    }
}

pub open spec fn address_view(r: Result<String, String>) -> Result<Seq<char>, Seq<char>> {
    match r {
        Ok(url) => Ok(url@),
        Err(error) => Err(error@),
    }
}

/// The request that lists a provider's models, or what is answered without one.
pub fn models_request(
    mrm: &ModelResourceManager,
    store: &AuthStore,
    provider: &str,
    account: &Option<String>,
    registry: &Vec<ProviderSpec>,
    endpoint: Result<String, String>,
    models_url: Option<String>,
) -> (r: Result<ModelsRequest, ModelsOutcome>)
    ensures
        plan_view(r) == request_of(
            provider@,
            opt_view(*account),
            store@,
            mrm.config.custom_providers@,
            registry@,
            address_view(endpoint),
            opt_view(models_url),
        ),
{
    let known = find(registry, provider);
    let (url, api_key_header) = match strip_prefix(provider, "custom:") {
        Some(name) => match mrm.custom_provider(name.as_str()) {
            None => {
                let detail = cat2("custom provider not configured: ", name.as_str());
                return Err(no_models("error", detail));
            },
            Some(definition) => match endpoint {
                Err(error) => return Err(no_models("error", error)),
                Ok(url) => (url, str_eq(definition.protocol.as_str(), "anthropic")),
            },
        },
        None => match known {
            None => {
                let detail = cat2(provider, " 订阅端点不支持 /models");
                return Err(no_models("unsupported", detail));
            },
            Some(spec) => match models_url {
                None => {
                    let detail = cat2(provider, " 端点未暴露 /models（用内置目录）");
                    return Err(no_models("unsupported", detail));
                },
                Some(url) => (url, spec.protocol == WireProtocol::Anthropic),
            },
        },
    };
    let local_free = match known {
        Some(spec) => spec.auth == AuthKind::LocalFree,
        None => false,
    };
    match credential_for(store, provider, account) {
        Some(credential) => {
            let auth = if api_key_header {
                ModelsAuth::ApiKeyHeader
            } else {
                ModelsAuth::Bearer
            };
            Ok(ModelsRequest { url, auth, bearer: Some(credential.bearer().to_owned()) })
        },
        None => if local_free {
            Ok(ModelsRequest { url, auth: ModelsAuth::Anonymous, bearer: None })
        } else {
            Err(no_models("error", "无凭证".to_owned()))
        },
    }
}

/// The request that lists the models of a custom provider that is not saved yet.
pub fn probe_request(endpoint: Result<String, String>, api_key: &str, protocol: &str) -> (r: Result<
    ModelsRequest,
    ModelsOutcome,
>)
    ensures
        plan_view(r) == (match endpoint {
            Err(error) => Err(without_models("error"@, error@)),
            Ok(url) => Ok(
                RequestView {
                    url: url@,
                    auth: auth_of(protocol@ == "anthropic"@, Some(api_key@)),
                    bearer: Some(api_key@),
                },
            ),
        }),
{
    match endpoint {
        Err(error) => Err(no_models("error", error)),
        Ok(url) => {
            let auth = if str_eq(protocol, "anthropic") {
                ModelsAuth::ApiKeyHeader
            } else {
                ModelsAuth::Bearer
            };
            Ok(ModelsRequest { url, auth, bearer: Some(api_key.to_owned()) })
        },
    }
}

/// The identifiers in a list of models; what has none is left out.
pub open spec fn ids(items: Seq<JsonView>) -> Seq<Seq<char>>
    decreases items.len(),
{
    if items.len() == 0 {
        Seq::empty()
    } else {
        match items.last().text_under("id"@) {
            Some(id) => ids(items.drop_last()).push(id),
            None => ids(items.drop_last()),
        }
    }
}

/// The models that a body lists under `data`.
pub open spec fn models_of(body: JsonView) -> Seq<Seq<char>> {
    match body.get("data"@) {
        Some(JsonView::Arr(items)) => ids(items),
        _ => Seq::empty(),
    }
}

pub fn listed_models(body: &Json) -> (r: Vec<String>)
    ensures
        views(r@) == models_of(body@),
{
    let mut out: Vec<String> = Vec::new();
    assert(views(out@) =~= Seq::<Seq<char>>::empty());
    let items = match body.get("data") {
        Some(data) => match data.as_array() {
            Some(items) => items,
            None => return out,
        },
        None => return out,
    };
    let ghost all = list_view(items@);
    proof {
        lemma_list_view(items@);
        assert(all.take(0) =~= Seq::<JsonView>::empty());
    }
    let mut i: usize = 0;
    while i < items.len()
        invariant
            i <= items@.len(),
            all == list_view(items@),
            views(out@) == ids(all.take(i as int)),
        decreases items@.len() - i,
    {
        proof {
            lemma_list_view(items@);
            assert(all.take(i + 1).drop_last() =~= all.take(i as int));
            assert(all.take(i + 1).last() == items@[i as int]@);
        }
        let ghost before = out@;
        if let Some(id) = items[i].text_at("id") {
            out.push(id.clone());
            assert(views(out@) =~= views(before).push(id@));
        }
        i = i + 1;
    }
    assert(all.take(i as int) =~= all) by {
        lemma_list_view(items@);
    }
    out
}

/// What the endpoint answered.
#[derive(Debug)]
pub enum Reply {
    /// A success, with the body or the reason why it could not be read.
    Body(Result<Json, String>),
    /// A status other than success, in words.
    Refused(String),
    /// No answer, in words.
    Failed(String),
}

/// An empty list is an error: the endpoint speaks another format.
pub open spec fn outcome_of(reply: Reply) -> OutcomeView {
    match reply {
        Reply::Refused(detail) => without_models("error"@, detail@),
        Reply::Failed(error) => without_models("error"@, "请求失败: "@ + error@),
        Reply::Body(Err(error)) => without_models("error"@, "响应解析失败: "@ + error@),
        Reply::Body(Ok(body)) => if models_of(body@).len() == 0 {
            without_models("error"@, "清单为空（端点不兼容）"@)
        } else {
            OutcomeView { models: models_of(body@), source: "endpoint"@, detail: Seq::empty() }
        },
    }
}

pub fn conclude(reply: Reply) -> (r: ModelsOutcome)
    ensures
        r@ == outcome_of(reply),
{
    match reply {
        Reply::Refused(detail) => no_models("error", detail),
        Reply::Failed(error) => {
            let detail = cat2("请求失败: ", error.as_str());
            no_models("error", detail)
        },
        Reply::Body(Err(error)) => {
            let detail = cat2("响应解析失败: ", error.as_str());
            no_models("error", detail)
        },
        Reply::Body(Ok(body)) => {
            let models = listed_models(&body);
            if models.len() == 0 {
                no_models("error", "清单为空（端点不兼容）".to_owned())
            } else {
                ModelsOutcome { models, source: "endpoint".to_owned(), detail: String::new() }
            }
        },
    }
}

/// The outcome says `endpoint` exactly where it lists a model.
pub proof fn law_endpoint_lists_models(reply: Reply)
    ensures
        outcome_of(reply).source == "endpoint"@ <==> outcome_of(reply).models.len() > 0,
{
    reveal_strlit("endpoint");
    reveal_strlit("error");
    assert("endpoint"@.len() != "error"@.len());
}

/// The models of an answer are the ids of its items, in order; an item without one
/// is left out.
pub proof fn law_listed_models_are_the_ids(items: Seq<JsonView>, item: JsonView)
    ensures
        item.text_under("id"@) matches Some(id) ==> ids(items.push(item)) == ids(items).push(id),
        item.text_under("id"@) is None ==> ids(items.push(item)) == ids(items),
        ids(Seq::<JsonView>::empty()).len() == 0,
{
    assert(items.push(item).drop_last() =~= items);
}

/// What the endpoint listed is handed on whole; every failure is told as an error,
/// with its reason and without models.
pub proof fn law_listing_or_error(body: Json, error: String)
    ensures
        match body@.get("data"@) {
            Some(JsonView::Arr(items)) if ids(items).len() > 0 => {
                &&& outcome_of(Reply::Body(Ok(body))).models == ids(items)
                &&& outcome_of(Reply::Body(Ok(body))).source == "endpoint"@
            },
            _ => outcome_of(Reply::Body(Ok(body))).source == "error"@,
        },
        outcome_of(Reply::Refused(error)).source == "error"@,
        outcome_of(Reply::Refused(error)).detail == error@,
        outcome_of(Reply::Failed(error)).source == "error"@,
        ends(outcome_of(Reply::Failed(error)).detail, error@),
        outcome_of(Reply::Body(Err(error))).source == "error"@,
        ends(outcome_of(Reply::Body(Err(error))).detail, error@),
{
    let a = "请求失败: "@ + error@;
    let b = "响应解析失败: "@ + error@;
    assert(a.subrange(a.len() - error@.len(), a.len() as int) =~= error@);
    assert(b.subrange(b.len() - error@.len(), b.len() as int) =~= error@);
}

/// The models are asked for with the account's own credential: in a header of its
/// own where the endpoint speaks that protocol, and else as a bearer. Without one
/// only a provider that needs none is asked.
pub proof fn law_listing_uses_the_credential(
    provider: Seq<char>,
    account: Option<Seq<char>>,
    store: Map<Seq<char>, CredentialView>,
    custom: Map<Seq<char>, CustomProviderDef>,
    registry: Seq<ProviderSpec>,
    endpoint: Result<Seq<char>, Seq<char>>,
    models_url: Option<Seq<char>>,
)
    ensures
        request_of(provider, account, store, custom, registry, endpoint, models_url) matches Ok(
            request,
        ) ==> {
            let key = {
                let name = match account {
                    Some(name) => name,
                    None => "default"@,
                };
                if name == "default"@ {
                    provider
                } else {
                    provider + ":"@ + name
                }
            };
            &&& store.contains_key(key) ==> request.bearer == Some(store[key].token())
                && request.auth != ModelsAuth::Anonymous
            &&& !store.contains_key(key) ==> request.bearer is None && request.auth
                == ModelsAuth::Anonymous && (spec_of(registry, provider) matches Some(spec)
                && spec.auth == AuthKind::LocalFree)
            &&& starts(provider, "custom:"@) ==> endpoint == Ok::<Seq<char>, Seq<char>>(request.url)
            &&& !starts(provider, "custom:"@) ==> models_url == Some(request.url)
        },
{
}

/// Only an endpoint that speaks the other protocol lists its models below a version.
pub proof fn law_models_have_their_path(protocol: Seq<char>)
    ensures
        models_path(protocol) == "v1/models"@ <==> protocol == "anthropic"@,
        models_path(protocol) == "models"@ <==> protocol != "anthropic"@,
{
    reveal_strlit("v1/models");
    reveal_strlit("models");
    assert("v1/models"@.len() == 9 && "models"@.len() == 6);
}

} // verus!
