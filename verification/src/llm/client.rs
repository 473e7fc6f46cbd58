//! From a model and a credential to the endpoint that serves it, and from a
//! failed response to one line of words.

use crate::auth::{credential_for, credential_in, AuthStore, CredentialKind, CredentialView};
use crate::config::CustomProviderDef;
use crate::json::{parse_json, parsed, Json, JsonView};
use crate::llm::mrm::manager::ModelResourceManager;
use crate::llm::sse::opt_text;
use crate::llm::types::ModelRef;
use crate::providers::{find, spec_of, AuthKind, ProviderSpec};
use crate::text::{
    behind, cat2, cat3, cat4, cat5, decimal, decimal_of, join, joined, opt_clone, opt_view, split_whitespace,
    starts, str_eq, strip_prefix, truncate, truncated, words,
};
use vstd::prelude::*;

verus! {

/// The dispatch of requests to providers.
#[derive(Debug)]
pub struct LlmClient {}

/// What the validators of a custom provider's endpoint and of its credential
/// said.
#[derive(Debug)]
pub struct CustomChecks {
    pub endpoint: Result<(), String>,
    pub auth: Result<(), String>,
}

/// Why a custom provider cannot be called, if it cannot.
pub open spec fn custom_refusal(checks: CustomChecks) -> Option<Seq<char>> {
    match checks.endpoint {
        Err(e) => Some("custom provider base_url "@ + e@),
        Ok(_) => match checks.auth {
            Err(e) => Some(e@),
            Ok(_) => None,
        },
    }
}

pub fn validate_custom_dispatch(checks: &CustomChecks) -> (r: Result<(), String>)
    ensures
        match custom_refusal(*checks) {
            None => r is Ok,
            Some(text) => r matches Err(e) && e@ == text,
        },
{
    match &checks.endpoint {
        Err(e) => Err(cat2("custom provider base_url ", e.as_str())),
        Ok(_) => match &checks.auth {
            Err(e) => Err(e.clone()),
            Ok(_) => Ok(()),
        },
    }
}

/// The words for a missing credential.
pub open spec fn missing_credential(provider: Seq<char>, auth: AuthKind) -> Seq<char> {
    provider + " credential missing ("@ + (if auth == AuthKind::Oauth {
        "run doctor"@
    } else {
        "import API key in settings"@
    }) + ")"@
}

fn missing_credential_text(provider: &str, auth: AuthKind) -> (r: String)
    ensures
        r@ == missing_credential(provider@, auth),
{
    let hint = if auth == AuthKind::Oauth {
        "run doctor"
    } else {
        "import API key in settings"
    };
    cat4(provider, " credential missing (", hint, ")")
}

/// Why a request cannot be dispatched from here, if it cannot: a missing
/// credential, an unknown provider, or a custom provider that is not set up.
pub open spec fn dispatch_refusal(
    provider: Seq<char>,
    account: Option<Seq<char>>,
    store: Map<Seq<char>, CredentialView>,
    custom: Map<Seq<char>, CustomProviderDef>,
    registry: Seq<ProviderSpec>,
    checks: CustomChecks,
) -> Option<Seq<char>> {
    let credential = credential_in(store, provider, account);
    if provider == "anthropic"@ {
        if credential is Some && credential->0 is Oauth {
            None
        } else {
            Some("anthropic credential missing (run doctor)"@)
        }
    } else if provider == "openai"@ {
        if credential is Some {
            None
        } else {
            Some("openai credential missing (run doctor)"@)
        }
    } else if behind(provider, "custom:"@) is Some {
        let name = behind(provider, "custom:"@)->0;
        if !custom.contains_key(name) {
            Some("custom provider not configured: "@ + name)
        } else if credential is Some && credential->0 is Api {
            custom_refusal(checks)
        } else {
            Some("custom provider "@ + name + " missing api key"@)
        }
    } else {
        match spec_of(registry, provider) {
            None => Some("unknown provider: "@ + provider),
            Some(spec) => if spec.auth == AuthKind::LocalFree || credential is Some {
                None
            } else {
                Some(missing_credential(provider, spec.auth))
            },
        }
    }
}

/// Where a request goes.
#[derive(Debug)]
pub enum Route {
    /// The subscription endpoint of Anthropic.
    Anthropic { access: String },
    /// A custom endpoint that speaks Anthropic's protocol.
    AnthropicCustom { url: String, key: String },
    /// OpenAI's responses, of a subscription or of the API.
    OpenAi { bearer: String, account_id: Option<String>, subscription: bool },
    /// Any endpoint that speaks OpenAI's chat completions.
    Compatible { url: String, bearer: String },
}

pub enum RouteView {
    Anthropic { access: Seq<char> },
    AnthropicCustom { url: Seq<char>, key: Seq<char> },
    OpenAi { bearer: Seq<char>, account_id: Option<Seq<char>>, subscription: bool },
    Compatible { url: Seq<char>, bearer: Seq<char> },
}

impl View for Route {
    type V = RouteView;

    open spec fn view(&self) -> RouteView {
        match *self {
            Route::Anthropic { access } => RouteView::Anthropic { access: access@ },
            Route::AnthropicCustom { url, key } => RouteView::AnthropicCustom {
                url: url@,
                key: key@,
            },
            Route::OpenAi { bearer, account_id, subscription } => RouteView::OpenAi {
                bearer: bearer@,
                account_id: opt_view(account_id),
                subscription,
            },
            Route::Compatible { url, bearer } => RouteView::Compatible { url: url@, bearer: bearer@ },
        }
    }
}

/// The path below a custom provider's base URL that takes requests.
pub open spec fn custom_path(protocol: Seq<char>) -> Seq<char> {
    if protocol == "anthropic"@ {
        "v1/messages"@
    } else {
        "chat/completions"@
    }
}

pub fn custom_suffix(protocol: &str) -> (r: &'static str)
    ensures
        r@ == custom_path(protocol@),
{
    if str_eq(protocol, "anthropic") {
        "v1/messages"
    } else {
        "chat/completions"
    }
}

/// Where a request goes, or why it goes nowhere. `endpoint` is the custom
/// provider's base URL joined with its path, `chat_url` that of a provider of
/// the registry.
pub open spec fn route_of(
    provider: Seq<char>,
    account: Option<Seq<char>>,
    store: Map<Seq<char>, CredentialView>,
    custom: Map<Seq<char>, CustomProviderDef>,
    registry: Seq<ProviderSpec>,
    endpoint: Option<Seq<char>>,
    chat_url: Seq<char>,
) -> Result<RouteView, Seq<char>> {
    let credential = credential_in(store, provider, account);
    if provider == "anthropic"@ {
        match credential {
            Some(CredentialView::Oauth { access, .. }) => Ok(RouteView::Anthropic { access }),
            _ => Err("anthropic credential missing (run doctor)"@),
        }
    } else if provider == "openai"@ {
        match credential {
            Some(CredentialView::Oauth { access, account_id, .. }) => Ok(
                RouteView::OpenAi { bearer: access, account_id, subscription: true },
            ),
            Some(CredentialView::Api { key, .. }) => Ok(
                RouteView::OpenAi { bearer: key, account_id: None, subscription: false },
            ),
            None => Err("openai credential missing (run doctor)"@),
        }
    } else if behind(provider, "custom:"@) is Some {
        let name = behind(provider, "custom:"@)->0;
        if !custom.contains_key(name) {
            Err("custom provider not configured: "@ + name)
        } else {
            match credential {
                Some(CredentialView::Api { key, .. }) => match endpoint {
                    None => Err("custom provider endpoint is invalid"@),
                    Some(url) => if custom[name].protocol@ == "anthropic"@ {
                        Ok(RouteView::AnthropicCustom { url, key })
                    } else {
                        Ok(RouteView::Compatible { url, bearer: key })
                    },
                },
                _ => Err("custom provider "@ + name + " missing api key"@),
            }
        }
    } else {
        match spec_of(registry, provider) {
            None => Err("unknown provider: "@ + provider),
            Some(spec) => if spec.auth == AuthKind::LocalFree {
                Ok(RouteView::Compatible { url: chat_url, bearer: provider })
            } else {
                match credential {
                    Some(c) => Ok(RouteView::Compatible { url: chat_url, bearer: c.token() }),
                    None => Err(missing_credential(provider, spec.auth)),
                }
            },
        }
    }
}

impl LlmClient {
    /// Checks a request before it takes a slot: what can be told from here.
    /// With a stream of the caller's own there is nothing to check.
    pub fn validate_dispatch_in(
        model: &ModelRef,
        store: &AuthStore,
        stream_override: bool,
        mrm: &ModelResourceManager,
        registry: &Vec<ProviderSpec>,
        checks: &CustomChecks,
    ) -> (r: Result<(), String>)
        ensures
            if stream_override {
                r is Ok
            } else {
                match dispatch_refusal(
                    model.provider@,
                    opt_view(model.account),
                    store@,
                    mrm.config.custom_providers@,
                    registry@,
                    *checks,
                ) {
                    None => r is Ok,
                    Some(text) => r matches Err(e) && e@ == text,
                }
            },
    {
        if stream_override {
            return Ok(());
        }
        let provider = model.provider.as_str();
        let credential = credential_for(store, provider, &model.account);
        if str_eq(provider, "anthropic") {
            return match credential {
                Some(CredentialKind::Oauth { .. }) => Ok(()),
                _ => Err("anthropic credential missing (run doctor)".to_owned()),
            };
        }
        if str_eq(provider, "openai") {
            return if credential.is_some() {
                Ok(())
            } else {
                Err("openai credential missing (run doctor)".to_owned())
            };
        }
        if let Some(name) = strip_prefix(provider, "custom:") {
            if mrm.custom_provider(name.as_str()).is_none() {
                return Err(cat2("custom provider not configured: ", name.as_str()));
            }
            return match credential {
                Some(CredentialKind::Api { .. }) => validate_custom_dispatch(checks),
                _ => Err(cat3("custom provider ", name.as_str(), " missing api key")),
            };
        }
        match find(registry, provider) {
            None => Err(cat2("unknown provider: ", provider)),
            Some(spec) => if spec.auth == AuthKind::LocalFree || credential.is_some() {
                Ok(())
            } else {
                Err(missing_credential_text(provider, spec.auth))
            },
        }
    }

    /// Where a request goes.
    pub fn route(
        model: &ModelRef,
        store: &AuthStore,
        mrm: &ModelResourceManager,
        registry: &Vec<ProviderSpec>,
        endpoint: Option<String>,
        chat_url: String,
    ) -> (r: Result<Route, String>)
        ensures
            (match r {
                Ok(route) => Ok(route@),
                Err(e) => Err(e@),
            }) == route_of(
                model.provider@,
                opt_view(model.account),
                store@,
                mrm.config.custom_providers@,
                registry@,
                opt_view(endpoint),
                chat_url@,
            ),
    {
        let provider = model.provider.as_str();
        let credential = credential_for(store, provider, &model.account);
        if str_eq(provider, "anthropic") {
            return match credential {
                Some(CredentialKind::Oauth { access, .. }) => Ok(
                    Route::Anthropic { access: access.clone() },
                ),
                _ => Err("anthropic credential missing (run doctor)".to_owned()),
            };
        }
        if str_eq(provider, "openai") {
            return match credential {
                Some(CredentialKind::Oauth { access, account_id, .. }) => Ok(
                    Route::OpenAi {
                        bearer: access.clone(),
                        account_id: opt_clone(account_id),
                        subscription: true,
                    },
                ),
                Some(CredentialKind::Api { key, .. }) => Ok(
                    Route::OpenAi { bearer: key.clone(), account_id: None, subscription: false },
                ),
                None => Err("openai credential missing (run doctor)".to_owned()),
            };
        }
        if let Some(name) = strip_prefix(provider, "custom:") {
            return match mrm.custom_provider(name.as_str()) {
                None => Err(cat2("custom provider not configured: ", name.as_str())),
                Some(definition) => match credential {
                    Some(CredentialKind::Api { key, .. }) => match endpoint {
                        None => Err("custom provider endpoint is invalid".to_owned()),
                        Some(url) => if str_eq(definition.protocol.as_str(), "anthropic") {
                            Ok(Route::AnthropicCustom { url, key: key.clone() })
                        } else {
                            Ok(Route::Compatible { url, bearer: key.clone() })
                        },
                    },
                    _ => Err(cat3("custom provider ", name.as_str(), " missing api key")),
                },
            };
        }
        match find(registry, provider) {
            None => Err(cat2("unknown provider: ", provider)),
            Some(spec) => if spec.auth == AuthKind::LocalFree {
                Ok(Route::Compatible { url: chat_url, bearer: model.provider.clone() })
            } else {
                match credential {
                    Some(c) => Ok(
                        Route::Compatible { url: chat_url, bearer: c.bearer().to_owned() },
                    ),
                    None => Err(missing_credential_text(provider, spec.auth)),
                }
            },
        }
    }
}

/// A request that passes the checks has somewhere to go, given that a custom
/// provider's endpoint can be joined.
pub proof fn law_valid_dispatch_has_a_route(
    provider: Seq<char>,
    account: Option<Seq<char>>,
    store: Map<Seq<char>, CredentialView>,
    custom: Map<Seq<char>, CustomProviderDef>,
    registry: Seq<ProviderSpec>,
    checks: CustomChecks,
    endpoint: Seq<char>,
    chat_url: Seq<char>,
)
    requires
        dispatch_refusal(provider, account, store, custom, registry, checks) is None,
    ensures
        route_of(provider, account, store, custom, registry, Some(endpoint), chat_url) is Ok,
{
}

/// A text on one line: every run of white space is one space.
pub open spec fn on_one_line(s: Seq<char>) -> Seq<char> {
    joined(words(s), " "@)
}

fn one_line(s: &str) -> (r: String)
    ensures
        r@ == on_one_line(s@),
{
    let list = split_whitespace(s);
    join(list.as_slice(), " ")
}

/// The field `key` of the error that a body carries.
pub open spec fn body_error(body: Result<JsonView, Seq<char>>, key: Seq<char>) -> Option<Seq<char>> {
    match body {
        Err(_) => None,
        Ok(value) => match value.get("error"@) {
            None => None,
            Some(error) => opt_text(error.get(key)),
        },
    }
}

/// What a failed response says: type and message of its error, or, where it has
/// neither, the start of the body.
pub open spec fn detail_of(text: Seq<char>, body: Result<JsonView, Seq<char>>) -> Seq<char> {
    match (body_error(body, "type"@), body_error(body, "message"@)) {
        (Some(kind), Some(message)) => on_one_line(kind) + " - "@ + on_one_line(message),
        (None, Some(message)) => on_one_line(message),
        (Some(kind), None) => on_one_line(kind),
        (None, None) => truncated(text, 300),
    }
}

fn error_field(value: &Json, key: &str) -> (r: Option<String>)
    ensures
        opt_view(r) == body_error(Ok(value@), key@),
{
    match value.get("error") {
        None => None,
        Some(error) => match error.get(key) {
            None => None,
            Some(field) => match field.as_str() {
                Some(text) => Some(text.clone()),
                None => None,
            },
        },
    }
}

/// What the value that was read from a body says.
pub fn detail_in(text: &str, value: Option<&Json>) -> (r: String)
    ensures
        r@ == detail_of(
            text@,
            match value {
                Some(v) => Ok(v@),
                None => Err(Seq::empty()),
            },
        ),
{
    let mut kind: Option<String> = None;
    let mut message: Option<String> = None;
    if let Some(v) = value {
        kind = error_field(v, "type");
        message = error_field(v, "message");
    }
    match (kind, message) {
        (Some(k), Some(m)) => {
            let a = one_line(k.as_str());
            let b = one_line(m.as_str());
            cat3(a.as_str(), " - ", b.as_str())
        },
        (None, Some(m)) => one_line(m.as_str()),
        (Some(k), None) => one_line(k.as_str()),
        (None, None) => truncate(text, 300),
    }
}

/// What a failed response says in its body.
pub fn http_error_detail(body: &str) -> (r: String)
    ensures
        r@ == detail_of(body@, parsed(body@)),
{
    match parse_json(body) {
        Ok(value) => detail_in(body, Some(&value)),
        Err(_) => {
            let r = detail_in(body, None);
            r
        },
    }
}

/// A failed response in one line. `detail` is `http_error_detail` with the
/// secrets taken out.
pub fn format_http_error(provider: &str, status: u16, detail: &str) -> (r: String)
    ensures
        r@ == provider@ + " HTTP "@ + decimal(status as nat) + ": "@ + detail@,
{
    let code = decimal_of(status as u64);
    cat5(provider, " HTTP ", code.as_str(), ": ", detail)
}

/// A call goes out with the credential of its own account: Anthropic's own with the
/// token of its subscription, OpenAI's with either and the subscription's account,
/// an endpoint of the user's own with its key, and any other with its token. Only a
/// provider that needs none is called without.
pub proof fn law_route_uses_the_credential(
    provider: Seq<char>,
    account: Option<Seq<char>>,
    store: Map<Seq<char>, CredentialView>,
    custom: Map<Seq<char>, CustomProviderDef>,
    registry: Seq<ProviderSpec>,
    endpoint: Option<Seq<char>>,
    chat_url: Seq<char>,
)
    ensures
        route_of(provider, account, store, custom, registry, endpoint, chat_url) matches Ok(route)
            ==> {
            let key = {
                let name = match account {
                    Some(name) => name,
                    None => "default"@,
                };
                if name == "default"@ {
                    provider
                } else {
                    provider + ":"@ + name
                }
            };
            match route {
                RouteView::Anthropic { access } => {
                    &&& provider == "anthropic"@
                    &&& store.contains_key(key) && store[key] is Oauth && access == store[key].token()
                },
                RouteView::OpenAi { bearer, account_id, subscription } => {
                    &&& provider == "openai"@
                    &&& store.contains_key(key) && bearer == store[key].token()
                    &&& subscription <==> store[key] is Oauth
                    &&& store[key] matches CredentialView::Oauth { account_id: own, .. }
                        ==> account_id == own
                    &&& store[key] is Api ==> account_id is None
                },
                RouteView::AnthropicCustom { url, key: secret } => {
                    &&& starts(provider, "custom:"@)
                    &&& store.contains_key(key) && store[key] is Api && secret == store[key].token()
                    &&& endpoint == Some(url)
                },
                RouteView::Compatible { url, bearer } => {
                    &&& starts(provider, "custom:"@) ==> endpoint == Some(url) && store.contains_key(
                        key,
                    ) && store[key] is Api && bearer == store[key].token()
                    &&& !starts(provider, "custom:"@) ==> url == chat_url && (spec_of(
                        registry,
                        provider,
                    ) matches Some(spec) && (spec.auth == AuthKind::LocalFree && bearer == provider
                        || spec.auth != AuthKind::LocalFree && store.contains_key(key) && bearer
                        == store[key].token()))
                },
            }
        },
{
    reveal_strlit("anthropic");
    reveal_strlit("openai");
    assert("anthropic"@.len() == 9 && "openai"@.len() == 6);
}

/// A call is refused before it is made exactly where it could not be: without the
/// credential that its provider needs, for a provider that is not known or not
/// configured, and for an endpoint that does not pass its checks.
pub proof fn law_dispatch_is_refused_without_credential(
    provider: Seq<char>,
    account: Option<Seq<char>>,
    store: Map<Seq<char>, CredentialView>,
    custom: Map<Seq<char>, CustomProviderDef>,
    registry: Seq<ProviderSpec>,
    checks: CustomChecks,
)
    ensures
        ({
            let key = {
                let name = match account {
                    Some(name) => name,
                    None => "default"@,
                };
                if name == "default"@ {
                    provider
                } else {
                    provider + ":"@ + name
                }
            };
            let refused = dispatch_refusal(provider, account, store, custom, registry, checks) is Some;
            let own = provider == "anthropic"@ || provider == "openai"@;
            &&& provider == "anthropic"@ ==> (refused <==> !(store.contains_key(key)
                && store[key] is Oauth))
            &&& provider == "openai"@ ==> (refused <==> !store.contains_key(key))
            &&& !own && starts(provider, "custom:"@) ==> (refused <==> !(custom.contains_key(
                provider.subrange(7, provider.len() as int),
            ) && store.contains_key(key) && store[key] is Api && checks.endpoint is Ok
                && checks.auth is Ok))
            &&& !own && !starts(provider, "custom:"@) ==> (refused <==> !(spec_of(
                registry,
                provider,
            ) matches Some(spec) && (spec.auth == AuthKind::LocalFree || store.contains_key(key))))
        }),
{
    reveal_strlit("anthropic");
    reveal_strlit("openai");
    reveal_strlit("custom:");
    assert("anthropic"@.len() == 9 && "openai"@.len() == 6 && "custom:"@.len() == 7);
}

/// The detail of an error is its type and message where the body names them, each
/// on one line, and else the start of the body.
pub proof fn law_error_detail_is_told(text: Seq<char>, value: JsonView)
    ensures
        ({
            let error = value.get("error"@);
            let kind = match error {
                Some(e) => e.text_under("type"@),
                None => None,
            };
            let message = match error {
                Some(e) => e.text_under("message"@),
                None => None,
            };
            let detail = detail_of(text, Ok(value));
            &&& kind is Some && message is Some ==> detail == on_one_line(kind->0) + " - "@
                + on_one_line(message->0)
            &&& kind is None && message is Some ==> detail == on_one_line(message->0)
            &&& kind is Some && message is None ==> detail == on_one_line(kind->0)
            &&& kind is None && message is None ==> detail == truncated(text, 300)
        }),
        detail_of(text, Err(text)) == truncated(text, 300),
{
}

/// The words for a missing credential name the provider, and say where it comes
/// from: a subscription from the doctor, a key from the settings.
pub proof fn law_missing_credential_is_explained(provider: Seq<char>, auth: AuthKind)
    ensures
        starts(missing_credential(provider, auth), provider + " credential missing ("@),
        auth == AuthKind::Oauth ==> missing_credential(provider, auth) == provider
            + " credential missing ("@ + "run doctor"@ + ")"@,
        auth != AuthKind::Oauth ==> missing_credential(provider, auth) == provider
            + " credential missing ("@ + "import API key in settings"@ + ")"@,
{
    let head = provider + " credential missing ("@;
    assert(missing_credential(provider, auth).subrange(0, head.len() as int) =~= head);
}

/// A custom endpoint is called under the path of its protocol.
pub proof fn law_custom_endpoints_have_their_path(protocol: Seq<char>)
    ensures
        custom_path(protocol) == "v1/messages"@ <==> protocol == "anthropic"@,
        custom_path(protocol) == "chat/completions"@ <==> protocol != "anthropic"@,
{
    reveal_strlit("v1/messages");
    reveal_strlit("chat/completions");
    assert("v1/messages"@.len() == 11 && "chat/completions"@.len() == 16);
}

} // verus!
