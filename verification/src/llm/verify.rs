//! Probing a provider with one small call.

use crate::auth::{account_id, account_key, AuthStore, CredentialKind, CredentialView};
use crate::config::CustomProviderDef;
use crate::llm::managed::{collected, CollectorView, ManagedError, ManagedOutput, TokenUsage};
use crate::llm::mrm::manager::ModelResourceManager;
use crate::llm::retry::opt_str;
use crate::llm::types::Delta;
use crate::providers::{find, spec_of, ProviderSpec};
use crate::text::{behind, cat2, cat3, ends, opt_clone, opt_view, starts, str_eq, strip_prefix};
use vstd::prelude::*;

verus! {

#[derive(Debug, PartialEq, Eq)]
pub struct VerifyOutcome {
    pub ok: bool,
    pub latency_ms: u64,
    pub detail: String,
}

/// The credential that is tried: a subscription for the kind `oauth`, else an
/// API key. Only a key has a region.
pub open spec fn candidate(
    kind: Seq<char>,
    access: Seq<char>,
    refresh: Seq<char>,
    expires: u64,
    region: Option<Seq<char>>,
) -> CredentialView {
    if kind == "oauth"@ {
        CredentialView::Oauth { access, refresh, expires, account_id: None }
    } else {
        CredentialView::Api { key: access, region }
    }
}

/// The store with a credential to try; `store` itself stays as it is.
pub fn store_with_temp_cred(
    store: &AuthStore,
    provider: &str,
    account: &str,
    kind: &str,
    access: &str,
    refresh: &str,
    expires: u64,
    region: Option<&str>,
) -> (r: AuthStore)
    ensures
        r@ == store@.insert(
            account_key(provider@, account@),
            candidate(kind@, access@, refresh@, expires, opt_str(region)),
        ),
{
    let mut cloned = store.copy();
    let credential = if str_eq(kind, "oauth") {
        CredentialKind::Oauth {
            access: access.to_owned(),
            refresh: refresh.to_owned(),
            expires,
            account_id: None,
        }
    } else {
        let region = match region {
            Some(text) => Some(text.to_owned()),
            None => None,
        };
        CredentialKind::Api { key: access.to_owned(), region }
    };
    let key = account_id(provider, account);
    cloned.insert(key.as_str(), credential);
    cloned
}

/// The model to probe with: the one asked for, else the first of a custom
/// provider or the default one of a known provider.
pub open spec fn probe_model(
    provider: Seq<char>,
    requested: Option<Seq<char>>,
    custom: Map<Seq<char>, CustomProviderDef>,
    registry: Seq<ProviderSpec>,
) -> Result<Seq<char>, Seq<char>> {
    match behind(provider, "custom:"@) {
        Some(name) => if !custom.contains_key(name) {
            Err("custom provider not configured: "@ + name)
        } else if requested is Some {
            Ok(requested->0)
        } else if custom[name].models@.len() > 0 {
            Ok(custom[name].models@[0]@)
        } else {
            Err("custom provider has no verification model: "@ + name)
        },
        None => match requested {
            Some(model) => Ok(model),
            None => match spec_of(registry, provider) {
                Some(spec) => Ok(spec.default_model@),
                None => Err("unknown provider: "@ + provider),
            },
        },
    }
}

pub fn verification_model(
    mrm: &ModelResourceManager,
    provider: &str,
    requested: Option<&str>,
    registry: &Vec<ProviderSpec>,
) -> (r: Result<String, String>)
    ensures
        (match r {
            Ok(model) => Ok(model@),
            Err(e) => Err(e@),
        }) == probe_model(
            provider@,
            opt_str(requested),
            mrm.config.custom_providers@,
            registry@,
        ),
{
    match strip_prefix(provider, "custom:") {
        Some(name) => match mrm.custom_provider(name.as_str()) {
            None => Err(cat2("custom provider not configured: ", name.as_str())),
            Some(definition) => match requested {
                Some(model) => Ok(model.to_owned()),
                None => if definition.models.len() > 0 {
                    Ok(definition.models[0].clone())
                } else {
                    Err(cat2("custom provider has no verification model: ", name.as_str()))
                },
            },
        },
        None => match requested {
            Some(model) => Ok(model.to_owned()),
            None => match find(registry, provider) {
                Some(spec) => Ok(spec.default_model.clone()),
                None => Err(cat2("unknown provider: ", provider)),
            },
        },
    }
}

/// The claim that accounts for the probe was not written.
pub fn claim_failed(error: &str) -> (r: String)
    ensures
        r@ == "probe was not started because its durable usage claim failed: "@ + error@,
{
    cat2("probe was not started because its durable usage claim failed: ", error)
}

/// The mark that the probe starts was not written.
pub fn marker_failed(error: &str) -> (r: String)
    ensures
        r@ == "probe was not started because its durable Started marker failed: "@ + error@,
{
    cat2("probe was not started because its durable Started marker failed: ", error)
}

/// A probe that is over and whose usage is to be accounted for.
#[derive(Debug)]
pub struct Probe {
    pub started: bool,
    pub usage: Option<TokenUsage>,
    /// Why the provider is taken for dead, if it is.
    pub error: Option<String>,
}

#[verifier::ext_equal]
pub struct ProbeView {
    pub started: bool,
    pub usage: Option<TokenUsage>,
    pub error: Option<Seq<char>>,
}

impl View for Probe {
    type V = ProbeView;

    open spec fn view(&self) -> ProbeView {
        ProbeView { started: self.started, usage: self.usage, error: opt_view(self.error) }
    }
}

/// What is done with the usage record next.
#[derive(Debug, Clone, Copy, PartialEq, Eq, Structural)]
pub enum ProbeStep {
    /// Nothing was sent: the claim is dropped.
    Discard,
    /// The tokens are written, and the record is settled after that.
    Observe(TokenUsage),
    /// The record is settled with what it holds.
    Settle,
}

/// The error followed by a line, or that line alone.
pub open spec fn with_line(error: Option<Seq<char>>, alone: Seq<char>, line: Seq<char>) -> Seq<char> {
    match error {
        Some(e) => e + "\n"@ + line,
        None => alone,
    }
}

fn and_line(error: &Option<String>, alone: &str, line: &str) -> (r: String)
    ensures
        r@ == with_line(opt_view(*error), alone@, line@),
{
    match error {
        Some(e) => cat3(e.as_str(), "\n", line),
        None => alone.to_owned(),
    }
}

impl ProbeView {
    pub open spec fn step(self) -> ProbeStep {
        if !self.started {
            ProbeStep::Discard
        } else {
            match self.usage {
                Some(usage) => ProbeStep::Observe(usage),
                None => ProbeStep::Settle,
            }
        }
    }

    /// The failure to report once the claim of a call that was never sent is
    /// dropped: `Ok` holds a warning.
    pub open spec fn discarded(self, reply: Result<Option<Seq<char>>, Seq<char>>) -> Option<Seq<char>> {
        match reply {
            Ok(Some(warning)) => match self.error {
                Some(e) => Some(e + "\n"@ + warning),
                None => None,
            },
            Ok(None) => self.error,
            Err(metering) => Some(
                with_line(
                    self.error,
                    "probe usage claim cleanup failed: "@ + metering,
                    "probe usage claim cleanup failed: "@ + metering,
                ),
            ),
        }
    }

    /// The failure to report once the record is settled: `Ok` holds the reason
    /// why spending has to stop.
    pub open spec fn settled(self, reply: Result<Option<Seq<char>>, Seq<char>>) -> Option<Seq<char>> {
        match reply {
            Ok(Some(stop)) => Some(with_line(self.error, stop, stop)),
            Ok(None) => self.error,
            Err(metering) => Some(
                with_line(
                    self.error,
                    "probe completed but usage persistence failed: "@ + metering,
                    "probe usage persistence failed: "@ + metering,
                ),
            ),
        }
    }
}

pub open spec fn reply_view(reply: Result<Option<String>, String>) -> Result<Option<Seq<char>>, Seq<char>> {
    match reply {
        Ok(note) => Ok(opt_view(note)),
        Err(e) => Err(e@),
    }
}

/// The probe that a call came to: a provider that answered is alive, whatever
/// went wrong after that.
pub open spec fn probed(result: Result<ManagedOutput, ManagedError>, answered: bool) -> ProbeView {
    match result {
        Ok(output) => ProbeView { started: true, usage: output.usage, error: None },
        Err(e) => ProbeView {
            started: e.request_started,
            usage: e.usage,
            error: if answered {
                None
            } else {
                Some(e.message@)
            },
        },
    }
}

impl Probe {
    pub fn new(result: Result<ManagedOutput, ManagedError>, answered: bool) -> (r: Probe)
        ensures
            r@ == probed(result, answered),
    {
        match result {
            Ok(output) => Probe { started: true, usage: output.usage, error: None },
            Err(e) => {
                let error = if answered {
                    None
                } else {
                    Some(e.message)
                };
                Probe { started: e.request_started, usage: e.usage, error }
            },
        }
    }

    pub fn step(&self) -> (r: ProbeStep)
        ensures
            r == self@.step(),
    {
        if !self.started {
            ProbeStep::Discard
        } else {
            match self.usage {
                Some(usage) => ProbeStep::Observe(usage),
                None => ProbeStep::Settle,
            }
        }
    }

    pub fn on_discarded(&self, reply: Result<Option<String>, String>) -> (r: Option<String>)
        ensures
            opt_view(r) == self@.discarded(reply_view(reply)),
    {
        match reply {
            Ok(Some(warning)) => match &self.error {
                Some(e) => Some(cat3(e.as_str(), "\n", warning.as_str())),
                None => None,
            },
            Ok(None) => opt_clone(&self.error),
            Err(metering) => {
                let line = cat2("probe usage claim cleanup failed: ", metering.as_str());
                Some(and_line(&self.error, line.as_str(), line.as_str()))
            },
        }
    }

    /// The tokens could not be written: that is the failure, whatever the call
    /// itself came to.
    pub fn on_observe_failed(&self, error: &str) -> (r: String)
        ensures
            r@ == "probe usage checkpoint failed: "@ + error@,
    {
        cat2("probe usage checkpoint failed: ", error)
    }

    pub fn on_settled(&self, reply: Result<Option<String>, String>) -> (r: Option<String>)
        ensures
            opt_view(r) == self@.settled(reply_view(reply)),
    {
        match reply {
            Ok(Some(stop)) => Some(and_line(&self.error, stop.as_str(), stop.as_str())),
            Ok(None) => opt_clone(&self.error),
            Err(metering) => {
                let alone = cat2(
                    "probe completed but usage persistence failed: ",
                    metering.as_str(),
                );
                let line = cat2("probe usage persistence failed: ", metering.as_str());
                Some(and_line(&self.error, alone.as_str(), line.as_str()))
            },
        }
    }
}

/// What the probe says of the provider.
pub fn outcome(failure: Option<String>, latency_ms: u64) -> (r: VerifyOutcome)
    ensures
        r.ok == (failure is None),
        r.latency_ms == latency_ms,
        r.detail@ == (match failure {
            Some(e) => e@,
            None => "live ok"@,
        }),
{
    match failure {
        Some(detail) => VerifyOutcome { ok: false, latency_ms, detail },
        None => VerifyOutcome { ok: true, latency_ms, detail: "live ok".to_owned() },
    }
}

/// The first event of the answer decides. A provider whose first event is valid
/// is alive however the call ends, accounting aside; one whose call fails after
/// an error, or without any event, is dead for the reason of the call.
pub proof fn law_first_event_tells_the_living(
    c: CollectorView,
    first: Delta,
    result: Result<ManagedOutput, ManagedError>,
)
    requires
        !c.answered,
    ensures
        !(first is Error) ==> probed(result, collected(c, first).answered).settled(Ok(None)) is None,
        first is Error ==> (result matches Err(e) ==> probed(
            result,
            collected(c, first).answered,
        ).settled(Ok(None)) == Some(e.message@)),
        result matches Err(e) ==> probed(result, c.answered).settled(Ok(None)) == Some(e.message@),
{
}

/// A failed call stays failed whatever its accounting comes to, and a failed
/// settlement fails a call that went well.
pub proof fn law_failures_are_reported(probe: ProbeView, reply: Result<Option<Seq<char>>, Seq<char>>)
    ensures
        probe.error is Some ==> probe.settled(reply) is Some && probe.discarded(reply) is Some,
        reply is Err ==> probe.settled(reply) is Some && probe.discarded(reply) is Some,
        probe.error is None && reply == Ok::<Option<Seq<char>>, Seq<char>>(None)
            ==> probe.settled(reply) is None,
{
}

/// The credential that is tried out is the one that was given: a subscription with
/// both of its tokens and its end, and else a key with its region.
pub proof fn law_given_credential_is_tried(
    kind: Seq<char>,
    access: Seq<char>,
    refresh: Seq<char>,
    expires: u64,
    region: Option<Seq<char>>,
)
    ensures
        match candidate(kind, access, refresh, expires, region) {
            CredentialView::Oauth { access: a, refresh: r, expires: e, account_id } => {
                &&& kind == "oauth"@
                &&& a == access && r == refresh && e == expires && account_id is None
            },
            CredentialView::Api { key, region: place } => {
                &&& kind != "oauth"@
                &&& key == access && place == region
            },
        },
{
}

/// A model that is asked for is the one that is tried, except with a custom
/// provider that is not set up. Without one it is the provider's default, and of a
/// custom provider the first of its models.
pub proof fn law_requested_model_is_tried(
    provider: Seq<char>,
    name: Seq<char>,
    model: Seq<char>,
    custom: Map<Seq<char>, CustomProviderDef>,
    registry: Seq<ProviderSpec>,
)
    ensures
        !starts(provider, "custom:"@) ==> probe_model(provider, Some(model), custom, registry) == Ok::<
            Seq<char>,
            Seq<char>,
        >(model),
        !starts(provider, "custom:"@) ==> (spec_of(registry, provider) matches Some(spec) ==> probe_model(
            provider,
            None,
            custom,
            registry,
        ) == Ok::<Seq<char>, Seq<char>>(spec.default_model@)),
        !starts(provider, "custom:"@) && spec_of(registry, provider) is None ==> probe_model(
            provider,
            None,
            custom,
            registry,
        ) is Err,
        custom.contains_key(name) ==> probe_model("custom:"@ + name, Some(model), custom, registry) == Ok::<
            Seq<char>,
            Seq<char>,
        >(model),
        custom.contains_key(name) && custom[name].models@.len() > 0 ==> probe_model(
            "custom:"@ + name,
            None,
            custom,
            registry,
        ) == Ok::<Seq<char>, Seq<char>>(custom[name].models@.first()@),
        !custom.contains_key(name) ==> probe_model("custom:"@ + name, Some(model), custom, registry) is Err
            && probe_model("custom:"@ + name, None, custom, registry) is Err,
{
    let whole = "custom:"@ + name;
    assert(whole.subrange(0, "custom:"@.len() as int) =~= "custom:"@);
    assert(whole.subrange("custom:"@.len() as int, whole.len() as int) =~= name);
    assert(behind(whole, "custom:"@) == Some(name));
}

/// What a probe used is written down as the provider reported it. Only a probe that
/// was never sent gives its claim up.
pub proof fn law_probe_is_charged_as_reported(result: Result<ManagedOutput, ManagedError>, answered: bool)
    ensures
        ({
            let reported = match result {
                Ok(output) => output.usage,
                Err(e) => e.usage,
            };
            let sent = match result {
                Ok(_) => true,
                Err(e) => e.request_started,
            };
            let step = probed(result, answered).step();
            &&& step is Discard <==> !sent
            &&& sent ==> (reported matches Some(usage) ==> step == ProbeStep::Observe(usage))
            &&& sent && reported is None ==> step is Settle
        }),
{
}

/// What went wrong with the provider stands first in the report, and what went wrong
/// with the metering stands last.
pub proof fn law_both_failures_are_told(probe: ProbeView, reply: Result<Option<Seq<char>>, Seq<char>>)
    ensures
        ({
            let said = match reply {
                Ok(Some(note)) => Some(note),
                Ok(None) => None,
                Err(e) => Some(e),
            };
            &&& probe.error matches Some(e) ==> starts(probe.settled(reply)->0, e) && starts(
                probe.discarded(reply)->0,
                e,
            )
            &&& said matches Some(note) ==> probe.settled(reply) is Some && ends(
                probe.settled(reply)->0,
                note,
            )
            &&& probe.error is Some ==> (said matches Some(note) ==> ends(
                probe.discarded(reply)->0,
                note,
            ))
            &&& probe.error is None && reply is Ok ==> probe.discarded(reply) is None
            &&& reply matches Err(e) ==> ends(probe.discarded(reply)->0, e)
        }),
{
    let note = match reply {
        Ok(Some(note)) => note,
        Ok(None) => Seq::empty(),
        Err(e) => e,
    };
    if let Some(out) = probe.settled(reply) {
        if let Some(e) = probe.error {
            assert(out.subrange(0, e.len() as int) =~= e);
        }
        assert(out.subrange(out.len() - note.len(), out.len() as int) =~= note);
    }
    if let Some(out) = probe.discarded(reply) {
        if let Some(e) = probe.error {
            assert(out.subrange(0, e.len() as int) =~= e);
        }
        assert(out.subrange(out.len() - note.len(), out.len() as int) =~= note);
    }
}

} // verus!
