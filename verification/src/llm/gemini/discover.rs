//! The project of an account: asked for once, and taken out where there is none.

use crate::ident::{short_digest, text_digest};
use crate::json::{law_field_is_found, Json, JsonView};
use crate::llm::gemini::{gemini_headers, headers_of, Flavor};
use crate::llm::wire::{HttpRequest, HttpView};
use crate::table::Table;
use crate::text::{cat2, cat3, opt_view, trim_end_matches, trimmed_of};
use vstd::prelude::*;

verus! {

/// How often a pending operation is asked for before giving up.
pub const POLL_ATTEMPTS: u32 = 12;

/// The pause before each time, in milliseconds.
pub const POLL_INTERVAL_MS: u64 = 5000;

/// The key under which a token's project is kept: it does not hold the token.
pub open spec fn key_of(token: Seq<char>) -> Seq<char> {
    short_digest(token, 8)
}

pub fn cache_key(token: &str) -> (r: String)
    ensures
        r@ == key_of(token@),
        r@.len() == 16,
{
    text_digest(token, 8)
}

/// The projects that are known, by the keys of their tokens.
pub struct ProjectCache {
    pub projects: Table<String>,
}

impl View for ProjectCache {
    type V = Map<Seq<char>, Seq<char>>;

    open spec fn view(&self) -> Map<Seq<char>, Seq<char>> {
        self.projects@.map_values(|p: String| p@)
    }
}

/// The project of a token in a cache.
pub open spec fn cached(cache: Map<Seq<char>, Seq<char>>, token: Seq<char>) -> Option<Seq<char>> {
    if cache.contains_key(key_of(token)) {
        Some(cache[key_of(token)])
    } else {
        None
    }
}

impl ProjectCache {
    pub fn new() -> (r: ProjectCache)
        ensures
            r@ == Map::<Seq<char>, Seq<char>>::empty(),
    {
        let r = ProjectCache { projects: Table::new() };
        assert(r@ =~= Map::<Seq<char>, Seq<char>>::empty());
        r
    }

    pub fn get(&self, token: &str) -> (r: Option<String>)
        ensures
            opt_view(r) == cached(self@, token@),
    {
        let key = cache_key(token);
        match self.projects.get(key.as_str()) {
            Some(project) => Some(project.clone()),
            None => None,
        }
    }

    pub fn put(&mut self, token: &str, project: &str)
        ensures
            final(self)@ == old(self)@.insert(key_of(token@), project@),
    {
        let key = cache_key(token);
        self.projects.insert(key.as_str(), project.to_owned());
        assert(self@ =~= old(self)@.insert(key_of(token@), project@));
    }
}

/// A project that was found is found again without asking.
pub proof fn law_project_is_remembered(cache: Map<Seq<char>, Seq<char>>, token: Seq<char>, project: Seq<char>)
    ensures
        cached(cache.insert(key_of(token), project), token) == Some(project),
{
}

/// The identifier of a project: a text, or the `id` of an object.
pub open spec fn project_of(value: JsonView) -> Option<Seq<char>> {
    match value.text() {
        Some(id) => Some(id),
        None => value.text_under("id"@),
    }
}

pub fn project_id_of(value: &Json) -> (r: Option<String>)
    ensures
        opt_view(r) == project_of(value@),
{
    match value.as_str() {
        Some(id) => Some(id.clone()),
        None => match value.text_at("id") {
            Some(id) => Some(id.clone()),
            None => None,
        },
    }
}

#[derive(Debug)]
pub struct AllowedTier {
    pub id: Option<String>,
    pub is_default: bool,
}

/// What is known of the account.
#[derive(Debug)]
pub struct LoadResponse {
    pub project: Option<Json>,
    pub has_tier: bool,
    pub allowed_tiers: Vec<AllowedTier>,
}

/// A long operation.
#[derive(Debug)]
pub struct Lro {
    pub name: Option<String>,
    pub done: bool,
    pub response: Option<Json>,
}

/// What comes after the account is known.
#[derive(Debug)]
pub enum Loaded {
    Project(String),
    /// A new account: it takes out a project of this tier.
    Onboard(String),
    Failed(String),
}

pub enum LoadedView {
    Project(Seq<char>),
    Onboard(Seq<char>),
    Failed(Seq<char>),
}

impl View for Loaded {
    type V = LoadedView;

    open spec fn view(&self) -> LoadedView {
        match *self {
            Loaded::Project(id) => LoadedView::Project(id@),
            Loaded::Onboard(tier) => LoadedView::Onboard(tier@),
            Loaded::Failed(error) => LoadedView::Failed(error@),
        }
    }
}

/// The first tier that is the default one.
pub open spec fn default_tier(tiers: Seq<AllowedTier>) -> Option<AllowedTier>
    decreases tiers.len(),
{
    if tiers.len() == 0 {
        None
    } else if tiers[0].is_default {
        Some(tiers[0])
    } else {
        default_tier(tiers.subrange(1, tiers.len() as int))
    }
}

pub open spec fn default_tier_id(tiers: Seq<AllowedTier>) -> Option<Seq<char>> {
    match default_tier(tiers) {
        Some(tier) => opt_view(tier.id),
        None => None,
    }
}

/// The project, where the account has one; a tier to start with, where it is
/// new; else an error.
pub open spec fn loaded(body: LoadResponse) -> LoadedView {
    let project = match body.project {
        Some(value) => project_of(value@),
        None => None,
    };
    match project {
        Some(id) => LoadedView::Project(id),
        None => match default_tier_id(body.allowed_tiers@) {
            Some(tier) if !body.has_tier => LoadedView::Onboard(tier),
            _ => LoadedView::Failed("gemini loadCodeAssist returned no project id"@),
        },
    }
}

fn find_default_tier(tiers: &Vec<AllowedTier>) -> (r: Option<String>)
    ensures
        opt_view(r) == default_tier_id(tiers@),
{
    let mut i: usize = 0;
    assert(tiers@.subrange(0, tiers@.len() as int) =~= tiers@);
    while i < tiers.len()
        invariant
            i <= tiers@.len(),
            default_tier(tiers@) == default_tier(tiers@.subrange(i as int, tiers@.len() as int)),
        decreases tiers@.len() - i,
    {
        let ghost rest = tiers@.subrange(i as int, tiers@.len() as int);
        assert(rest[0] == tiers@[i as int]);
        if tiers[i].is_default {
            return crate::text::opt_clone(&tiers[i].id);
        }
        assert(rest.subrange(1, rest.len() as int) =~= tiers@.subrange(
            i + 1,
            tiers@.len() as int,
        ));
        i = i + 1;
    }
    None
}

pub fn on_loaded(body: &LoadResponse) -> (r: Loaded)
    ensures
        r@ == loaded(*body),
{
    if let Some(value) = &body.project {
        if let Some(id) = project_id_of(value) {
            return Loaded::Project(id);
        }
    }
    match find_default_tier(&body.allowed_tiers) {
        Some(tier) if !body.has_tier => Loaded::Onboard(tier),
        _ => Loaded::Failed("gemini loadCodeAssist returned no project id".to_owned()),
    }
}

/// What comes after an answer on a long operation.
#[derive(Debug)]
pub enum Polled {
    Project(String),
    Failed(String),
    /// After a pause the operation of this name is asked for again.
    Again(String),
    /// After a pause there is nothing to ask for.
    Lost(String),
}

pub enum PolledView {
    Project(Seq<char>),
    Failed(Seq<char>),
    Again(Seq<char>),
    Lost(Seq<char>),
}

impl View for Polled {
    type V = PolledView;

    open spec fn view(&self) -> PolledView {
        match *self {
            Polled::Project(id) => PolledView::Project(id@),
            Polled::Failed(error) => PolledView::Failed(error@),
            Polled::Again(name) => PolledView::Again(name@),
            Polled::Lost(error) => PolledView::Lost(error@),
        }
    }
}

/// What comes after the answer `lro`, when it was asked for `polls` times.
pub open spec fn polled(lro: Lro, polls: u32) -> PolledView {
    if lro.done {
        let project = match lro.response {
            Some(response) => match response@.get("cloudaicompanionProject"@) {
                Some(value) => project_of(value),
                None => None,
            },
            None => None,
        };
        match project {
            Some(id) => PolledView::Project(id),
            None => PolledView::Failed("gemini onboardUser finished without project id"@),
        }
    } else if polls >= POLL_ATTEMPTS {
        PolledView::Failed("gemini onboardUser did not finish after polling"@)
    } else {
        match lro.name {
            Some(name) => PolledView::Again(name@),
            None => PolledView::Lost("gemini onboardUser LRO missing operation name"@),
        }
    }
}

pub fn on_polled(lro: &Lro, polls: u32) -> (r: Polled)
    ensures
        r@ == polled(*lro, polls),
{
    if lro.done {
        if let Some(response) = &lro.response {
            if let Some(value) = response.get("cloudaicompanionProject") {
                if let Some(id) = project_id_of(value) {
                    return Polled::Project(id);
                }
            }
        }
        return Polled::Failed("gemini onboardUser finished without project id".to_owned());
    }
    if polls >= POLL_ATTEMPTS {
        return Polled::Failed("gemini onboardUser did not finish after polling".to_owned());
    }
    match &lro.name {
        Some(name) => Polled::Again(name.clone()),
        None => Polled::Lost("gemini onboardUser LRO missing operation name".to_owned()),
    }
}

/// A pending operation is asked for at most twelve times.
pub proof fn law_polling_ends(lro: Lro, polls: u32)
    requires
        polled(lro, polls) is Again,
    ensures
        polls < POLL_ATTEMPTS,
        !lro.done,
{
}

pub open spec fn metadata_of(flavor: Flavor) -> JsonView {
    JsonView::object()
        .with_str("ideType"@, flavor.ide())
        .with_str("platform"@, "PLATFORM_UNSPECIFIED"@)
        .with_str("pluginType"@, "GEMINI"@)
}

pub fn client_metadata(flavor: Flavor) -> (r: Json)
    ensures
        r@ == metadata_of(flavor),
{
    Json::object().with_str("ideType", flavor.ide_type()).with_str(
        "platform",
        "PLATFORM_UNSPECIFIED",
    ).with_str("pluginType", "GEMINI")
}

/// The request that asks what is known of an account.
pub fn load_request(base: &str, token: &str, flavor: Flavor) -> (r: HttpRequest)
    ensures
        r@ == (HttpView {
            url: trimmed_of(base@, '/') + "/v1internal:loadCodeAssist"@,
            headers: headers_of(token@, flavor),
            body: JsonView::object().with("metadata"@, metadata_of(flavor)),
        }),
{
    let base = trim_end_matches(base, '/');
    HttpRequest {
        url: cat2(base.as_str(), "/v1internal:loadCodeAssist"),
        headers: gemini_headers(token, flavor),
        body: Json::object().with("metadata", client_metadata(flavor)),
    }
}

/// The request that takes out a project of a tier.
pub fn onboard_request(base: &str, token: &str, flavor: Flavor, tier: &str) -> (r: HttpRequest)
    ensures
        r@ == (HttpView {
            url: trimmed_of(base@, '/') + "/v1internal:onboardUser"@,
            headers: headers_of(token@, flavor),
            body: JsonView::object().with_str("tierId"@, tier@).with(
                "metadata"@,
                metadata_of(flavor),
            ),
        }),
{
    let base = trim_end_matches(base, '/');
    HttpRequest {
        url: cat2(base.as_str(), "/v1internal:onboardUser"),
        headers: gemini_headers(token, flavor),
        body: Json::object().with_str("tierId", tier).with("metadata", client_metadata(flavor)),
    }
}

/// The address of a long operation.
pub fn poll_url(base: &str, name: &str) -> (r: String)
    ensures
        r@ == trimmed_of(base@, '/') + "/v1internal/"@ + name@,
{
    let base = trim_end_matches(base, '/');
    cat3(base.as_str(), "/v1internal/", name)
}

/// The default tier is the first that is marked as the default, whichever come
/// before it.
pub proof fn law_default_tier_is_the_marked_one(tiers: Seq<AllowedTier>)
    ensures
        match default_tier(tiers) {
            Some(tier) => exists|i: int|
                0 <= i < tiers.len() && #[trigger] tiers[i] == tier && tier.is_default && forall|j: int|
                    0 <= j < i ==> !(#[trigger] tiers[j]).is_default,
            None => forall|j: int| 0 <= j < tiers.len() ==> !(#[trigger] tiers[j]).is_default,
        },
    decreases tiers.len(),
{
    if tiers.len() > 0 && !tiers[0].is_default {
        let rest = tiers.subrange(1, tiers.len() as int);
        law_default_tier_is_the_marked_one(rest);
        match default_tier(rest) {
            Some(tier) => {
                let i = choose|i: int|
                    0 <= i < rest.len() && #[trigger] rest[i] == tier && tier.is_default && forall|j: int|
                        0 <= j < i ==> !(#[trigger] rest[j]).is_default;
                assert(tiers[i + 1] == tier);
                assert forall|j: int| 0 <= j < i + 1 implies !(#[trigger] tiers[j]).is_default by {
                    if j > 0 {
                        assert(rest[j - 1] == tiers[j]);
                    }
                }
            },
            None => {
                assert forall|j: int| 0 <= j < tiers.len() implies !(
                #[trigger] tiers[j]).is_default by {
                    if j > 0 {
                        assert(rest[j - 1] == tiers[j]);
                    }
                }
            },
        }
    } else if tiers.len() > 0 {
        assert(tiers[0] == default_tier(tiers)->0);
    }
}

/// A project is named by a text, or by the `id` of an object.
pub proof fn law_project_is_named(id: Seq<char>, value: JsonView)
    ensures
        project_of(JsonView::Str(id)) == Some(id),
        !(value is Str) ==> project_of(value) == value.text_under("id"@),
{
}

/// An account that has a project keeps it. Only one without a project and without a
/// tier is signed up, for the default tier.
pub proof fn law_only_new_accounts_are_signed_up(body: LoadResponse)
    ensures
        match loaded(body) {
            LoadedView::Project(id) => body.project matches Some(value) && project_of(value@) == Some(
                id,
            ),
            LoadedView::Onboard(tier) => {
                &&& body.project matches Some(value) ==> project_of(value@) is None
                &&& !body.has_tier
                &&& default_tier_id(body.allowed_tiers@) == Some(tier)
            },
            LoadedView::Failed(_) => {
                &&& body.project matches Some(value) ==> project_of(value@) is None
                &&& body.has_tier || default_tier_id(body.allowed_tiers@) is None
            },
        },
{
}

/// A sign-up that is done gives the project of its response; one that is not done is
/// asked for again under its own name, as long as polls are left.
pub proof fn law_sign_up_gives_its_project(lro: Lro, polls: u32)
    ensures
        match polled(lro, polls) {
            PolledView::Project(id) => lro.done && (lro.response matches Some(response) && (
            response@.get("cloudaicompanionProject"@) matches Some(value) && project_of(value) == Some(
                id,
            ))),
            PolledView::Again(name) => !lro.done && polls < 12 && opt_view(lro.name) == Some(name),
            PolledView::Lost(_) => !lro.done && polls < 12 && lro.name is None,
            PolledView::Failed(_) => {
                ||| !lro.done && polls >= 12
                ||| lro.done && (lro.response matches Some(response) ==> (response@.get(
                    "cloudaicompanionProject"@,
                ) matches Some(value) ==> project_of(value) is None))
            },
        },
{
}

/// The client describes itself by its flavour's environment.
pub proof fn law_client_describes_itself(flavor: Flavor)
    ensures
        metadata_of(flavor).text_under("ideType"@) == Some(flavor.ide()),
        metadata_of(flavor).text_under("platform"@) == Some("PLATFORM_UNSPECIFIED"@),
        metadata_of(flavor).text_under("pluginType"@) == Some("GEMINI"@),
{
    broadcast use law_field_is_found;

    reveal_strlit("ideType");
    reveal_strlit("platform");
    reveal_strlit("pluginType");
    assert("ideType"@.len() == 7 && "platform"@.len() == 8 && "pluginType"@.len() == 10);
    let none = JsonView::object();
    assert forall|key: Seq<char>| #[trigger] none.get(key) is None by {}
    let v1 = none.with_str("ideType"@, flavor.ide());
    let v2 = v1.with_str("platform"@, "PLATFORM_UNSPECIFIED"@);
    assert(none is Obj && v1 is Obj && v2 is Obj);
}

} // verus!
