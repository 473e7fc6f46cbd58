//! Gemini's code assistant: identities, endpoints and headers.

use crate::llm::gemini::wire::{body_of, build_request};
use crate::llm::types::{Message, ToolDefinition};
use crate::llm::wire::{add_header, header_views, HttpRequest};
use crate::text::{cat2, str_eq, trim_end_matches, trimmed_of};
use vstd::prelude::*;
use vstd::string::*;

pub mod discover;
pub mod sse;
pub mod wire;

verus! {

pub const DEFAULT_BASE: &'static str = "https://cloudcode-pa.googleapis.com";

pub const USER_AGENT: &'static str = "google-api-nodejs-client/9.15.1";

pub const API_CLIENT: &'static str = "gl-node/22.17.0";

pub const CLIENT_METADATA: &'static str =
    "{\"ideType\":\"IDE_UNSPECIFIED\",\"platform\":\"PLATFORM_UNSPECIFIED\",\"pluginType\":\"GEMINI\"}";

pub const ANTIGRAVITY_USER_AGENT: &'static str = "antigravity/1.15.8 darwin/arm64";

pub const ANTIGRAVITY_CLIENT_METADATA: &'static str =
    "{\"ideType\":\"ANTIGRAVITY\",\"platform\":\"PLATFORM_UNSPECIFIED\",\"pluginType\":\"GEMINI\"}";

/// The client that a request comes from: the protocol is the same, the headers
/// are not.
#[derive(Debug, Clone, Copy, PartialEq, Eq, Structural)]
pub enum Flavor {
    GeminiCli,
    Antigravity,
}

pub open spec fn flavor_of(provider: Seq<char>) -> Flavor {
    if provider == "google-antigravity"@ {
        Flavor::Antigravity
    } else {
        Flavor::GeminiCli
    }
}

impl Flavor {
    pub fn for_provider(provider: &str) -> (r: Flavor)
        ensures
            r == flavor_of(provider@),
    {
        if str_eq(provider, "google-antigravity") {
            Flavor::Antigravity
        } else {
            Flavor::GeminiCli
        }
    }

    pub open spec fn ide(self) -> Seq<char> {
        match self {
            Flavor::GeminiCli => "IDE_UNSPECIFIED"@,
            Flavor::Antigravity => "ANTIGRAVITY"@,
        }
    }

    pub fn ide_type(self) -> (r: &'static str)
        ensures
            r@ == self.ide(),
    {
        match self {
            Flavor::GeminiCli => "IDE_UNSPECIFIED",
            Flavor::Antigravity => "ANTIGRAVITY",
        }
    }
}

/// The headers of every request.
pub open spec fn headers_of(token: Seq<char>, flavor: Flavor) -> Seq<(Seq<char>, Seq<char>)> {
    let common = seq![("authorization"@, "Bearer "@ + token), ("accept"@, "text/event-stream"@)];
    match flavor {
        Flavor::GeminiCli => common.push(("user-agent"@, USER_AGENT@)).push(
            ("x-goog-api-client"@, API_CLIENT@),
        ).push(("client-metadata"@, CLIENT_METADATA@)),
        Flavor::Antigravity => common.push(("user-agent"@, ANTIGRAVITY_USER_AGENT@)).push(
            ("client-metadata"@, ANTIGRAVITY_CLIENT_METADATA@),
        ),
    }
}

pub fn gemini_headers(token: &str, flavor: Flavor) -> (r: Vec<(String, String)>)
    ensures
        header_views(r@) == headers_of(token@, flavor),
{
    let mut headers: Vec<(String, String)> = Vec::new();
    let bearer = cat2("Bearer ", token);
    add_header(&mut headers, "authorization", bearer.as_str());
    add_header(&mut headers, "accept", "text/event-stream");
    match flavor {
        Flavor::GeminiCli => {
            add_header(&mut headers, "user-agent", USER_AGENT);
            add_header(&mut headers, "x-goog-api-client", API_CLIENT);
            add_header(&mut headers, "client-metadata", CLIENT_METADATA);
        },
        Flavor::Antigravity => {
            add_header(&mut headers, "user-agent", ANTIGRAVITY_USER_AGENT);
            add_header(&mut headers, "client-metadata", ANTIGRAVITY_CLIENT_METADATA);
        },
    }
    assert(header_views(headers@) =~= headers_of(token@, flavor));
    headers
}

/// The code assistant of one project; `base` has no slash at its end.
#[derive(Debug)]
pub struct GeminiProvider {
    pub base: String,
    pub bearer: String,
    pub project: String,
    pub flavor: Flavor,
}

impl GeminiProvider {
    pub fn new(base: String, bearer: String, project: String) -> (r: GeminiProvider)
        ensures
            r.base@ == trimmed_of(base@, '/'),
            r.bearer == bearer,
            r.project == project,
            r.flavor == Flavor::GeminiCli,
    {
        GeminiProvider {
            base: trim_end_matches(base.as_str(), '/'),
            bearer,
            project,
            flavor: Flavor::GeminiCli,
        }
    }

    pub fn with_flavor(self, flavor: Flavor) -> (r: GeminiProvider)
        ensures
            r == (GeminiProvider { flavor, ..self }),
    {
        GeminiProvider { base: self.base, bearer: self.bearer, project: self.project, flavor }
    }

    /// The request that streams an answer. It carries a random identifier.
    pub fn request(&self, model: &str, messages: &Vec<Message>, tools: &Vec<ToolDefinition>) -> (r:
        HttpRequest)
        ensures
            r@.url == self.base@ + "/v1internal:streamGenerateContent?alt=sse"@,
            r@.headers == headers_of(self.bearer@, self.flavor),
            exists|id: Seq<char>|
                id.len() == 36 && r@.body == #[trigger] body_of(
                    model@,
                    self.project@,
                    id,
                    messages@,
                    tools@,
                ),
    {
        let body = build_request(model, self.project.as_str(), messages, tools);
        HttpRequest {
            url: cat2(self.base.as_str(), "/v1internal:streamGenerateContent?alt=sse"),
            headers: gemini_headers(self.bearer.as_str(), self.flavor),
            body,
        }
    }
}

/// The requests carry the token as a bearer, and name the client of the flavour.
pub proof fn law_headers_carry_the_credential(token: Seq<char>, flavor: Flavor)
    ensures
        headers_of(token, flavor).contains(("authorization"@, "Bearer "@ + token)),
        headers_of(token, flavor).contains(("accept"@, "text/event-stream"@)),
        flavor == Flavor::GeminiCli ==> headers_of(token, flavor).contains(
            ("user-agent"@, "google-api-nodejs-client/9.15.1"@),
        ) && headers_of(token, flavor).contains(("x-goog-api-client"@, "gl-node/22.17.0"@)),
        flavor == Flavor::Antigravity ==> headers_of(token, flavor).contains(
            ("user-agent"@, "antigravity/1.15.8 darwin/arm64"@),
        ),
{
    let headers = headers_of(token, flavor);
    assert(headers[0] == ("authorization"@, "Bearer "@ + token));
    assert(headers[1] == ("accept"@, "text/event-stream"@));
    assert(headers[2].0 == "user-agent"@);
    if flavor == Flavor::GeminiCli {
        assert(headers[3].0 == "x-goog-api-client"@);
    }
}

/// Only the one provider is of the other flavour, and each flavour names its own
/// development environment.
pub proof fn law_flavor_follows_the_provider(provider: Seq<char>)
    ensures
        flavor_of(provider) == Flavor::Antigravity <==> provider == "google-antigravity"@,
        flavor_of(provider).ide() == "ANTIGRAVITY"@ <==> provider == "google-antigravity"@,
        flavor_of(provider).ide() == "IDE_UNSPECIFIED"@ <==> provider != "google-antigravity"@,
{
    reveal_strlit("ANTIGRAVITY");
    reveal_strlit("IDE_UNSPECIFIED");
    assert("ANTIGRAVITY"@.len() == 11 && "IDE_UNSPECIFIED"@.len() == 15);
}

} // verus!
