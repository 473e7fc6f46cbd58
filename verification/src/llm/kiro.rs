//! Kiro: requests and the binary event stream of its answers.

use crate::auth::{credential_for, credential_in, AuthStore};
use crate::llm::kiro::wire::{body_of, build_request};
use crate::llm::types::{Message, ModelRef, ToolDefinition};
use crate::llm::wire::{add_header, header_views, HttpRequest};
use crate::text::{cat2, opt_view, trim_end_matches, trimmed_of};
use vstd::prelude::*;
use vstd::string::*;

pub mod eventstream;
pub mod stream;
pub mod wire;

verus! {

pub const DEFAULT_BASE: &'static str = "https://codewhisperer.us-east-1.amazonaws.com";

pub const AMZ_TARGET: &'static str =
    "AmazonCodeWhispererStreamingService.GenerateAssistantResponse";

/// An endpoint; `base` has no slash at its end.
#[derive(Debug)]
pub struct KiroProvider {
    pub base: String,
    pub bearer: String,
}

pub open spec fn headers_of(bearer: Seq<char>) -> Seq<(Seq<char>, Seq<char>)> {
    seq![
        ("authorization"@, "Bearer "@ + bearer),
        ("x-amz-target"@, AMZ_TARGET@),
        ("content-type"@, "application/json"@),
        ("accept"@, "application/vnd.amazon.eventstream"@),
    ]
}

impl KiroProvider {
    pub fn new(bearer: String) -> (r: KiroProvider)
        ensures
            r.base@ == trimmed_of(DEFAULT_BASE@, '/'),
            r.bearer == bearer,
    {
        KiroProvider::with_base(DEFAULT_BASE.to_owned(), bearer)
    }

    pub fn with_base(base: String, bearer: String) -> (r: KiroProvider)
        ensures
            r.base@ == trimmed_of(base@, '/'),
            r.bearer == bearer,
    {
        KiroProvider { base: trim_end_matches(base.as_str(), '/'), bearer }
    }

    /// The request that streams an answer. It carries a random identifier.
    pub fn request(&self, model: &str, messages: &Vec<Message>, tools: &Vec<ToolDefinition>) -> (r:
        HttpRequest)
        ensures
            r@.url == self.base@ + "/generateAssistantResponse"@,
            r@.headers == headers_of(self.bearer@),
            exists|id: Seq<char>|
                id.len() == 36 && r@.body == #[trigger] body_of(model@, id, messages@, tools@),
    {
        let mut headers: Vec<(String, String)> = Vec::new();
        let token = cat2("Bearer ", self.bearer.as_str());
        add_header(&mut headers, "authorization", token.as_str());
        add_header(&mut headers, "x-amz-target", AMZ_TARGET);
        add_header(&mut headers, "content-type", "application/json");
        add_header(&mut headers, "accept", "application/vnd.amazon.eventstream");
        assert(header_views(headers@) =~= headers_of(self.bearer@));
        HttpRequest {
            url: cat2(self.base.as_str(), "/generateAssistantResponse"),
            headers,
            body: build_request(model, messages, tools),
        }
    }
}

/// The provider for a model's account, or the error to answer with.
pub fn dispatch(model: &ModelRef, store: &AuthStore) -> (r: Result<KiroProvider, String>)
    ensures
        match credential_in(store@, "kiro"@, opt_view(model.account)) {
            None => r matches Err(e) && e@ == "kiro credential missing (run doctor)"@,
            Some(credential) => r matches Ok(p) && p.bearer@ == credential.token() && p.base@
                == trimmed_of(DEFAULT_BASE@, '/'),
        },
{
    match credential_for(store, "kiro", &model.account) {
        None => Err("kiro credential missing (run doctor)".to_owned()),
        Some(credential) => Ok(KiroProvider::new(credential.bearer().to_owned())),
    }
}

/// The requests carry the token as a bearer, and name the operation that they call.
pub proof fn law_headers_carry_the_credential(bearer: Seq<char>)
    ensures
        headers_of(bearer).contains(("authorization"@, "Bearer "@ + bearer)),
        headers_of(bearer).contains(
            (
                "x-amz-target"@,
                "AmazonCodeWhispererStreamingService.GenerateAssistantResponse"@,
            ),
        ),
        headers_of(bearer).contains(("content-type"@, "application/json"@)),
        headers_of(bearer).contains(("accept"@, "application/vnd.amazon.eventstream"@)),
{
    let headers = headers_of(bearer);
    assert(headers[0] == ("authorization"@, "Bearer "@ + bearer));
    assert(headers[1].0 == "x-amz-target"@);
    assert(headers[2].0 == "content-type"@);
    assert(headers[3].0 == "accept"@);
}

} // verus!
