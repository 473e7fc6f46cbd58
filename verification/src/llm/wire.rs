//! Requests to a provider as plain values: an address, headers and a body.

use crate::json::{list_view, push_json, Json, JsonView};
use crate::text::cat3;
use vstd::prelude::*;

verus! {

/// A request that is ready to be sent; the body goes out as JSON.
#[derive(Debug)]
pub struct HttpRequest {
    pub url: String,
    pub headers: Vec<(String, String)>,
    pub body: Json,
}

#[verifier::ext_equal]
pub struct HttpView {
    pub url: Seq<char>,
    pub headers: Seq<(Seq<char>, Seq<char>)>,
    pub body: JsonView,
}

pub open spec fn header_views(headers: Seq<(String, String)>) -> Seq<(Seq<char>, Seq<char>)> {
    headers.map_values(|h: (String, String)| (h.0@, h.1@))
}

impl View for HttpRequest {
    type V = HttpView;

    open spec fn view(&self) -> HttpView {
        HttpView {
            url: self.url@,
            headers: header_views(self.headers@),
            body: self.body@,
        }
    }
}

pub fn add_header(headers: &mut Vec<(String, String)>, name: &str, value: &str)
    ensures
        header_views(final(headers)@) == header_views(old(headers)@).push((name@, value@)),
{
    let ghost before = headers@;
    headers.push((name.to_owned(), value.to_owned()));
    assert(header_views(headers@) =~= header_views(before).push((name@, value@)));
}

/// A request that got no answer; `error` has the secrets taken out.
pub fn request_failed(label: &str, error: &str) -> (r: String)
    ensures
        r@ == label@ + " request failed: "@ + error@,
{
    cat3(label, " request failed: ", error)
}

/// A block of text.
pub open spec fn text_block(kind: Seq<char>, text: Seq<char>) -> JsonView {
    JsonView::object().with_str("type"@, kind).with_str("text"@, text)
}

pub fn text_json(kind: &str, text: &str) -> (r: Json)
    ensures
        r@ == text_block(kind@, text@),
{
    Json::object().with_str("type", kind).with_str("text", text)
}

/// `blocks`, and a block with the text behind them where there is any.
pub open spec fn with_text(blocks: Seq<JsonView>, kind: Seq<char>, text: Seq<char>) -> Seq<JsonView> {
    if text.len() == 0 {
        blocks
    } else {
        blocks.push(text_block(kind, text))
    }
}

pub fn push_text(blocks: &mut Vec<Json>, kind: &str, text: &str)
    ensures
        list_view(final(blocks)@) == with_text(list_view(old(blocks)@), kind@, text@),
{
    if !text.is_empty() {
        push_json(blocks, text_json(kind, text));
    }
}

} // verus!
