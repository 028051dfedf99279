//! The JSON body of a text message sent to the chat service.
use vstd::prelude::*;

verus! {

/// What `rustc_serialize` writes for a JSON string holding `s`: the characters
/// in double quotes, with quotes, backslashes and control characters escaped.
pub uninterp spec fn json_quoted(s: Seq<char>) -> Seq<char>;

/// Relies on `rustc_serialize::json::Json::String(..).to_string()`: encodes one
/// string as a JSON string literal.
#[verifier::external_body]
fn quote_json(s: &str) -> (r: String)
    ensures
        r@ == json_quoted(s@),
{
    rustc_serialize::json::Json::String(s.to_owned()).to_string()
}

/// `{"body":<quoted>,"msgtype":"m.text"}`, members in the order in which the
/// encoder writes an object (sorted by key).
pub open spec fn body_text(quoted: Seq<char>) -> Seq<char> {
    "{\"body\":"@ + quoted + ",\"msgtype\":\"m.text\"}"@
}

/// The message body around an already quoted text.
pub fn body_from_quoted(quoted: &String) -> (r: String)
    ensures
        r@ == body_text(quoted@),
{
    let head = String::from_str("{\"body\":");
    let s = head.concat(quoted.as_str());
    s.concat(",\"msgtype\":\"m.text\"}")
}

/// The JSON body of a text message with `text`.
pub fn message_body(text: &str) -> (r: String)
    ensures
        r@ == body_text(json_quoted(text@)),
{
    let q = quote_json(text);
    body_from_quoted(&q)
}

} // verus!
