use vstd::prelude::*;

verus! {

/// What serde_json makes of `text`: the pretty-printed JSON value when `text` parses as
/// JSON, else the parse error's message.
pub uninterp spec fn json_pretty(text: Seq<char>) -> Result<Seq<char>, Seq<char>>;

/// Calls `std::str::from_utf8`, which std documents as returning the string slice over the
/// same bytes when they are valid UTF-8 and an error otherwise. The contract claims exactly
/// that, with vstd's definitions of valid UTF-8 and of the characters that it encodes.
#[verifier::external_body]
fn decode_utf8_bytes(bytes: &[u8]) -> (r: Option<&str>)
    ensures
        r is Some <==> vstd::utf8::valid_utf8(bytes@),
        r matches Some(s) ==> s@ == vstd::utf8::decode_utf8(bytes@),
{
    std::str::from_utf8(bytes).ok()
}

/// Calls `serde_json::from_str::<serde_json::Value>` on `text` and, when it parses,
/// `serde_json::to_string_pretty` on the value (the text itself should that fail, which it
/// does not for a `Value`); when it does not parse, the error's message. Both depend on the
/// text alone, so the contract names the outcome `json_pretty(text@)`.
#[verifier::external_body]
fn pretty_json(text: &str) -> (r: Result<String, String>)
    ensures
        json_pretty(text@) == match r {
            Ok(s) => Ok::<Seq<char>, Seq<char>>(s@),
            Err(e) => Err::<Seq<char>, Seq<char>>(e@),
        },
{
    match serde_json::from_str::<serde_json::Value>(text) {
        Ok(value) => match serde_json::to_string_pretty(&value) {
            Ok(pretty) => Ok(pretty),
            Err(_) => Ok(text.to_string()),
        },
        Err(e) => Err(e.to_string()),
    }
}

/// What the test client makes of a reply from the server.
pub enum ReplyReport {
    /// Nothing came back: the server closed the connection.
    Empty,
    /// The bytes are not valid UTF-8.
    NotUtf8,
    /// The text is not JSON; `error` says why.
    NotJson { text: String, error: String },
    /// The text is JSON, shown pretty-printed.
    Json { pretty: String },
}

/// Sorts the bytes of a reply: empty, not UTF-8, UTF-8 but not JSON (with the text and the
/// parse error), or JSON (pretty-printed).
pub fn classify_reply(received: &[u8]) -> (r: ReplyReport)
    ensures
        received@.len() == 0 ==> r is Empty,
        received@.len() > 0 && !vstd::utf8::valid_utf8(received@) ==> r is NotUtf8,
        received@.len() > 0 && vstd::utf8::valid_utf8(received@) ==> match json_pretty(vstd::utf8::decode_utf8(received@)) {
            Ok(p) => r matches ReplyReport::Json { pretty } && pretty@ == p,
            Err(e) => r matches ReplyReport::NotJson { text, error } && text@ == vstd::utf8::decode_utf8(received@)
                && error@ == e,
        },
{
    if received.len() == 0 {
        return ReplyReport::Empty;
    }
    match decode_utf8_bytes(received) {
        None => ReplyReport::NotUtf8,
        Some(text) => {
            match pretty_json(text) {
                Ok(pretty) => ReplyReport::Json { pretty },
                Err(error) => ReplyReport::NotJson { text: text.to_owned(), error },
            }
        },
    }
}

} // verus!
