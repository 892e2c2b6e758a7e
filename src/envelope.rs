//! The envelope that carries one execution message through the stream:
//! a JSON array `[userId, streamId, message]`, base64-encoded inside a
//! delivered record.
use vstd::prelude::*;
use crate::event::OrderEvent;
use crate::fill::Fill;
use crate::store::EnvelopeError;

verus! {

/// The bytes that standard base64 decoding yields for `s`, or `None` when `s` is not valid base64.
pub uninterp spec fn base64_decoded(s: Seq<char>) -> Option<Seq<u8>>;

/// The text that `b` encodes as UTF-8, or `None` when it is not valid UTF-8.
pub uninterp spec fn utf8_decoded(b: Seq<u8>) -> Option<Seq<char>>;

/// The three strings of the JSON array `s`, or `None` when `s` is not a JSON array of exactly three strings.
pub uninterp spec fn json_string_triple(s: Seq<char>) -> Option<(Seq<char>, Seq<char>, Seq<char>)>;

/// The JSON text of the array `[a, b, c]` of three strings.
pub uninterp spec fn json_of_triple(a: Seq<char>, b: Seq<char>, c: Seq<char>) -> Seq<char>;

/// Relies on `base64::decode` (standard alphabet, padded): the decoded bytes, or an error.
#[verifier::external_body]
fn decode_base64(s: &str) -> (r: Option<Vec<u8>>)
    ensures
        match r {
            Some(v) => base64_decoded(s@) == Some(v@),
            None => base64_decoded(s@).is_none(),
        },
{
    base64::decode(s).ok()
}

/// Relies on `String::from_utf8`: the text when the bytes are valid UTF-8, else an error.
#[verifier::external_body]
fn utf8_text(b: Vec<u8>) -> (r: Option<String>)
    ensures
        match r {
            Some(t) => utf8_decoded(b@) == Some(t@),
            None => utf8_decoded(b@).is_none(),
        },
{
    String::from_utf8(b).ok()
}

/// Relies on `serde_json::from_str` into `(String, String, String)`: succeeds
/// exactly on a JSON array of three strings.
#[verifier::external_body]
fn parse_triple(s: &str) -> (r: Option<(String, String, String)>)
    ensures
        match r {
            Some(t) => json_string_triple(s@) == Some((t.0@, t.1@, t.2@)),
            None => json_string_triple(s@).is_none(),
        },
{
    serde_json::from_str::<(String, String, String)>(s).ok()
}

/// Relies on `serde_json::to_string` of a `(&String, &String, &String)`: it
/// writes into a `Vec` and fails only when a `Serialize` impl fails or a map
/// key is not a string, neither of which a tuple of strings can cause.
#[verifier::external_body]
fn triple_json(a: &String, b: &String, c: &String) -> (r: Option<String>)
    ensures
        r is Some,
        r->Some_0@ == json_of_triple(a@, b@, c@),
{
    serde_json::to_string(&(a, b, c)).ok()
}

/// A decoded envelope: who sent the message, on which stream, and the
/// exchange-native execution message itself.
pub struct Envelope {
    pub user_id: String,
    pub stream_id: String,
    pub message: String,
}

/// The envelope for the triple that JSON decoding gave, or why there is none.
pub fn envelope_from_triple(t: Option<(String, String, String)>) -> (r: Result<Envelope, EnvelopeError>)
    ensures
        match t {
            Some(t) => r matches Ok(e) && e.user_id == t.0 && e.stream_id == t.1 && e.message == t.2,
            None => r == Err::<Envelope, EnvelopeError>(EnvelopeError::Json),
        },
{
    match t {
        Some((user_id, stream_id, message)) => Ok(Envelope { user_id, stream_id, message }),
        None => Err(EnvelopeError::Json),
    }
}

/// Decodes a delivered record's payload: base64, then UTF-8, then a JSON array
/// of three strings. Each stage that fails gives its own error.
pub fn decode_payload(payload: &str) -> (r: Result<Envelope, EnvelopeError>)
    ensures
        match base64_decoded(payload@) {
            None => r == Err::<Envelope, EnvelopeError>(EnvelopeError::Base64),
            Some(bytes) => match utf8_decoded(bytes) {
                None => r == Err::<Envelope, EnvelopeError>(EnvelopeError::Utf8),
                Some(text) => match json_string_triple(text) {
                    None => r == Err::<Envelope, EnvelopeError>(EnvelopeError::Json),
                    Some(t) => r matches Ok(e) && e.user_id@ == t.0 && e.stream_id@ == t.1
                        && e.message@ == t.2,
                },
            },
        },
{
    let bytes = match decode_base64(payload) {
        Some(b) => b,
        None => return Err(EnvelopeError::Base64),
    };
    let text = match utf8_text(bytes) {
        Some(t) => t,
        None => return Err(EnvelopeError::Utf8),
    };
    envelope_from_triple(parse_triple(text.as_str()))
}

/// The JSON text forwarded to the stream for a message from `user_id` on `stream_id`.
pub fn encode_envelope(user_id: &String, stream_id: &String, message: &String) -> (r: Option<String>)
    ensures
        r is Some,
        r->Some_0@ == json_of_triple(user_id@, stream_id@, message@),
{
    triple_json(user_id, stream_id, message)
}

/// The event that a decoded envelope and its parsed fills make; a message
/// without any fill is malformed.
pub fn event_from_envelope(env: Envelope, fills: Vec<Fill>) -> (r: Result<OrderEvent, EnvelopeError>)
    ensures
        fills@.len() == 0 ==> r == Err::<OrderEvent, EnvelopeError>(EnvelopeError::NoFills),
        fills@.len() > 0 ==> (r matches Ok(e) && e.wf() && e.user_id == env.user_id
            && e.stream_id == env.stream_id && e.data == fills),
{
    if fills.len() == 0 {
        Err(EnvelopeError::NoFills)
    } else {
        Ok(OrderEvent::new(env.user_id, env.stream_id, fills))
    }
}

} // verus!
