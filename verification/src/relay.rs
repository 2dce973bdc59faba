//! Request shaping for the music-service relay: the URLs it calls, the
//! check it makes on a request body before sending it, and what it takes
//! out of the replies. Sending and receiving are the caller's part.

use vstd::prelude::*;
use vstd::string::*;
use vstd::utf8::encode_utf8;

verus! {

/// A parsed JSON document, as `serde_json` holds it.
#[verifier::external_type_specification]
#[verifier::external_body]
pub struct ExJsonValue(serde_json::Value);

/// The reason why `serde_json` could not parse a text.
#[verifier::external_type_specification]
#[verifier::external_body]
pub struct ExJsonError(serde_json::Error);

/// Whether `serde_json::from_str` parses `text` as a JSON document.
pub uninterp spec fn json_parses(text: Seq<char>) -> bool;

/// What a JSON document holds as text members: where the document is an
/// object, each key whose value is a string, with that string; nothing where
/// it is anything else.
pub uninterp spec fn json_text_members(document: serde_json::Value) -> Map<Seq<char>, Seq<char>>;

/// The access token that a token reply carries: the text member under
/// `access_token`, if the reply has one.
pub open spec fn access_token_of(reply: serde_json::Value) -> Option<Seq<char>> {
    if json_text_members(reply).contains_key("access_token"@) {
        Some(json_text_members(reply)["access_token"@])
    } else {
        None
    }
}

/// The bytes that percent-encoding leaves as they are: ASCII letters and
/// digits, `-`, `.`, `_` and `~`.
pub open spec fn unreserved(b: u8) -> bool {
    ||| 0x30 <= b <= 0x39
    ||| 0x41 <= b <= 0x5a
    ||| 0x61 <= b <= 0x7a
    ||| b == 0x2d
    ||| b == 0x2e
    ||| b == 0x5f
    ||| b == 0x7e
}

/// The upper-case hexadecimal digit for a value below sixteen.
pub open spec fn hex_digit(n: u8) -> char {
    if n < 10 {
        (0x30 + n) as char
    } else {
        (0x41 + n - 10) as char
    }
}

/// One byte, percent-encoded: itself where it is unreserved, `%` and its
/// two hexadecimal digits otherwise.
pub open spec fn escaped_byte(b: u8) -> Seq<char> {
    if unreserved(b) {
        seq![b as char]
    } else {
        seq!['%', hex_digit(b / 16), hex_digit(b % 16)]
    }
}

/// A sequence of bytes, percent-encoded byte by byte.
pub open spec fn escaped_bytes(bytes: Seq<u8>) -> Seq<char>
    decreases bytes.len(),
{
    if bytes.len() == 0 {
        Seq::empty()
    } else {
        escaped_bytes(bytes.drop_last()) + escaped_byte(bytes.last())
    }
}

/// A text, percent-encoded: the bytes of its UTF-8 form, each encoded.
pub open spec fn percent_encoded(text: Seq<char>) -> Seq<char> {
    escaped_bytes(encode_utf8(text))
}

/// The URL of a search for `query`.
pub open spec fn search_url_of(query: Seq<char>) -> Seq<char> {
    "https://api.spotify.com/v1/search?q="@ + percent_encoded(query)
        + "&type=track,playlist&limit=10"@
}

/// The URL that starts playback on the device `device_id`.
pub open spec fn play_url_of(device_id: Seq<char>) -> Seq<char> {
    "https://api.spotify.com/v1/me/player/play?device_id="@ + device_id
}

/// Calls `urlencoding::encode`: every byte of the text's UTF-8 form is
/// percent-encoded, except ASCII letters and digits, `-`, `.`, `_` and `~`,
/// with upper-case hexadecimal digits.
#[verifier::external_body]
fn percent_encode(text: &str) -> (encoded: String)
    ensures
        encoded@ == percent_encoded(text@),
{
    urlencoding::encode(text).into_owned()
}

/// Calls `serde_json::from_str` for a `serde_json::Value`. The contract
/// names whether the parse succeeds, `json_parses`, and says nothing of the
/// document or of the error.
#[verifier::external_body]
fn parse_json(text: &str) -> (parsed: Result<serde_json::Value, serde_json::Error>)
    ensures
        parsed.is_ok() == json_parses(text@),
{
    serde_json::from_str::<serde_json::Value>(text)
}

/// Gives the text of a `serde_json::Error`, as its `Display` writes it.
/// Nothing is stated of the text.
#[verifier::external_body]
fn json_error_text(error: &serde_json::Error) -> (text: String) {
    error.to_string()
}

/// Looks up `key` in a `serde_json::Value` as `value[key]` does and, with
/// `serde_json::Value::as_str`, hands out the member as text. The index gives
/// the member of an object under that key and the null value in every other
/// case, and only a string has a text: so there is a text exactly where the
/// key is among the text members of the document, and it is that member's.
#[verifier::external_body]
fn json_text_member(value: &serde_json::Value, key: &str) -> (text: Option<String>)
    ensures
        match text {
            Some(found) => json_text_members(*value).contains_key(key@) && json_text_members(
                *value,
            )[key@] == found@,
            None => !json_text_members(*value).contains_key(key@),
        },
{
    value[key].as_str().map(|s| s.to_string())
}

/// The URL of a search for tracks and playlists that match `query`.
pub fn search_url(query: &str) -> (url: String)
    ensures
        url@ == search_url_of(query@),
{
    let encoded = percent_encode(query);
    let head = String::from_str("https://api.spotify.com/v1/search?q=");
    head.concat(encoded.as_str()).concat("&type=track,playlist&limit=10")
}

/// The URL that starts playback on the device `device_id`. The identifier
/// goes into the URL as it is.
pub fn play_url(device_id: &str) -> (url: String)
    ensures
        url@ == play_url_of(device_id@),
{
    String::from_str("https://api.spotify.com/v1/me/player/play?device_id=").concat(device_id)
}

/// Turns the outcome of parsing a playback body into what the relay
/// reports: the document, or a message that begins with
/// `Invalid JSON body: ` and goes on with `detail`.
pub fn play_body_outcome(parsed: Result<serde_json::Value, String>) -> (outcome: Result<
    serde_json::Value,
    String,
>)
    ensures
        match parsed {
            Ok(document) => outcome == Ok::<serde_json::Value, String>(document),
            Err(detail) => outcome is Err && outcome->Err_0@ == "Invalid JSON body: "@
                + detail@,
        },
{
    match parsed {
        Ok(document) => Ok(document),
        Err(detail) => Err(String::from_str("Invalid JSON body: ").concat(detail.as_str())),
    }
}

/// Checks the body of a playback request before it is sent: a body that
/// parses as JSON is handed back as a document, any other is refused with a
/// message that begins with `Invalid JSON body: `.
pub fn parse_play_body(body: &str) -> (outcome: Result<serde_json::Value, String>)
    ensures
        outcome is Ok <==> json_parses(body@),
        outcome matches Err(message) ==> exists|detail: Seq<char>|
            message@ == "Invalid JSON body: "@ + detail,
{
    match parse_json(body) {
        Ok(document) => play_body_outcome(Ok(document)),
        Err(error) => {
            let detail = json_error_text(&error);
            play_body_outcome(Err(detail))
        },
    }
}

/// What the relay answers for the track that is playing, from the status
/// of the reply alone: `null` where the service says 204, nothing is playing;
/// `None` where the body of the reply is the answer.
pub fn idle_reply(status: u16) -> (reply: Option<String>)
    ensures
        status == 204 ==> reply is Some && reply->0@ == "null"@,
        status != 204 ==> reply is None,
{
    if status == 204 {
        Some(String::from_str("null"))
    } else {
        None
    }
}

/// The access token of a token reply, given the text found under
/// `access_token`: the text, or the message `No access token` where there
/// was none.
pub fn token_or_error(found: Option<String>) -> (token: Result<String, String>)
    ensures
        match found {
            Some(text) => token == Ok::<String, String>(text),
            None => token is Err && token->Err_0@ == "No access token"@,
        },
{
    match found {
        Some(text) => Ok(text),
        None => Err(String::from_str("No access token")),
    }
}

/// Takes the access token out of a token reply: the string under
/// `access_token`. A reply without one, or with one that is no string, gives
/// the message `No access token`.
pub fn access_token(reply: &serde_json::Value) -> (token: Result<String, String>)
    ensures
        match token {
            Ok(text) => access_token_of(*reply) == Some(text@),
            Err(message) => access_token_of(*reply) is None && message@ == "No access token"@,
        },
{
    token_or_error(json_text_member(reply, "access_token"))
}

/// A credential read from the environment: its value, or the message
/// `Missing ` followed by the variable's name where it is not set.
pub fn credential(name: &str, value: Option<String>) -> (found: Result<String, String>)
    ensures
        match value {
            Some(text) => found == Ok::<String, String>(text),
            None => found is Err && found->Err_0@ == "Missing "@ + name@,
        },
{
    match value {
        Some(text) => Ok(text),
        None => Err(String::from_str("Missing ").concat(name)),
    }
}

} // verus!
