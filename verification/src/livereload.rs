//! The live-reload protocol decisions: what a client's handshake message
//! must say, what the server answers, and the reload command pushed to
//! every connected browser after a rebuild. The socket plumbing around
//! these decisions lives outside the model.

use vstd::prelude::*;

verus! {

/// The `command` field of a JSON object, when the text parses as one and
/// carries a string there; it depends on the text alone.
pub uninterp spec fn json_command_of(s: Seq<char>) -> Option<Seq<char>>;

/// Relies on serde_json::from_str::<serde_json::Value>: reads the
/// `command` field of a JSON text.
#[verifier::external_body]
pub fn parse_command(s: &str) -> (r: Option<String>)
    ensures
        (match r {
            Some(c) => json_command_of(s@) == Some(c@),
            None => json_command_of(s@) is None,
        }),
{
    serde_json::from_str::<serde_json::Value>(s).ok().and_then(
        |v| v.get("command").and_then(|c| c.as_str()).map(|t| t.to_string()),
    )
}

/// The server's side of the handshake: a fixed hello naming the protocol.
pub fn hello_response() -> (r: &'static str)
    ensures
        r@ == "{\"command\":\"hello\",\"protocols\":[\"http://livereload.com/protocols/official-7\"],\"serverName\":\"doctave\"}"@,
{
    "{\"command\":\"hello\",\"protocols\":[\"http://livereload.com/protocols/official-7\"],\"serverName\":\"doctave\"}"
}

/// The reload command pushed to a client after a rebuild.
pub fn reload_message() -> (r: &'static str)
    ensures
        r@ == "{\"command\":\"reload\",\"path\":\"\",\"liveCSS\":true}"@,
{
    "{\"command\":\"reload\",\"path\":\"\",\"liveCSS\":true}"
}

/// Decides one handshake: a text message whose `command` is `hello` gets
/// the server's hello; anything else is rejected and the connection is
/// dropped.
pub fn handshake_reply(msg: &str) -> (r: Option<&'static str>)
    ensures
        (r is Some <==> json_command_of(msg@) == Some("hello"@)),
        (match r {
            Some(t) => t@
                == "{\"command\":\"hello\",\"protocols\":[\"http://livereload.com/protocols/official-7\"],\"serverName\":\"doctave\"}"@,
            None => true,
        }),
{
    match parse_command(msg) {
        Some(c) => {
            if crate::strutil::str_eq(c.as_str(), "hello") {
                Some(hello_response())
            } else {
                None
            }
        },
        None => None,
    }
}

} // verus!
