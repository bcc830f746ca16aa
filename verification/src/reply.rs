//! The answers that the proxy gives on its own: a disconnect for a client
//! that logs in, a status response for a client that pings. Both are one
//! packet with id zero that holds one JSON document.

use crate::packet::{string_body, string_packet, string_packet_bytes};
use vstd::prelude::*;
use vstd::string::*;

verus! {

/// The JSON string literal that `serde_json` writes for `text`: the text
/// between double quotes, with the characters escaped that JSON does not
/// take as they are.
pub uninterp spec fn json_string_literal(text: Seq<char>) -> Seq<char>;

/// `serde_json::Value::String(..)` and its `to_string`: the compact JSON
/// document that holds nothing but the string `text`.
#[verifier::external_body]
fn json_string(text: &str) -> (literal: String)
    ensures
        literal@ == json_string_literal(text@),
{
    serde_json::Value::String(text.to_owned()).to_string()
}

/// The JSON document of a disconnect around a string literal.
pub open spec fn disconnect_json_around(literal: Seq<char>) -> Seq<char> {
    "{\"text\": "@ + literal + "}"@
}

/// The JSON document of the disconnect that shows `message`: an object
/// whose one member `text` is the message as a JSON string.
pub open spec fn disconnect_json_text(message: Seq<char>) -> Seq<char> {
    disconnect_json_around(json_string_literal(message))
}

/// The JSON document of a status response around two string literals.
pub open spec fn status_json_text(name_literal: Seq<char>, text_literal: Seq<char>) -> Seq<char> {
    "{\"version\":{\"name\":"@ + name_literal
        + ",\"protocol\":-1},\"players\":{\"max\":0,\"online\":0,\"sample\":[]},\"description\":{\"text\":"@
        + text_literal + "}}"@
}

/// The JSON document of the status response that shows `protocol_name` as
/// the version and `text` as the description.
pub open spec fn status_json_of(protocol_name: Seq<char>, text: Seq<char>) -> Seq<char> {
    status_json_text(json_string_literal(protocol_name), json_string_literal(text))
}

/// What a client is sent for a document: the packet that holds it, or no
/// byte at all where the document is too large for a packet.
pub open spec fn reply_bytes(document: Seq<char>) -> Seq<u8> {
    if string_body(document).len() <= i32::MAX {
        string_packet_bytes(document)
    } else {
        Seq::empty()
    }
}

/// The JSON document of a disconnect. `literal` is a JSON string
/// literal, quotes included.
pub fn disconnect_json_from_literal(literal: &str) -> (document: String)
    ensures
        document@ == disconnect_json_around(literal@),
{
    let mut document = String::from_str("{\"text\": ");
    document.append(literal);
    document.append("}");
    document
}

/// The JSON document that tells a client why it was disconnected.
pub fn disconnect_json(message: &str) -> (document: String)
    ensures
        document@ == disconnect_json_text(message@),
{
    let literal = json_string(message);
    disconnect_json_from_literal(literal.as_str())
}

/// The JSON document of a status response. `name_literal` and
/// `text_literal` are JSON string literals, quotes included.
pub fn status_json_from_literals(name_literal: &str, text_literal: &str) -> (document: String)
    ensures
        document@ == status_json_text(name_literal@, text_literal@),
{
    let mut document = String::from_str("{\"version\":{\"name\":");
    document.append(name_literal);
    document.append(
        ",\"protocol\":-1},\"players\":{\"max\":0,\"online\":0,\"sample\":[]},\"description\":{\"text\":",
    );
    document.append(text_literal);
    document.append("}}");
    document
}

/// The JSON document of the status response that shows `protocol_name` as
/// the version and `text` as the description, with no player online.
pub fn status_json(protocol_name: &str, text: &str) -> (document: String)
    ensures
        document@ == status_json_of(protocol_name@, text@),
{
    let name_literal = json_string(protocol_name);
    let text_literal = json_string(text);
    status_json_from_literals(name_literal.as_str(), text_literal.as_str())
}

/// The bytes to send to the client for `document`.
pub fn reply_packet(document: &str) -> (bytes: Vec<u8>)
    ensures
        bytes@ == reply_bytes(document@),
{
    match string_packet(document) {
        Some(bytes) => bytes,
        None => Vec::new(),
    }
}

} // verus!
