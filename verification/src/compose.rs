//! What is sent to the remote service to send a message and to mark one
//! as read or unread.

use crate::codec::{render_or_empty, rendering_or_empty};
use crate::json::{
    array_value, json_document, json_member, json_of_items, json_of_members, json_of_text,
    json_text, member, member_views, object_value, parse_document, text, text_value,
};
use crate::types::EmailData;
use base64::engine::general_purpose::URL_SAFE_NO_PAD;
use base64::Engine;
use serde_json::Value;
use vstd::prelude::*;
use vstd::string::StringExecFns;
use vstd::utf8::encode_utf8;

verus! {

/// The text that `bytes` are written as in URL-safe base64 without
/// padding, as the crate `base64` encodes them.
pub uninterp spec fn base64url_encoded(bytes: Seq<u8>) -> Seq<char>;

/// The most bytes that a message may hold to be encoded.
pub open spec fn encodable(len: nat) -> bool {
    len <= usize::MAX / 2
}

/// Wraps `Engine::encode` of `base64::engine::general_purpose::URL_SAFE_NO_PAD`.
/// It panics where the length of the encoded text does not fit in
/// `usize`, which the bound on the input rules out.
#[verifier::external_body]
pub(crate) fn encode_base64url(bytes: &[u8]) -> (r: String)
    requires
        encodable(bytes@.len()),
    ensures
        r@ == base64url_encoded(bytes@),
{
    URL_SAFE_NO_PAD.encode(bytes)
}

/// A header line: the name, a colon and a space, the value, and the line
/// end.
pub open spec fn header_line(name: Seq<char>, value: Seq<char>) -> Seq<char> {
    name + ": "@ + value + "\r\n"@
}

/// The header line of an optional value; nothing without a value.
pub open spec fn optional_line(name: Seq<char>, value: Option<String>) -> Seq<char> {
    match value {
        Some(v) => header_line(name, v@),
        None => Seq::empty(),
    }
}

/// The message `email` as it is sent: the lines `To`, `Cc` and `Bcc` as
/// far as they are given, `Subject`, the content type of HTML in UTF-8,
/// an empty line and the body.
pub open spec fn raw_message(email: EmailData) -> Seq<char> {
    header_line("To"@, email.to@) + optional_line("Cc"@, email.cc) + optional_line(
        "Bcc"@,
        email.bcc,
    ) + header_line("Subject"@, email.subject@) + "Content-Type: text/html; charset=utf-8\r\n"@
        + "\r\n"@ + email.body@
}

fn push_line(message: &mut String, name: &str, value: &str)
    ensures
        final(message)@ == old(message)@ + header_line(name@, value@),
{
    message.append(name);
    message.append(": ");
    message.append(value);
    message.append("\r\n");
    proof {
        assert(message@ =~= old(message)@ + header_line(name@, value@));
    }
}

/// The message `email` as it is sent.
pub fn compose(email: &EmailData) -> (r: String)
    ensures
        r@ == raw_message(*email),
{
    let mut message = String::new();
    push_line(&mut message, "To", email.to.as_str());
    match &email.cc {
        Some(cc) => {
            push_line(&mut message, "Cc", cc.as_str());
        },
        None => {},
    }
    match &email.bcc {
        Some(bcc) => {
            push_line(&mut message, "Bcc", bcc.as_str());
        },
        None => {},
    }
    push_line(&mut message, "Subject", email.subject.as_str());
    message.append("Content-Type: text/html; charset=utf-8\r\n");
    message.append("\r\n");
    message.append(email.body.as_str());
    proof {
        assert(message@ =~= raw_message(*email));
    }
    message
}

/// The message `email` as the remote service takes it: its text in
/// UTF-8, written in URL-safe base64 without padding. `None` for a
/// message of more bytes than can be encoded.
pub fn encode_message(email: &EmailData) -> (r: Option<String>)
    ensures
        match r {
            Some(s) => encodable(encode_utf8(raw_message(*email)).len()) && s@
                == base64url_encoded(encode_utf8(raw_message(*email))),
            None => !encodable(encode_utf8(raw_message(*email)).len()),
        },
{
    let message = compose(email);
    let bytes = message.as_str().as_bytes();
    if bytes.len() > usize::MAX / 2 {
        return None;
    }
    Some(encode_base64url(bytes))
}

/// The request that marks a message as read or as unread: read, it
/// removes the label `UNREAD`; unread, it adds the label.
pub open spec fn mark_document(read: bool) -> Value {
    let labels = json_of_items(seq![json_of_text("UNREAD"@)]);
    if read {
        json_of_members(seq![("removeLabelIds"@, labels)])
    } else {
        json_of_members(seq![("addLabelIds"@, labels)])
    }
}

/// The body of the request that marks a message as read or as unread.
pub fn mark_request_body(read: bool) -> (r: String)
    ensures
        r@ == rendering_or_empty(mark_document(read)),
{
    let mut labels: Vec<Value> = Vec::new();
    labels.push(text_value("UNREAD".to_owned()));
    proof {
        assert(labels@ =~= seq![json_of_text("UNREAD"@)]);
    }
    let list = array_value(labels);
    let key = if read {
        "removeLabelIds"
    } else {
        "addLabelIds"
    };
    let mut members: Vec<(String, Value)> = Vec::new();
    members.push((key.to_owned(), list));
    proof {
        assert(member_views(members@) =~= seq![(key@, list)]);
    }
    let doc = object_value(members);
    render_or_empty(&doc)
}

/// The id that the answer to a request to send a message gives the
/// message: the string member `id` of its JSON body; `None` where the
/// body is no JSON document or holds no such member.
pub open spec fn reported_id(body: Seq<char>) -> Option<Seq<char>> {
    match json_document(body) {
        Some(doc) => match json_member(doc, "id"@) {
            Some(id) => json_text(id),
            None => None,
        },
        None => None,
    }
}

/// The id of a sent message, as the answer with the body `body` reports
/// it.
pub fn sent_id(body: &str) -> (r: Option<String>)
    ensures
        match r {
            Some(id) => reported_id(body@) == Some(id@),
            None => reported_id(body@).is_none(),
        },
{
    match parse_document(body) {
        Some(doc) => match member(&doc, "id") {
            Some(id) => match text(id) {
                Some(t) => Some(t.to_owned()),
                None => None,
            },
            None => None,
        },
        None => None,
    }
}

} // verus!
