//! From a message as the remote service returns it, with its tree of MIME
//! parts, to the flat message that the presentation layer shows: the
//! addressing headers, one body, the attachments and the inline images.

use crate::decimal::{decimal_i64, parse_i64};
use crate::listing::{find_header, has_header, header_named, header_value};
use crate::query::{carries, has_label};
use crate::text::{
    begins_with, has_prefix, has_substring, holds, optional_text, strip, texts, unbracketed,
    Strip,
};
use crate::types::{
    attachment_views, header_pairs, Attachment, AttachmentView, EmailMessage, GmailHeader,
    GmailMessage, GmailPart,
};
use base64::engine::general_purpose::URL_SAFE_NO_PAD;
use base64::Engine;
use vstd::prelude::*;

verus! {

/// The bytes that `text` stands for in URL-safe base64 without padding, as
/// the crate `base64` decodes it; `None` where it rejects the text.
pub uninterp spec fn base64url_decoded(text: Seq<char>) -> Option<Seq<u8>>;

/// The text that `bytes` hold in UTF-8, each ill-formed run replaced by
/// U+FFFD, as `String::from_utf8_lossy` reads it.
pub uninterp spec fn utf8_lossy(bytes: Seq<u8>) -> Seq<char>;

/// Wraps `Engine::decode` of `base64::engine::general_purpose::URL_SAFE_NO_PAD`.
#[verifier::external_body]
pub(crate) fn decode_base64url(text: &str) -> (r: Option<Vec<u8>>)
    ensures
        match r {
            Some(b) => base64url_decoded(text@) == Some(b@),
            None => base64url_decoded(text@).is_none(),
        },
{
    URL_SAFE_NO_PAD.decode(text).ok()
}

/// Wraps `String::from_utf8_lossy`.
#[verifier::external_body]
pub(crate) fn lossy_text(bytes: &Vec<u8>) -> (r: String)
    ensures
        r@ == utf8_lossy(bytes@),
{
    String::from_utf8_lossy(bytes).into_owned()
}

/// The text of a part's inline data: the data decoded from base64 and
/// read as UTF-8; `None` without data and for data that is no base64.
pub open spec fn decoded_text(data: Option<Seq<char>>) -> Option<Seq<char>> {
    match data {
        Some(d) => match base64url_decoded(d) {
            Some(b) => Some(utf8_lossy(b)),
            None => None,
        },
        None => None,
    }
}

/// The text of a part's inline data.
pub fn text_of_data(data: &Option<String>) -> (r: Option<String>)
    ensures
        optional_text(r) == decoded_text(optional_text(*data)),
{
    match data {
        Some(d) => match decode_base64url(d.as_str()) {
            Some(bytes) => Some(lossy_text(&bytes)),
            None => None,
        },
        None => None,
    }
}

/// What has been gathered from the parts of a message: the HTML body, the
/// plain body, the attachments and the inline images.
pub struct Gathered {
    pub html: Seq<char>,
    pub plain: Seq<char>,
    pub attachments: Seq<AttachmentView>,
    pub inline_images: Seq<AttachmentView>,
}

/// The content id of a part with the headers `headers`: the value of the
/// header `Content-ID` without the angle brackets around it.
pub open spec fn content_id(headers: Option<Seq<(Seq<char>, Seq<char>)>>) -> Option<Seq<char>> {
    match headers {
        Some(h) => if has_header(h, "Content-ID"@) {
            Some(unbracketed(header_value(h, "Content-ID"@)))
        } else {
            None
        },
        None => None,
    }
}

/// The headers of a part.
pub open spec fn part_headers(part: GmailPart) -> Option<Seq<(Seq<char>, Seq<char>)>> {
    match part.headers {
        Some(h) => Some(header_pairs(h@)),
        None => None,
    }
}

/// The file that a part attaches: its attachment id, file name, type and
/// size, and the content id `cid`.
pub open spec fn attached(part: GmailPart, cid: Option<Seq<char>>) -> AttachmentView {
    AttachmentView {
        id: optional_text(part.body.attachment_id),
        filename: match part.filename {
            Some(f) => f@,
            None => Seq::empty(),
        },
        mime_type: part.mime_type@,
        size: match part.body.size {
            Some(n) => n,
            None => 0,
        },
        part_id: optional_text(part.part_id),
        content_id: cid,
    }
}

/// Whether a part attaches a file: it has an attachment id and a file name
/// that is not empty.
pub open spec fn attaches(part: GmailPart) -> bool {
    &&& part.body.attachment_id.is_some()
    &&& part.filename.is_some()
    &&& part.filename.unwrap()@.len() > 0
}

/// What one part adds to `g`, its own parts aside. An HTML part that can
/// be read replaces the HTML body. A plain-text part that can be read
/// becomes the plain body while that is empty. Any other part that
/// attaches a file adds an attachment, and an inline image too where it
/// is an image with a content id.
pub open spec fn with_part(part: GmailPart, g: Gathered) -> Gathered {
    let mime = part.mime_type@;
    let text = decoded_text(optional_text(part.body.data));
    if begins_with(mime, "text/html"@) {
        match text {
            Some(t) => Gathered { html: t, ..g },
            None => g,
        }
    } else if begins_with(mime, "text/plain"@) {
        match text {
            Some(t) => if g.plain.len() == 0 {
                Gathered { plain: t, ..g }
            } else {
                g
            },
            None => g,
        }
    } else if attaches(part) {
        let cid = if begins_with(mime, "image/"@) {
            content_id(part_headers(part))
        } else {
            None
        };
        Gathered {
            attachments: g.attachments.push(attached(part, None)),
            inline_images: match cid {
                Some(c) => g.inline_images.push(attached(part, Some(c))),
                None => g.inline_images,
            },
            ..g
        }
    } else {
        g
    }
}

/// What the first `n` of `parts` add to `g`, one after the other, each
/// part after its own parts.
pub open spec fn with_parts(parts: Vec<GmailPart>, n: nat, g: Gathered) -> Gathered
    decreases parts, n,
{
    if n == 0 || n > parts.len() {
        g
    } else {
        let before = with_parts(parts, (n - 1) as nat, g);
        let part = parts[n - 1];
        let inner = match part.parts {
            Some(sub) => with_parts(sub, sub.len() as nat, before),
            None => before,
        };
        with_part(part, inner)
    }
}

/// What the exec values hold as gathered so far.
pub open spec fn gathered(
    html: String,
    plain: String,
    attachments: Vec<Attachment>,
    inline_images: Vec<Attachment>,
) -> Gathered {
    Gathered {
        html: html@,
        plain: plain@,
        attachments: attachment_views(attachments@),
        inline_images: attachment_views(inline_images@),
    }
}

fn clone_optional(s: &Option<String>) -> (r: Option<String>)
    ensures
        optional_text(r) == optional_text(*s),
{
    match s {
        Some(t) => Some(t.clone()),
        None => None,
    }
}

/// The file that `part` attaches, with the content id `cid`.
fn attachment_of(part: &GmailPart, cid: Option<String>) -> (r: Attachment)
    ensures
        r@ == attached(*part, optional_text(cid)),
{
    Attachment {
        id: clone_optional(&part.body.attachment_id),
        filename: match &part.filename {
            Some(f) => f.clone(),
            None => String::new(),
        },
        mime_type: part.mime_type.clone(),
        size: match part.body.size {
            Some(n) => n,
            None => 0,
        },
        part_id: clone_optional(&part.part_id),
        content_id: cid,
    }
}

/// The content id of `part`.
fn content_id_of(part: &GmailPart) -> (r: Option<String>)
    ensures
        optional_text(r) == content_id(part_headers(*part)),
{
    match &part.headers {
        Some(h) => match header_named(h, "Content-ID") {
            Some(v) => Some(strip(v.as_str(), Strip::AngleBrackets).to_owned()),
            None => None,
        },
        None => None,
    }
}

/// Adds to the bodies, attachments and inline images what `part` itself
/// holds.
fn take_part(
    part: &GmailPart,
    html_body: &mut String,
    plain_text_body: &mut String,
    attachments: &mut Vec<Attachment>,
    inline_images: &mut Vec<Attachment>,
)
    ensures
        gathered(
            *final(html_body),
            *final(plain_text_body),
            *final(attachments),
            *final(inline_images),
        ) == with_part(
            *part,
            gathered(
                *old(html_body),
                *old(plain_text_body),
                *old(attachments),
                *old(inline_images),
            ),
        ),
{
    let mime = part.mime_type.as_str();
    if has_prefix(mime, "text/html") {
        match text_of_data(&part.body.data) {
            Some(t) => {
                *html_body = t;
            },
            None => {},
        }
    } else if has_prefix(mime, "text/plain") {
        match text_of_data(&part.body.data) {
            Some(t) => {
                if plain_text_body.as_str().is_empty() {
                    *plain_text_body = t;
                }
            },
            None => {},
        }
    } else {
        let named = match &part.filename {
            Some(f) => !f.as_str().is_empty(),
            None => false,
        };
        if part.body.attachment_id.is_some() && named {
            if has_prefix(mime, "image/") {
                match content_id_of(part) {
                    Some(cid) => {
                        let ghost was = inline_images@;
                        let image = attachment_of(part, Some(cid));
                        inline_images.push(image);
                        proof {
                            assert(attachment_views(inline_images@) =~= attachment_views(was).push(
                                image@,
                            ));
                        }
                    },
                    None => {},
                }
            }
            let ghost was = attachments@;
            let file = attachment_of(part, None);
            attachments.push(file);
            proof {
                assert(attachment_views(attachments@) =~= attachment_views(was).push(file@));
            }
        }
    }
}

/// Gathers the bodies, the attachments and the inline images of `parts`
/// and of the parts within them, each part after its own parts.
pub fn extract_parts(
    parts: &Vec<GmailPart>,
    html_body: &mut String,
    plain_text_body: &mut String,
    attachments: &mut Vec<Attachment>,
    inline_images: &mut Vec<Attachment>,
)
    ensures
        gathered(
            *final(html_body),
            *final(plain_text_body),
            *final(attachments),
            *final(inline_images),
        ) == with_parts(
            *parts,
            parts.len() as nat,
            gathered(
                *old(html_body),
                *old(plain_text_body),
                *old(attachments),
                *old(inline_images),
            ),
        ),
    decreases parts,
{
    let ghost start = gathered(*html_body, *plain_text_body, *attachments, *inline_images);
    let mut i: usize = 0;
    while i < parts.len()
        invariant
            i <= parts.len(),
            gathered(*html_body, *plain_text_body, *attachments, *inline_images) == with_parts(
                *parts,
                i as nat,
                start,
            ),
        decreases parts.len() - i,
    {
        let part = &parts[i];
        match &part.parts {
            Some(sub) => {
                extract_parts(sub, html_body, plain_text_body, attachments, inline_images);
            },
            None => {},
        }
        take_part(part, html_body, plain_text_body, attachments, inline_images);
        i += 1;
    }
}

/// What the top-level body of a message gives before its parts are read:
/// its text as the HTML body where the type of the message names HTML,
/// else as the plain body where it names plain text.
pub open spec fn top_level(payload: GmailPart) -> Gathered {
    let none = Gathered {
        html: Seq::empty(),
        plain: Seq::empty(),
        attachments: Seq::empty(),
        inline_images: Seq::empty(),
    };
    match decoded_text(optional_text(payload.body.data)) {
        Some(t) => if holds(payload.mime_type@, "text/html"@) {
            Gathered { html: t, ..none }
        } else if holds(payload.mime_type@, "text/plain"@) {
            Gathered { plain: t, ..none }
        } else {
            none
        },
        None => none,
    }
}

/// What a whole message gives: its top-level body, then its parts.
pub open spec fn message_content(payload: GmailPart) -> Gathered {
    match payload.parts {
        Some(parts) => with_parts(parts, parts.len() as nat, top_level(payload)),
        None => top_level(payload),
    }
}

/// The body that is shown: the HTML body, else the plain body, else the
/// snippet.
pub open spec fn shown_body(g: Gathered, snippet: Seq<char>) -> Seq<char> {
    if g.html.len() > 0 {
        g.html
    } else if g.plain.len() > 0 {
        g.plain
    } else {
        snippet
    }
}

/// The headers of the top-level part.
pub open spec fn message_headers(message: GmailMessage) -> Seq<(Seq<char>, Seq<char>)> {
    match message.payload.headers {
        Some(h) => header_pairs(h@),
        None => Seq::empty(),
    }
}

/// Whether `e` is the flat form of `message`.
pub open spec fn is_parsed(e: EmailMessage, message: GmailMessage) -> bool {
    let g = message_content(message.payload);
    let headers = message_headers(message);
    &&& e.id@ == message.id@
    &&& e.thread_id@ == message.thread_id@
    &&& texts(e.label_ids@) == texts(message.label_ids@)
    &&& e.from@ == header_value(headers, "From"@)
    &&& e.to@ == header_value(headers, "To"@)
    &&& e.subject@ == header_value(headers, "Subject"@)
    &&& e.date@ == header_value(headers, "Date"@)
    &&& e.snippet@ == message.snippet@
    &&& e.body@ == shown_body(g, message.snippet@)
    &&& e.unread == carries(texts(message.label_ids@), "UNREAD"@)
    &&& e.has_attachment == (g.attachments.len() > 0)
    &&& attachment_views(e.attachments@) == g.attachments
    &&& attachment_views(e.inline_images@) == g.inline_images
    &&& e.internal_date == match message.internal_date {
        Some(t) => decimal_i64(t@),
        None => None,
    }
}

/// The flat form of `message`: its addressing headers, its labels, one
/// body, its attachments and its inline images.
pub fn parse_email_message(message: GmailMessage) -> (e: EmailMessage)
    ensures
        is_parsed(e, message),
{
    let none: Vec<GmailHeader> = Vec::new();
    proof {
        assert(header_pairs(none@) =~= Seq::<(Seq<char>, Seq<char>)>::empty());
    }
    let headers = match &message.payload.headers {
        Some(h) => h,
        None => &none,
    };
    let from = find_header(headers, "From");
    let to = find_header(headers, "To");
    let subject = find_header(headers, "Subject");
    let date = find_header(headers, "Date");
    let mut body = String::new();
    let mut plain_text_body = String::new();
    let mut attachments: Vec<Attachment> = Vec::new();
    let mut inline_images: Vec<Attachment> = Vec::new();
    proof {
        assert(attachment_views(attachments@) =~= Seq::<AttachmentView>::empty());
        assert(attachment_views(inline_images@) =~= Seq::<AttachmentView>::empty());
    }
    match text_of_data(&message.payload.body.data) {
        Some(t) => {
            if has_substring(message.payload.mime_type.as_str(), "text/html") {
                body = t;
            } else if has_substring(message.payload.mime_type.as_str(), "text/plain") {
                plain_text_body = t;
            }
        },
        None => {},
    }
    match &message.payload.parts {
        Some(parts) => {
            extract_parts(
                parts,
                &mut body,
                &mut plain_text_body,
                &mut attachments,
                &mut inline_images,
            );
        },
        None => {},
    }
    let final_body = if !body.as_str().is_empty() {
        body
    } else if !plain_text_body.as_str().is_empty() {
        plain_text_body
    } else {
        message.snippet.clone()
    };
    let unread = has_label(&message.label_ids, "UNREAD");
    let has_attachment = attachments.len() > 0;
    let internal_date = match &message.internal_date {
        Some(t) => parse_i64(t.as_str()),
        None => None,
    };
    EmailMessage {
        id: message.id,
        thread_id: message.thread_id,
        label_ids: message.label_ids,
        from,
        to,
        subject,
        date,
        snippet: message.snippet,
        body: final_body,
        unread,
        has_attachment,
        attachments,
        inline_images,
        internal_date,
    }
}

/// The flat forms of `messages`, in order.
pub fn parse_emails_batch(messages: Vec<GmailMessage>) -> (r: Vec<EmailMessage>)
    ensures
        r.len() == messages.len(),
        forall|i: int| 0 <= i < r.len() ==> is_parsed(#[trigger] r[i], messages[i]),
{
    let mut out: Vec<EmailMessage> = Vec::new();
    for message in it: messages
        invariant
            it.seq() == messages@,
            out.len() == it.index(),
            forall|i: int| 0 <= i < out.len() ==> is_parsed(#[trigger] out[i], messages[i]),
    {
        out.push(parse_email_message(message));
    }
    out
}

} // verus!
