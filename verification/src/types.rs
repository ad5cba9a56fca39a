//! The records exchanged with the remote mailbox service and with the
//! presentation layer.

use vstd::prelude::*;

verus! {

/// One page of a message listing.
#[derive(Debug, Clone, PartialEq, Eq)]
pub struct GmailMessageList {
    pub messages: Option<Vec<GmailMessageRef>>,
    pub next_page_token: Option<String>,
    pub result_size_estimate: Option<i32>,
}

/// A reference to a message, as a listing returns it.
#[derive(Debug, PartialEq, Eq)]
pub struct GmailMessageRef {
    pub id: String,
    pub thread_id: String,
}

impl Clone for GmailMessageRef {
    fn clone(&self) -> (r: Self)
        ensures
            r.id@ == self.id@,
            r.thread_id@ == self.thread_id@,
    {
        GmailMessageRef { id: self.id.clone(), thread_id: self.thread_id.clone() }
    }
}

/// A message with its full content, as the remote service returns it.
#[derive(Debug, PartialEq, Eq)]
pub struct GmailMessage {
    pub id: String,
    pub thread_id: String,
    pub label_ids: Vec<String>,
    pub snippet: String,
    /// Receipt time in milliseconds since the epoch, in decimal.
    pub internal_date: Option<String>,
    pub payload: GmailPart,
}

/// One node of a message's tree of MIME parts.
#[derive(Debug, PartialEq, Eq)]
pub struct GmailPart {
    pub part_id: Option<String>,
    pub mime_type: String,
    pub filename: Option<String>,
    pub headers: Option<Vec<GmailHeader>>,
    pub body: GmailBody,
    pub parts: Option<Vec<GmailPart>>,
}

/// The body of a part: inline data in URL-safe base64 without padding, or a
/// reference to an attachment.
#[derive(Debug, Clone, PartialEq, Eq)]
pub struct GmailBody {
    pub size: Option<u32>,
    pub data: Option<String>,
    pub attachment_id: Option<String>,
}

impl Default for GmailBody {
    fn default() -> (r: Self)
        ensures
            r.size.is_none(),
            r.data.is_none(),
            r.attachment_id.is_none(),
    {
        GmailBody { size: None, data: None, attachment_id: None }
    }
}

/// A header line: name and value.
#[derive(Debug, PartialEq, Eq)]
pub struct GmailHeader {
    pub name: String,
    pub value: String,
}

impl View for GmailHeader {
    type V = (Seq<char>, Seq<char>);

    open spec fn view(&self) -> (Seq<char>, Seq<char>) {
        (self.name@, self.value@)
    }
}

impl Clone for GmailHeader {
    fn clone(&self) -> (r: Self)
        ensures
            r@ == self@,
    {
        GmailHeader { name: self.name.clone(), value: self.value.clone() }
    }
}

/// The names and values of a list of headers, in order.
pub open spec fn header_pairs(headers: Seq<GmailHeader>) -> Seq<(Seq<char>, Seq<char>)> {
    headers.map_values(|h: GmailHeader| h@)
}

/// A label with its counters, as the remote service reports it.
#[derive(Debug, Clone, PartialEq, Eq)]
pub struct GmailLabelResponse {
    pub id: String,
    pub name: String,
    pub messages_total: Option<i64>,
    pub messages_unread: Option<i64>,
}

/// A message as the presentation layer shows it.
#[derive(Debug, Clone, PartialEq, Eq)]
pub struct EmailMessage {
    pub id: String,
    pub thread_id: String,
    pub label_ids: Vec<String>,
    pub from: String,
    pub to: String,
    pub subject: String,
    pub date: String,
    pub snippet: String,
    pub body: String,
    pub unread: bool,
    pub has_attachment: bool,
    pub attachments: Vec<Attachment>,
    pub inline_images: Vec<Attachment>,
    pub internal_date: Option<i64>,
}

/// An attached file or an inline image of a message.
#[derive(Debug, Clone, PartialEq, Eq)]
pub struct Attachment {
    pub id: Option<String>,
    pub filename: String,
    pub mime_type: String,
    pub size: u32,
    pub part_id: Option<String>,
    pub content_id: Option<String>,
}

/// An attachment as a mathematical value.
pub struct AttachmentView {
    pub id: Option<Seq<char>>,
    pub filename: Seq<char>,
    pub mime_type: Seq<char>,
    pub size: u32,
    pub part_id: Option<Seq<char>>,
    pub content_id: Option<Seq<char>>,
}

impl View for Attachment {
    type V = AttachmentView;

    open spec fn view(&self) -> AttachmentView {
        AttachmentView {
            id: match self.id {
                Some(s) => Some(s@),
                None => None,
            },
            filename: self.filename@,
            mime_type: self.mime_type@,
            size: self.size,
            part_id: match self.part_id {
                Some(s) => Some(s@),
                None => None,
            },
            content_id: match self.content_id {
                Some(s) => Some(s@),
                None => None,
            },
        }
    }
}

/// The attachments of a list as mathematical values, in order.
pub open spec fn attachment_views(s: Seq<Attachment>) -> Seq<AttachmentView> {
    s.map_values(|a: Attachment| a@)
}

/// The counters of one label.
#[derive(Debug, PartialEq, Eq)]
pub struct MailboxStat {
    pub id: String,
    pub name: String,
    pub total: i64,
    pub unread: i64,
}

/// The counters of the labels of a mailbox, one entry for each label.
#[derive(Debug, PartialEq, Eq)]
pub struct MailboxStats {
    pub stats: Vec<MailboxStat>,
}

/// The signed-in user.
#[derive(Debug, Clone, PartialEq, Eq)]
pub struct UserProfile {
    pub email: String,
    pub name: Option<String>,
    pub picture: Option<String>,
}

/// What the presentation layer asks of a listing: page size, page token and
/// a comma-separated label filter.
#[derive(Debug, Clone, PartialEq, Eq)]
pub struct GetEmailsOptions {
    pub max_results: Option<u32>,
    pub page_token: Option<String>,
    pub label_ids: String,
}

/// A message to send.
#[derive(Debug, Clone, PartialEq, Eq)]
pub struct EmailData {
    pub to: String,
    pub subject: String,
    pub body: String,
    pub cc: Option<String>,
    pub bcc: Option<String>,
}

/// One page of a listing, with the token of the next page if there is one.
#[derive(Debug, Clone, PartialEq, Eq)]
pub struct EmailListResponse {
    pub messages: Vec<EmailMessage>,
    pub next_page_token: Option<String>,
}

/// How many cached messages are dated today, and how many of them are
/// unread.
#[derive(Debug, Clone, Copy, PartialEq, Eq)]
pub struct TodayStats {
    pub total_today: i64,
    pub unread_today: i64,
}

} // verus!
