//! A page of a listing as the presentation layer receives it: the cached
//! messages of the page, each reduced to what a list shows.

use crate::cache::CachedMessage;
use crate::codec::{decode_headers, decode_labels, stored_headers, stored_labels};
use crate::decimal::{
    decimal_text, decimal_usize, law_written_number_is_read_back, parse_usize, usize_text,
};
use crate::query::{carries, has_label};
use crate::text::{eq_ignore_case, optional_text, same_ignoring_case, texts};
use crate::types::{
    header_pairs, Attachment, EmailListResponse, EmailMessage, GetEmailsOptions, GmailHeader,
};
use vstd::prelude::*;

verus! {

/// The page size of a listing that names none.
pub const DEFAULT_PAGE_SIZE: u32 = 20;

/// The value of the first header of `headers` whose name is `name`, the
/// case of ASCII letters aside; the empty text where there is none.
pub open spec fn header_value(headers: Seq<(Seq<char>, Seq<char>)>, name: Seq<char>) -> Seq<char>
    decreases headers.len(),
{
    if headers.len() == 0 {
        Seq::empty()
    } else if same_ignoring_case(headers[0].0, name) {
        headers[0].1
    } else {
        header_value(headers.drop_first(), name)
    }
}

/// Whether some header of `headers` is named `name`, the case of ASCII
/// letters aside.
pub open spec fn has_header(headers: Seq<(Seq<char>, Seq<char>)>, name: Seq<char>) -> bool {
    exists|i: int| 0 <= i < headers.len() && same_ignoring_case((#[trigger] headers[i]).0, name)
}

/// The value of the first header named `name`, if there is one.
pub fn header_named(headers: &Vec<GmailHeader>, name: &str) -> (r: Option<String>)
    ensures
        match r {
            Some(v) => has_header(header_pairs(headers@), name@) && v@ == header_value(
                header_pairs(headers@),
                name@,
            ),
            None => !has_header(header_pairs(headers@), name@),
        },
{
    let mut i: usize = 0;
    while i < headers.len()
        invariant
            i <= headers.len(),
            forall|k: int|
                0 <= k < i ==> !same_ignoring_case((#[trigger] header_pairs(headers@)[k]).0, name@),
        decreases headers.len() - i,
    {
        if eq_ignore_case(headers[i].name.as_str(), name) {
            proof {
                assert(same_ignoring_case(header_pairs(headers@)[i as int].0, name@));
            }
            return Some(find_header(headers, name));
        }
        i += 1;
    }
    None
}

/// The value of the first header named `name`, or the empty string.
pub fn find_header(headers: &Vec<GmailHeader>, name: &str) -> (r: String)
    ensures
        r@ == header_value(header_pairs(headers@), name@),
{
    let mut i: usize = 0;
    proof {
        assert(header_pairs(headers@).skip(0) =~= header_pairs(headers@));
    }
    while i < headers.len()
        invariant
            i <= headers.len(),
            header_value(header_pairs(headers@), name@) == header_value(
                header_pairs(headers@).skip(i as int),
                name@,
            ),
        decreases headers.len() - i,
    {
        proof {
            let rest = header_pairs(headers@).skip(i as int);
            assert(rest[0] == headers@[i as int]@);
            assert(rest.drop_first() =~= header_pairs(headers@).skip(i + 1));
        }
        if eq_ignore_case(headers[i].name.as_str(), name) {
            return headers[i].value.clone();
        }
        i += 1;
    }
    proof {
        assert(header_pairs(headers@).skip(i as int).len() == 0);
    }
    String::new()
}

/// Whether `e` is the list entry of the cached message `m`: id, thread,
/// snippet and receipt time of `m`, its labels, the values of its headers
/// `From`, `Subject` and `Date`, unread where it carries the label
/// `UNREAD`, and nothing of the message's content.
pub open spec fn is_summary_of(e: EmailMessage, m: CachedMessage) -> bool {
    let labels = stored_labels(m.label_ids_json@);
    let headers = stored_headers(m.headers_json@);
    &&& e.id@ == m.message_id@
    &&& e.thread_id@ == m.thread_id@
    &&& texts(e.label_ids@) == labels
    &&& e.from@ == header_value(headers, "From"@)
    &&& e.to@.len() == 0
    &&& e.subject@ == header_value(headers, "Subject"@)
    &&& e.date@ == header_value(headers, "Date"@)
    &&& e.snippet@ == m.snippet@
    &&& e.body@.len() == 0
    &&& e.unread == carries(labels, "UNREAD"@)
    &&& !e.has_attachment
    &&& e.attachments.len() == 0
    &&& e.inline_images.len() == 0
    &&& e.internal_date == Some(m.internal_date)
}

/// The list entry of the cached message `m`.
pub fn summarize(m: &CachedMessage) -> (e: EmailMessage)
    ensures
        is_summary_of(e, *m),
{
    let headers = decode_headers(m.headers_json.as_str());
    let labels = decode_labels(m.label_ids_json.as_str());
    let unread = has_label(&labels, "UNREAD");
    let attachments: Vec<Attachment> = Vec::new();
    let inline_images: Vec<Attachment> = Vec::new();
    EmailMessage {
        id: m.message_id.clone(),
        thread_id: m.thread_id.clone(),
        label_ids: labels,
        from: find_header(&headers, "From"),
        to: String::new(),
        subject: find_header(&headers, "Subject"),
        date: find_header(&headers, "Date"),
        snippet: m.snippet.clone(),
        body: String::new(),
        unread,
        has_attachment: false,
        attachments,
        inline_images,
        internal_date: Some(m.internal_date),
    }
}

/// The offset at which a page starts: the number that the page token
/// holds in decimal, or 0 without a token and for a token that holds
/// none.
pub open spec fn page_offset(token: Option<Seq<char>>) -> nat {
    match token {
        Some(t) => match decimal_usize(t) {
            Some(n) => n as nat,
            None => 0,
        },
        None => 0,
    }
}

/// The size of a page: the one asked for, or 20.
pub open spec fn page_size(max_results: Option<u32>) -> nat {
    match max_results {
        Some(n) => n as nat,
        None => DEFAULT_PAGE_SIZE as nat,
    }
}

/// The offset at which the page ends that starts at `offset`, in a
/// listing of `total` messages.
pub open spec fn page_end(offset: nat, size: nat, total: nat) -> nat {
    if offset >= total {
        total
    } else if offset + size < total {
        offset + size
    } else {
        total
    }
}

/// The token of the page after the one that ends at `end`: the offset
/// `end` in decimal, or none where the listing ends there.
pub open spec fn next_token(end: nat, total: nat) -> Option<Seq<char>> {
    if end < total {
        Some(decimal_text(end))
    } else {
        None
    }
}

/// The page of the listing `items` that `options` asks for: the list
/// entries of the messages from the offset of the page token up to the
/// page size, and the token of the next page where messages are left.
pub fn page_of(items: &Vec<CachedMessage>, options: &GetEmailsOptions) -> (r: EmailListResponse)
    ensures
        ({
            let total = items.len() as nat;
            let offset = page_offset(optional_text(options.page_token));
            let end = page_end(offset, page_size(options.max_results), total);
            let start = if offset < total {
                offset
            } else {
                end
            };
            &&& r.messages.len() == end - start
            &&& forall|i: int|
                0 <= i < end - start ==> is_summary_of(#[trigger] r.messages[i], items[start + i])
            &&& optional_text(r.next_page_token) == next_token(end, total)
        }),
{
    let size: usize = match options.max_results {
        Some(n) => n as usize,
        None => DEFAULT_PAGE_SIZE as usize,
    };
    let offset: usize = match &options.page_token {
        Some(t) => match parse_usize(t.as_str()) {
            Some(n) => n,
            None => 0,
        },
        None => 0,
    };
    let total = items.len();
    let mut messages: Vec<EmailMessage> = Vec::new();
    if offset >= total {
        return EmailListResponse { messages, next_page_token: None };
    }
    let left = total - offset;
    let end = if size < left {
        offset + size
    } else {
        total
    };
    let mut i: usize = offset;
    while i < end
        invariant
            offset <= i <= end <= items.len(),
            messages.len() == i - offset,
            forall|k: int|
                0 <= k < i - offset ==> is_summary_of(#[trigger] messages[k], items[offset + k]),
        decreases end - i,
    {
        messages.push(summarize(&items[i]));
        i += 1;
    }
    let next_page_token = if end < total {
        Some(usize_text(end))
    } else {
        None
    };
    EmailListResponse { messages, next_page_token }
}

/// The token of the next page leads to where the page ended: read as a
/// page token, it gives the offset at which the page ended.
pub proof fn law_next_token_continues(end: usize, total: usize)
    requires
        end < total,
    ensures
        page_offset(next_token(end as nat, total as nat)) == end,
{
    law_written_number_is_read_back(end);
}

} // verus!
