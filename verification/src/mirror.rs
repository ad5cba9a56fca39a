//! The row of the cache that mirrors a message of the remote mailbox.

use crate::cache::{CachedMessage, CachedMessageView};
use crate::codec::{
    encode_headers, encode_labels, header_document, label_document, rendering_or_empty,
};
use crate::decimal::{decimal_i64, parse_i64};
use crate::text::{optional_text, texts};
use crate::types::{header_pairs, GmailHeader, GmailMessage};
use vstd::prelude::*;

verus! {

/// The receipt time that a message reports: its decimal number of
/// milliseconds, or 0 where it reports none that can be read.
pub open spec fn receipt_time(reported: Option<Seq<char>>) -> i64 {
    match reported {
        Some(t) => match decimal_i64(t) {
            Some(v) => v,
            None => 0,
        },
        None => 0,
    }
}

/// The headers of a message: those of its top-level part.
pub open spec fn top_headers(full: GmailMessage) -> Seq<(Seq<char>, Seq<char>)> {
    match full.payload.headers {
        Some(h) => header_pairs(h@),
        None => Seq::empty(),
    }
}

/// The row that mirrors the fetched message `full`, written at the change
/// cursor `synced`: id, thread, snippet and receipt time of the message,
/// its labels and its top-level headers as JSON text.
pub open spec fn mirror_row(full: GmailMessage, synced: Option<i64>) -> CachedMessageView {
    CachedMessageView {
        message_id: full.id@,
        thread_id: full.thread_id@,
        headers_json: rendering_or_empty(header_document(top_headers(full))),
        label_ids_json: rendering_or_empty(label_document(texts(full.label_ids@))),
        snippet: full.snippet@,
        internal_date: receipt_time(optional_text(full.internal_date)),
        synced_history_id: synced,
    }
}

/// The row that mirrors the fetched message `full`, written at the change
/// cursor `synced`.
pub fn to_cached_message(full: &GmailMessage, synced: Option<i64>) -> (r: CachedMessage)
    ensures
        r@ == mirror_row(*full, synced),
{
    let internal_date = match &full.internal_date {
        Some(t) => match parse_i64(t.as_str()) {
            Some(v) => v,
            None => 0,
        },
        None => 0,
    };
    let headers_json = match &full.payload.headers {
        Some(h) => encode_headers(h),
        None => {
            let none: Vec<GmailHeader> = Vec::new();
            proof {
                assert(header_pairs(none@) =~= Seq::<(Seq<char>, Seq<char>)>::empty());
            }
            encode_headers(&none)
        },
    };
    CachedMessage {
        message_id: full.id.clone(),
        thread_id: full.thread_id.clone(),
        headers_json,
        label_ids_json: encode_labels(&full.label_ids),
        snippet: full.snippet.clone(),
        internal_date,
        synced_history_id: synced,
    }
}

} // verus!
