//! The remote change log: what a response to a change-log request says has
//! happened to which message, and the cursor that it hands out.

use crate::json::{
    integer, items, json_document, json_integer, json_items, json_member, json_text, member,
    parse_document, text,
};
use crate::status::{is_success, success_status};
use serde_json::Value;
use vstd::prelude::*;

verus! {

/// What the change log reports of a message.
#[derive(Debug, Clone, Copy, PartialEq, Eq)]
pub enum ChangeKind {
    /// The message was added to the mailbox.
    Added,
    /// The message was deleted from the mailbox.
    Deleted,
    /// Labels were added to the message or removed from it.
    LabelsChanged,
}

/// One entry of the change log.
#[derive(Debug, PartialEq, Eq)]
pub struct Change {
    pub kind: ChangeKind,
    pub message_id: String,
}

impl View for Change {
    type V = (ChangeKind, Seq<char>);

    open spec fn view(&self) -> (ChangeKind, Seq<char>) {
        (self.kind, self.message_id@)
    }
}

/// The entries of a list of changes as mathematical values, in order.
pub open spec fn change_views(s: Seq<Change>) -> Seq<(ChangeKind, Seq<char>)> {
    s.map_values(|c: Change| c@)
}

/// The elements of the array that `v` holds under `key`; none where `v`
/// has no such member or the member is no array.
pub open spec fn member_items(v: Value, key: Seq<char>) -> Seq<Value> {
    match json_member(v, key) {
        Some(x) => match json_items(x) {
            Some(s) => s,
            None => Seq::empty(),
        },
        None => Seq::empty(),
    }
}

/// The message id of a change-log entry: the string `id` of its member
/// `message`.
pub open spec fn entry_id(entry: Value) -> Option<Seq<char>> {
    match json_member(entry, "message"@) {
        Some(m) => match json_member(m, "id"@) {
            Some(id) => json_text(id),
            None => None,
        },
        None => None,
    }
}

/// The changes of kind `kind` that `entries` report: one for each entry
/// with a message id, in order.
pub open spec fn entry_changes(entries: Seq<Value>, kind: ChangeKind) -> Seq<
    (ChangeKind, Seq<char>),
>
    decreases entries.len(),
{
    if entries.len() == 0 {
        Seq::empty()
    } else {
        let rest = entry_changes(entries.drop_last(), kind);
        match entry_id(entries.last()) {
            Some(id) => rest.push((kind, id)),
            None => rest,
        }
    }
}

/// The changes of one record of the change log: its added messages, then
/// its deleted messages, then the messages that gained labels, then those
/// that lost labels.
pub open spec fn record_changes(record: Value) -> Seq<(ChangeKind, Seq<char>)> {
    entry_changes(member_items(record, "messagesAdded"@), ChangeKind::Added) + entry_changes(
        member_items(record, "messagesDeleted"@),
        ChangeKind::Deleted,
    ) + entry_changes(member_items(record, "labelsAdded"@), ChangeKind::LabelsChanged)
        + entry_changes(member_items(record, "labelsRemoved"@), ChangeKind::LabelsChanged)
}

/// The changes of a list of records, record by record.
pub open spec fn records_changes(records: Seq<Value>) -> Seq<(ChangeKind, Seq<char>)>
    decreases records.len(),
{
    if records.len() == 0 {
        Seq::empty()
    } else {
        records_changes(records.drop_last()) + record_changes(records.last())
    }
}

/// The changes that a change-log response reports, in the order in which
/// they are to be applied: the records of its member `history`.
pub open spec fn response_changes(doc: Value) -> Seq<(ChangeKind, Seq<char>)> {
    records_changes(member_items(doc, "history"@))
}

/// The cursor that a change-log response hands out: its member
/// `historyId`, where that is a string.
pub open spec fn response_cursor(doc: Value) -> Option<Seq<char>> {
    match json_member(doc, "historyId"@) {
        Some(h) => json_text(h),
        None => None,
    }
}

/// The member `historyId` of a change-log response as a number, where it
/// is one.
pub open spec fn response_history_number(doc: Value) -> Option<i64> {
    match json_member(doc, "historyId"@) {
        Some(h) => json_integer(h),
        None => None,
    }
}

fn items_under<'a>(v: &'a Value, key: &str) -> (r: Option<&'a Vec<Value>>)
    ensures
        match r {
            Some(e) => e@ == member_items(*v, key@),
            None => member_items(*v, key@).len() == 0,
        },
{
    match member(v, key) {
        Some(x) => items(x),
        None => None,
    }
}

fn id_of_entry(entry: &Value) -> (r: Option<String>)
    ensures
        match r {
            Some(id) => entry_id(*entry) == Some(id@),
            None => entry_id(*entry).is_none(),
        },
{
    match member(entry, "message") {
        Some(m) => match member(m, "id") {
            Some(id) => match text(id) {
                Some(t) => Some(t.to_owned()),
                None => None,
            },
            None => None,
        },
        None => None,
    }
}

/// Appends to `out` the changes of kind `kind` that the array under `key`
/// of `record` reports.
fn collect_entries(record: &Value, key: &str, kind: ChangeKind, out: &mut Vec<Change>)
    ensures
        change_views(final(out)@) == change_views(old(out)@) + entry_changes(
            member_items(*record, key@),
            kind,
        ),
{
    let ghost before = change_views(out@);
    let entries = match items_under(record, key) {
        Some(e) => e,
        None => {
            proof {
                assert(member_items(*record, key@) =~= Seq::<Value>::empty());
                assert(before + Seq::<(ChangeKind, Seq<char>)>::empty() =~= before);
            }
            return ;
        },
    };
    let mut i: usize = 0;
    proof {
        assert(entries@.take(0) =~= Seq::<Value>::empty());
        assert(before + Seq::<(ChangeKind, Seq<char>)>::empty() =~= before);
    }
    while i < entries.len()
        invariant
            i <= entries.len(),
            change_views(out@) == before + entry_changes(entries@.take(i as int), kind),
        decreases entries.len() - i,
    {
        proof {
            assert(entries@.take(i + 1).drop_last() =~= entries@.take(i as int));
            assert(entries@.take(i + 1).last() == entries@[i as int]);
        }
        match id_of_entry(&entries[i]) {
            Some(id) => {
                let ghost was = out@;
                let c = Change { kind, message_id: id };
                out.push(c);
                proof {
                    assert(change_views(out@) =~= change_views(was).push(c@));
                    assert(before + entry_changes(entries@.take(i as int), kind).push(c@) =~= (
                    before + entry_changes(entries@.take(i as int), kind)).push(c@));
                }
            },
            None => {},
        }
        i += 1;
    }
    proof {
        assert(entries@.take(i as int) == entries@);
    }
}

/// The changes that the change-log response `doc` reports, in the order in
/// which they are to be applied.
pub fn changes_of(doc: &Value) -> (r: Vec<Change>)
    ensures
        change_views(r@) == response_changes(*doc),
{
    let mut out: Vec<Change> = Vec::new();
    let records = match items_under(doc, "history") {
        Some(e) => e,
        None => {
            proof {
                assert(member_items(*doc, "history"@) =~= Seq::<Value>::empty());
                assert(change_views(out@) =~= Seq::<(ChangeKind, Seq<char>)>::empty());
            }
            return out;
        },
    };
    let mut i: usize = 0;
    proof {
        assert(records@.take(0) =~= Seq::<Value>::empty());
        assert(change_views(out@) =~= Seq::<(ChangeKind, Seq<char>)>::empty());
    }
    while i < records.len()
        invariant
            i <= records.len(),
            change_views(out@) == records_changes(records@.take(i as int)),
        decreases records.len() - i,
    {
        proof {
            assert(records@.take(i + 1).drop_last() =~= records@.take(i as int));
            assert(records@.take(i + 1).last() == records@[i as int]);
        }
        let ghost before = change_views(out@);
        let record = &records[i];
        collect_entries(record, "messagesAdded", ChangeKind::Added, &mut out);
        collect_entries(record, "messagesDeleted", ChangeKind::Deleted, &mut out);
        collect_entries(record, "labelsAdded", ChangeKind::LabelsChanged, &mut out);
        collect_entries(record, "labelsRemoved", ChangeKind::LabelsChanged, &mut out);
        proof {
            let a = entry_changes(member_items(*record, "messagesAdded"@), ChangeKind::Added);
            let d = entry_changes(member_items(*record, "messagesDeleted"@), ChangeKind::Deleted);
            let la = entry_changes(
                member_items(*record, "labelsAdded"@),
                ChangeKind::LabelsChanged,
            );
            let lr = entry_changes(
                member_items(*record, "labelsRemoved"@),
                ChangeKind::LabelsChanged,
            );
            assert((((before + a) + d) + la) + lr =~= before + (((a + d) + la) + lr));
        }
        i += 1;
    }
    proof {
        assert(records@.take(i as int) == records@);
    }
    out
}

/// The cursor that the change-log response `doc` hands out.
pub fn cursor_of(doc: &Value) -> (r: Option<String>)
    ensures
        match r {
            Some(c) => response_cursor(*doc) == Some(c@),
            None => response_cursor(*doc).is_none(),
        },
{
    match member(doc, "historyId") {
        Some(h) => match text(h) {
            Some(t) => Some(t.to_owned()),
            None => None,
        },
        None => None,
    }
}

/// The member `historyId` of the change-log response `doc` as a number.
pub fn history_number_of(doc: &Value) -> (r: Option<i64>)
    ensures
        r == response_history_number(*doc),
{
    match member(doc, "historyId") {
        Some(h) => integer(h),
        None => None,
    }
}

/// The cursor that an answer to a request for the profile of the mailbox
/// reports: the string member `historyId` of the JSON body of a
/// successful answer.
pub open spec fn reported_baseline(status: u16, body: Seq<char>) -> Option<Seq<char>> {
    if success_status(status) {
        match json_document(body) {
            Some(doc) => response_cursor(doc),
            None => None,
        }
    } else {
        None
    }
}

/// The current cursor of the mailbox, as the answer with the status
/// `status` and the body `body` reports it.
pub fn baseline_of(status: u16, body: &str) -> (r: Option<String>)
    ensures
        match r {
            Some(c) => reported_baseline(status, body@) == Some(c@),
            None => reported_baseline(status, body@).is_none(),
        },
{
    if !is_success(status) {
        return None;
    }
    match parse_document(body) {
        Some(doc) => cursor_of(&doc),
        None => None,
    }
}

} // verus!
