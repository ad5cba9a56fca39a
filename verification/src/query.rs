//! Views over the cached messages: the label filter of a listing.

use crate::cache::CachedMessage;
use crate::codec::{decode_labels, stored_labels};
use crate::text::{eq_ignore_case, list_entries, same_ignoring_case, split_list, texts};
use vstd::prelude::*;

verus! {

/// Some label of `labels` is `name`, the case of ASCII letters aside.
pub open spec fn carries(labels: Seq<Seq<char>>, name: Seq<char>) -> bool {
    exists|i: int| 0 <= i < labels.len() && same_ignoring_case(#[trigger] labels[i], name)
}

/// Some requested label is among `labels`.
pub open spec fn shares_label(labels: Seq<Seq<char>>, requested: Seq<Seq<char>>) -> bool {
    exists|j: int| 0 <= j < requested.len() && carries(labels, #[trigger] requested[j])
}

/// A message that is sent, in the trash or spam: it is no draft any more.
pub open spec fn left_drafts(labels: Seq<Seq<char>>) -> bool {
    carries(labels, "TRASH"@) || carries(labels, "SENT"@) || carries(labels, "SPAM"@)
}

/// Whether a listing for the labels `requested` keeps a message with the
/// labels `labels`: it carries a requested label; where drafts are asked
/// for, it is not sent, in the trash or spam; and it is in the trash only
/// where the trash is asked for.
pub open spec fn keeps(labels: Seq<Seq<char>>, requested: Seq<Seq<char>>) -> bool {
    &&& shares_label(labels, requested)
    &&& carries(requested, "DRAFT"@) ==> !left_drafts(labels)
    &&& !carries(requested, "TRASH"@) ==> !carries(labels, "TRASH"@)
}

/// Whether a listing for `requested` keeps the cached message `m`.
pub open spec fn selected(m: CachedMessage, requested: Seq<Seq<char>>) -> bool {
    keeps(stored_labels(m.label_ids_json@), requested)
}

/// The messages of `items` that a listing with the filter text `filter`
/// returns, in the order of `items`. A filter without a label returns all.
pub open spec fn selection(items: Seq<CachedMessage>, filter: Seq<char>) -> Seq<CachedMessage> {
    if list_entries(filter).len() == 0 {
        items
    } else {
        items.filter(|m: CachedMessage| selected(m, list_entries(filter)))
    }
}

/// Whether one of `labels` is `name`, the case of ASCII letters aside.
pub fn has_label(labels: &Vec<String>, name: &str) -> (r: bool)
    ensures
        r == carries(texts(labels@), name@),
{
    let mut i: usize = 0;
    while i < labels.len()
        invariant
            i <= labels.len(),
            forall|k: int| 0 <= k < i ==> !same_ignoring_case(#[trigger] texts(labels@)[k], name@),
        decreases labels.len() - i,
    {
        if eq_ignore_case(labels[i].as_str(), name) {
            proof {
                assert(same_ignoring_case(texts(labels@)[i as int], name@));
            }
            return true;
        }
        i += 1;
    }
    false
}

/// Whether one of the labels `requested` is among `labels`.
pub fn has_requested_label(labels: &Vec<String>, requested: &Vec<String>) -> (r: bool)
    ensures
        r == shares_label(texts(labels@), texts(requested@)),
{
    let mut j: usize = 0;
    while j < requested.len()
        invariant
            j <= requested.len(),
            forall|k: int|
                0 <= k < j ==> !carries(texts(labels@), #[trigger] texts(requested@)[k]),
        decreases requested.len() - j,
    {
        if has_label(labels, requested[j].as_str()) {
            proof {
                assert(carries(texts(labels@), texts(requested@)[j as int]));
            }
            return true;
        }
        j += 1;
    }
    false
}

/// Whether a listing for the labels `requested` keeps a message with the
/// labels `labels`.
pub fn keeps_message(labels: &Vec<String>, requested: &Vec<String>) -> (r: bool)
    ensures
        r == keeps(texts(labels@), texts(requested@)),
{
    if !has_requested_label(labels, requested) {
        return false;
    }
    let in_trash = has_label(labels, "TRASH");
    if has_label(requested, "DRAFT") {
        if in_trash || has_label(labels, "SENT") || has_label(labels, "SPAM") {
            return false;
        }
    }
    if !has_label(requested, "TRASH") && in_trash {
        return false;
    }
    true
}

/// The messages of `items` that carry one of the labels of the
/// comma-separated filter `label_ids`, in the order of `items`. An empty
/// filter returns every message.
pub fn filter_by_labels(items: &Vec<CachedMessage>, label_ids: &str) -> (r: Vec<CachedMessage>)
    ensures
        r@ == selection(items@, label_ids@),
{
    let requested = split_list(label_ids);
    let ghost wanted = list_entries(label_ids@);
    let ghost pred = |m: CachedMessage| selected(m, wanted);
    let mut out: Vec<CachedMessage> = Vec::new();
    let mut i: usize = 0;
    proof {
        reveal(Seq::filter);
        assert(items@.take(0).filter(pred) =~= Seq::<CachedMessage>::empty());
    }
    while i < items.len()
        invariant
            i <= items.len(),
            texts(requested@) == wanted,
            pred == |m: CachedMessage| selected(m, wanted),
            requested.len() == 0 ==> out@ == items@.take(i as int),
            requested.len() > 0 ==> out@ == items@.take(i as int).filter(pred),
        decreases items.len() - i,
    {
        let keep = if requested.len() == 0 {
            true
        } else {
            let labels = decode_labels(items[i].label_ids_json.as_str());
            keeps_message(&labels, &requested)
        };
        proof {
            reveal(Seq::filter);
            assert(items@.take(i + 1).drop_last() =~= items@.take(i as int));
            assert(items@.take(i + 1).last() == items@[i as int]);
            assert(items@.take(i + 1) =~= items@.take(i as int).push(items@[i as int]));
        }
        if keep {
            out.push(items[i].clone());
        }
        i += 1;
    }
    proof {
        assert(items@.take(i as int) == items@);
        assert(requested.len() == wanted.len());
    }
    out
}

/// A listing that asks for drafts keeps no message that is also sent, in
/// the trash or spam.
pub proof fn law_drafts_exclude_sent_trash_spam(labels: Seq<Seq<char>>, requested: Seq<Seq<char>>)
    requires
        carries(requested, "DRAFT"@),
        carries(labels, "SENT"@) || carries(labels, "TRASH"@) || carries(labels, "SPAM"@),
    ensures
        !keeps(labels, requested),
{
}

/// A listing that does not ask for the trash keeps no message that is in
/// the trash, whatever other labels the message carries.
pub proof fn law_trash_only_on_request(labels: Seq<Seq<char>>, requested: Seq<Seq<char>>)
    requires
        !carries(requested, "TRASH"@),
        carries(labels, "TRASH"@),
    ensures
        !keeps(labels, requested),
{
}

/// Every message of a listing with a label filter carries a requested
/// label; none is in the trash unless the filter asks for the trash, and
/// none is sent, in the trash or spam where the filter asks for drafts.
pub proof fn law_listing_obeys_filter(items: Seq<CachedMessage>, filter: Seq<char>, i: int)
    requires
        list_entries(filter).len() > 0,
        0 <= i < selection(items, filter).len(),
    ensures
        ({
            let labels = stored_labels(selection(items, filter)[i].label_ids_json@);
            let requested = list_entries(filter);
            &&& shares_label(labels, requested)
            &&& carries(requested, "DRAFT"@) ==> !carries(labels, "SENT"@) && !carries(
                labels,
                "TRASH"@,
            ) && !carries(labels, "SPAM"@)
            &&& !carries(requested, "TRASH"@) ==> !carries(labels, "TRASH"@)
        }),
{
    let pred = |m: CachedMessage| selected(m, list_entries(filter));
    items.lemma_filter_pred(pred, i);
}

} // verus!
