//! Counters over the cached messages: how many messages carry each label,
//! and how many of them are unread.

use crate::cache::CachedMessage;
use crate::codec::{decode_headers, decode_labels, stored_headers, stored_labels};
use crate::json::{integer, json_document, json_integer, json_member, member, parse_document};
use crate::listing::{find_header, header_value};
use crate::query::{carries, has_label, left_drafts};
use crate::text::{eq_ignore_case, same_ignoring_case, same_text, texts};
use crate::types::{GmailLabelResponse, MailboxStat, MailboxStats, TodayStats};
use chrono::DateTime;
use vstd::prelude::*;

verus! {

/// One label on one message: the label, whether the message counts for
/// it, and whether the message is unread. A message that is sent, in the
/// trash or spam does not count as a draft.
pub struct Occurrence {
    pub label: Seq<char>,
    pub counts: bool,
    pub unread: bool,
}

/// The occurrences of the labels of one message, in the order of its
/// labels.
pub open spec fn message_occurrences(labels: Seq<Seq<char>>) -> Seq<Occurrence> {
    Seq::new(
        labels.len(),
        |j: int|
            Occurrence {
                label: labels[j],
                counts: !(same_ignoring_case(labels[j], "DRAFT"@) && left_drafts(labels)),
                unread: carries(labels, "UNREAD"@),
            },
    )
}

/// The occurrences of the labels of the messages `messages`, message by
/// message.
pub open spec fn all_occurrences(messages: Seq<Seq<Seq<char>>>) -> Seq<Occurrence>
    decreases messages.len(),
{
    if messages.len() == 0 {
        Seq::empty()
    } else {
        all_occurrences(messages.drop_last()) + message_occurrences(messages.last())
    }
}

/// How many occurrences of `label` count.
pub open spec fn total_in(occurrences: Seq<Occurrence>, label: Seq<char>) -> nat
    decreases occurrences.len(),
{
    if occurrences.len() == 0 {
        0
    } else {
        let o = occurrences.last();
        total_in(occurrences.drop_last(), label) + if o.label == label && o.counts {
            1nat
        } else {
            0nat
        }
    }
}

/// How many occurrences of `label` count and are unread.
pub open spec fn unread_in(occurrences: Seq<Occurrence>, label: Seq<char>) -> nat
    decreases occurrences.len(),
{
    if occurrences.len() == 0 {
        0
    } else {
        let o = occurrences.last();
        unread_in(occurrences.drop_last(), label) + if o.label == label && o.counts && o.unread {
            1nat
        } else {
            0nat
        }
    }
}

/// Whether `label` occurs at all.
pub open spec fn named_in(occurrences: Seq<Occurrence>, label: Seq<char>) -> bool {
    exists|k: int| 0 <= k < occurrences.len() && (#[trigger] occurrences[k]).label == label
}

/// A count as a counter holds it: the count itself, or the largest `i64`
/// where the count is larger.
pub open spec fn capped(n: nat) -> i64 {
    if n <= i64::MAX {
        n as i64
    } else {
        i64::MAX
    }
}

/// The labels of the cached messages `items`, message by message.
pub open spec fn labels_of(items: Seq<CachedMessage>) -> Seq<Seq<Seq<char>>> {
    items.map_values(|m: CachedMessage| stored_labels(m.label_ids_json@))
}

/// Whether some entry of `stats` stands under the id `label`.
pub open spec fn has_entry(stats: Seq<MailboxStat>, label: Seq<char>) -> bool {
    exists|i: int| 0 <= i < stats.len() && (#[trigger] stats[i]).id@ == label
}

/// No id stands twice in `stats`.
pub open spec fn ids_distinct(stats: Seq<MailboxStat>) -> bool {
    forall|a: int, b: int|
        0 <= a < b < stats.len() ==> (#[trigger] stats[a]).id@ != (#[trigger] stats[b]).id@
}

/// Each entry of `stats` stands under a label that occurs, as id and as
/// name, and holds the number of its occurrences that count and the
/// number of those that are unread.
pub open spec fn entries_right(stats: Seq<MailboxStat>, occurrences: Seq<Occurrence>) -> bool {
    forall|k: int|
        0 <= k < stats.len() ==> {
            let s = #[trigger] stats[k];
            &&& s.name@ == s.id@
            &&& named_in(occurrences, s.id@)
            &&& s.total == capped(total_in(occurrences, s.id@))
            &&& s.unread == capped(unread_in(occurrences, s.id@))
        }
}

/// Each label that occurs has an entry in `stats`.
pub open spec fn labels_covered(stats: Seq<MailboxStat>, occurrences: Seq<Occurrence>) -> bool {
    forall|k: int|
        0 <= k < occurrences.len() ==> has_entry(stats, (#[trigger] occurrences[k]).label)
}

/// Whether `stats` holds the counters of `occurrences`: one entry for each
/// label that occurs and for no other, under the label as id and name,
/// with the number of its occurrences that count and the number of those
/// that are unread.
pub open spec fn counts(stats: Seq<MailboxStat>, occurrences: Seq<Occurrence>) -> bool {
    &&& ids_distinct(stats)
    &&& entries_right(stats, occurrences)
    &&& labels_covered(stats, occurrences)
}

proof fn lemma_unnamed_counts_nothing(occurrences: Seq<Occurrence>, label: Seq<char>)
    requires
        !named_in(occurrences, label),
    ensures
        total_in(occurrences, label) == 0,
        unread_in(occurrences, label) == 0,
    decreases occurrences.len(),
{
    if occurrences.len() > 0 {
        let rest = occurrences.drop_last();
        assert(occurrences[occurrences.len() - 1].label != label);
        assert forall|k: int| 0 <= k < rest.len() implies (#[trigger] rest[k]).label != label by {
            assert(occurrences[k].label != label);
        }
        lemma_unnamed_counts_nothing(rest, label);
    }
}

/// An occurrence of another label changes nothing for `label`.
proof fn lemma_other_label(occurrences: Seq<Occurrence>, o: Occurrence, label: Seq<char>)
    requires
        o.label != label,
    ensures
        total_in(occurrences.push(o), label) == total_in(occurrences, label),
        unread_in(occurrences.push(o), label) == unread_in(occurrences, label),
        named_in(occurrences, label) ==> named_in(occurrences.push(o), label),
{
    let more = occurrences.push(o);
    assert(more.drop_last() =~= occurrences);
    if named_in(occurrences, label) {
        let w = choose|w: int| 0 <= w < occurrences.len() && (#[trigger] occurrences[w]).label
            == label;
        assert(more[w].label == label);
    }
}

/// What relates counters before and after one occurrence is counted: the
/// entry at `at` is that of the label, brought up to date or added; the
/// other entries are as before.
spec fn one_entry_changed(
    stats: Seq<MailboxStat>,
    after: Seq<MailboxStat>,
    at: int,
    label: Seq<char>,
) -> bool {
    &&& 0 <= at <= stats.len()
    &&& after.len() == if at < stats.len() {
        stats.len()
    } else {
        stats.len() + 1
    }
    &&& forall|k: int| 0 <= k < stats.len() && k != at ==> #[trigger] after[k] == stats[k]
    &&& at < stats.len() ==> stats[at].id@ == label
    &&& at == stats.len() ==> !has_entry(stats, label)
    &&& after[at].id@ == label
}

proof fn lemma_ids_stay_distinct(
    stats: Seq<MailboxStat>,
    after: Seq<MailboxStat>,
    at: int,
    label: Seq<char>,
)
    requires
        ids_distinct(stats),
        one_entry_changed(stats, after, at, label),
    ensures
        ids_distinct(after),
{
    assert forall|a: int, b: int| 0 <= a < b < after.len() implies (#[trigger] after[a]).id@ != (
    #[trigger] after[b]).id@ by {
        if a != at && b != at {
            assert(after[a] == stats[a] && after[b] == stats[b]);
        } else if at < stats.len() {
            let o = if a == at { b } else { a };
            assert(after[o] == stats[o]);
            assert(stats[a].id@ != stats[b].id@);
        } else {
            assert(after[a] == stats[a]);
            assert(stats[a].id@ != label);
        }
    }
}

proof fn lemma_entries_stay_right(
    stats: Seq<MailboxStat>,
    occurrences: Seq<Occurrence>,
    o: Occurrence,
    after: Seq<MailboxStat>,
    at: int,
)
    requires
        ids_distinct(stats),
        entries_right(stats, occurrences),
        one_entry_changed(stats, after, at, o.label),
        after[at].name@ == o.label,
        after[at].total == capped(total_in(occurrences.push(o), o.label)),
        after[at].unread == capped(unread_in(occurrences.push(o), o.label)),
    ensures
        entries_right(after, occurrences.push(o)),
{
    let more = occurrences.push(o);
    assert forall|k: int| 0 <= k < after.len() implies {
        let s = #[trigger] after[k];
        &&& s.name@ == s.id@
        &&& named_in(more, s.id@)
        &&& s.total == capped(total_in(more, s.id@))
        &&& s.unread == capped(unread_in(more, s.id@))
    } by {
        if k == at {
            assert(more[occurrences.len() as int].label == o.label);
        } else {
            assert(after[k] == stats[k]);
            if at < stats.len() {
                if k < at {
                    assert(stats[k].id@ != stats[at].id@);
                } else {
                    assert(stats[at].id@ != stats[k].id@);
                }
            }
            lemma_other_label(occurrences, o, stats[k].id@);
        }
    }
}

proof fn lemma_labels_stay_covered(
    stats: Seq<MailboxStat>,
    occurrences: Seq<Occurrence>,
    o: Occurrence,
    after: Seq<MailboxStat>,
    at: int,
)
    requires
        labels_covered(stats, occurrences),
        one_entry_changed(stats, after, at, o.label),
    ensures
        labels_covered(after, occurrences.push(o)),
{
    let more = occurrences.push(o);
    assert forall|k: int| 0 <= k < more.len() implies has_entry(
        after,
        (#[trigger] more[k]).label,
    ) by {
        if k == occurrences.len() {
            assert(after[at].id@ == more[k].label);
        } else {
            assert(more[k] == occurrences[k]);
            assert(has_entry(stats, occurrences[k].label));
            let i = choose|i: int|
                0 <= i < stats.len() && (#[trigger] stats[i]).id@ == occurrences[k].label;
            if i == at {
                assert(after[at].id@ == more[k].label);
            } else {
                assert(after[i] == stats[i]);
            }
        }
    }
}

/// A counter one higher, unless it holds the largest `i64` already.
fn one_more(n: i64) -> (r: i64)
    ensures
        r == if n < i64::MAX {
            n + 1
        } else {
            n as int
        },
{
    if n < i64::MAX {
        n + 1
    } else {
        n
    }
}

/// Counts one occurrence of `label` in `stats`.
fn count_occurrence(
    stats: &mut Vec<MailboxStat>,
    label: &str,
    counted: bool,
    unread: bool,
    Ghost(occurrences): Ghost<Seq<Occurrence>>,
)
    requires
        counts(old(stats)@, occurrences),
    ensures
        counts(
            final(stats)@,
            occurrences.push(Occurrence { label: label@, counts: counted, unread }),
        ),
{
    let ghost o = Occurrence { label: label@, counts: counted, unread };
    let ghost before = stats@;
    let mut at: usize = 0;
    while at < stats.len() && !same_text(stats[at].id.as_str(), label)
        invariant
            at <= stats.len(),
            forall|k: int| 0 <= k < at ==> (#[trigger] stats[k]).id@ != label@,
        decreases stats.len() - at,
    {
        at += 1;
    }
    let (total, unread_count) = if at < stats.len() {
        (stats[at].total, stats[at].unread)
    } else {
        proof {
            if named_in(occurrences, label@) {
                let w = choose|w: int|
                    0 <= w < occurrences.len() && (#[trigger] occurrences[w]).label == label@;
                assert(has_entry(stats@, occurrences[w].label));
            }
            lemma_unnamed_counts_nothing(occurrences, label@);
        }
        (0, 0)
    };
    let entry = MailboxStat {
        id: label.to_owned(),
        name: label.to_owned(),
        total: if counted {
            one_more(total)
        } else {
            total
        },
        unread: if counted && unread {
            one_more(unread_count)
        } else {
            unread_count
        },
    };
    proof {
        let more = occurrences.push(o);
        assert(more.drop_last() =~= occurrences);
        assert(more.last() == o);
    }
    if at < stats.len() {
        stats.set(at, entry);
    } else {
        stats.push(entry);
    }
    proof {
        assert(one_entry_changed(before, stats@, at as int, label@));
        lemma_ids_stay_distinct(before, stats@, at as int, label@);
        lemma_entries_stay_right(before, occurrences, o, stats@, at as int);
        lemma_labels_stay_covered(before, occurrences, o, stats@, at as int);
    }
}

/// The counters of the labels of the cached messages `items`. A message
/// counts once for each of its labels; it counts as a draft only while
/// it is not sent, in the trash or spam. A counter stops at the largest
/// `i64`.
pub fn mailbox_stats(items: &Vec<CachedMessage>) -> (r: MailboxStats)
    ensures
        counts(r.stats@, all_occurrences(labels_of(items@))),
{
    let mut stats: Vec<MailboxStat> = Vec::new();
    let mut i: usize = 0;
    proof {
        assert(labels_of(items@).take(0) =~= Seq::<Seq<Seq<char>>>::empty());
    }
    while i < items.len()
        invariant
            i <= items.len(),
            counts(stats@, all_occurrences(labels_of(items@).take(i as int))),
        decreases items.len() - i,
    {
        let labels = decode_labels(items[i].label_ids_json.as_str());
        let unread = has_label(&labels, "UNREAD");
        let gone = has_label(&labels, "TRASH") || has_label(&labels, "SENT") || has_label(
            &labels,
            "SPAM",
        );
        let ghost done = all_occurrences(labels_of(items@).take(i as int));
        let ghost these = message_occurrences(texts(labels@));
        let mut j: usize = 0;
        proof {
            assert(done + these.take(0) =~= done);
        }
        while j < labels.len()
            invariant
                j <= labels.len(),
                these == message_occurrences(texts(labels@)),
                unread == carries(texts(labels@), "UNREAD"@),
                gone == left_drafts(texts(labels@)),
                counts(stats@, done + these.take(j as int)),
            decreases labels.len() - j,
        {
            let label = labels[j].as_str();
            let counted = !(eq_ignore_case(label, "DRAFT") && gone);
            proof {
                assert(texts(labels@)[j as int] == label@);
                assert(these[j as int] == Occurrence { label: label@, counts: counted, unread });
                assert(done + these.take(j + 1) =~= (done + these.take(j as int)).push(
                    these[j as int],
                ));
            }
            count_occurrence(
                &mut stats,
                label,
                counted,
                unread,
                Ghost(done + these.take(j as int)),
            );
            j += 1;
        }
        proof {
            assert(these.take(j as int) =~= these);
            let messages = labels_of(items@);
            assert(messages.take(i + 1).drop_last() =~= messages.take(i as int));
            assert(messages.take(i + 1).last() == texts(labels@));
        }
        i += 1;
    }
    proof {
        assert(labels_of(items@).take(i as int) == labels_of(items@));
    }
    MailboxStats { stats }
}

/// The counters that the remote service reports of a label; a counter
/// that it leaves out is 0.
pub fn label_stat(label: GmailLabelResponse) -> (r: MailboxStat)
    ensures
        r.id@ == label.id@,
        r.name@ == label.name@,
        r.total == match label.messages_total {
            Some(n) => n,
            None => 0,
        },
        r.unread == match label.messages_unread {
            Some(n) => n,
            None => 0,
        },
{
    MailboxStat {
        id: label.id,
        name: label.name,
        total: match label.messages_total {
            Some(n) => n,
            None => 0,
        },
        unread: match label.messages_unread {
            Some(n) => n,
            None => 0,
        },
    }
}

/// The instant that `text` names as a date in the format of RFC 2822, in
/// seconds since the epoch, as `chrono` reads it; `None` where `chrono`
/// rejects the text.
pub uninterp spec fn rfc2822_timestamp(text: Seq<char>) -> Option<i64>;

/// Wraps `chrono::DateTime::parse_from_rfc2822`, and `DateTime::timestamp`
/// on what it returns.
#[verifier::external_body]
pub(crate) fn parse_rfc2822(text: &str) -> (r: Option<i64>)
    ensures
        r == rfc2822_timestamp(text@),
{
    DateTime::parse_from_rfc2822(text).ok().map(|d| d.timestamp())
}

/// Whether the header `Date` of a message with the headers `headers`
/// names an instant at or after `day_start`.
pub open spec fn dated_from(headers: Seq<(Seq<char>, Seq<char>)>, day_start: i64) -> bool {
    match rfc2822_timestamp(header_value(headers, "Date"@)) {
        Some(t) => t >= day_start,
        None => false,
    }
}

/// Whether the cached message `m` is dated at or after `day_start`.
pub open spec fn is_recent(m: CachedMessage, day_start: i64) -> bool {
    dated_from(stored_headers(m.headers_json@), day_start)
}

/// Whether the cached message `m` is dated at or after `day_start` and
/// unread.
pub open spec fn is_recent_unread(m: CachedMessage, day_start: i64) -> bool {
    is_recent(m, day_start) && carries(stored_labels(m.label_ids_json@), "UNREAD"@)
}

/// Whether the header `Date` of `m` names an instant at or after
/// `day_start`, in seconds since the epoch.
pub fn dated_since(m: &CachedMessage, day_start: i64) -> (r: bool)
    ensures
        r == is_recent(*m, day_start),
{
    let headers = decode_headers(m.headers_json.as_str());
    let date = find_header(&headers, "Date");
    match parse_rfc2822(date.as_str()) {
        Some(t) => t >= day_start,
        None => false,
    }
}

/// A number of messages as a counter.
fn as_counter(n: usize) -> (r: i64)
    ensures
        r == capped(n as nat),
{
    let wide = n as u64;
    if wide > 0x7fff_ffff_ffff_ffff {
        i64::MAX
    } else {
        wide as i64
    }
}

/// How many of the cached messages `items` are dated today, and how many
/// of those are unread. `day_start` is the start of the day, in seconds
/// since the epoch; a message is dated by its header `Date`.
pub fn today_stats(items: &Vec<CachedMessage>, day_start: i64) -> (r: TodayStats)
    ensures
        r.total_today == capped(items@.filter(|m: CachedMessage| is_recent(m, day_start)).len()),
        r.unread_today == capped(
            items@.filter(|m: CachedMessage| is_recent_unread(m, day_start)).len(),
        ),
{
    let ghost recent = |m: CachedMessage| is_recent(m, day_start);
    let ghost unread = |m: CachedMessage| is_recent_unread(m, day_start);
    let mut total: usize = 0;
    let mut unread_total: usize = 0;
    let mut i: usize = 0;
    proof {
        reveal(Seq::filter);
        assert(items@.take(0) =~= Seq::<CachedMessage>::empty());
    }
    while i < items.len()
        invariant
            i <= items.len(),
            recent == |m: CachedMessage| is_recent(m, day_start),
            unread == |m: CachedMessage| is_recent_unread(m, day_start),
            unread_total <= total <= i,
            total == items@.take(i as int).filter(recent).len(),
            unread_total == items@.take(i as int).filter(unread).len(),
        decreases items.len() - i,
    {
        proof {
            reveal(Seq::filter);
            assert(items@.take(i + 1).drop_last() =~= items@.take(i as int));
            assert(items@.take(i + 1).last() == items@[i as int]);
        }
        if dated_since(&items[i], day_start) {
            total += 1;
            let labels = decode_labels(items[i].label_ids_json.as_str());
            if has_label(&labels, "UNREAD") {
                unread_total += 1;
            }
        }
        i += 1;
    }
    proof {
        assert(items@.take(i as int) == items@);
    }
    TodayStats { total_today: as_counter(total), unread_today: as_counter(unread_total) }
}

/// The number that the JSON document `doc` holds under `key`, or 0.
pub open spec fn counter_under(doc: serde_json::Value, key: Seq<char>) -> i64 {
    match json_member(doc, key) {
        Some(v) => match json_integer(v) {
            Some(n) => n,
            None => 0,
        },
        None => 0,
    }
}

fn counter_of(doc: &serde_json::Value, key: &str) -> (r: i64)
    ensures
        r == counter_under(*doc, key@),
{
    match member(doc, key) {
        Some(v) => match integer(v) {
            Some(n) => n,
            None => 0,
        },
        None => 0,
    }
}

/// The counters of today that another service reports in the JSON text
/// `body`, under `totalToday` and `unreadToday`; a counter that is left
/// out is 0. `None` where `body` is no JSON document.
pub fn reported_today_stats(body: &str) -> (r: Option<TodayStats>)
    ensures
        match json_document(body@) {
            Some(doc) => r == Some(
                TodayStats {
                    total_today: counter_under(doc, "totalToday"@),
                    unread_today: counter_under(doc, "unreadToday"@),
                },
            ),
            None => r.is_none(),
        },
{
    match parse_document(body) {
        Some(doc) => Some(
            TodayStats {
                total_today: counter_of(&doc, "totalToday"),
                unread_today: counter_of(&doc, "unreadToday"),
            },
        ),
        None => None,
    }
}

} // verus!
