//! The order of a listing of cached messages and their grouping into
//! threads.

use crate::cache::{message_ids, message_views, CachedMessage, CachedMessageView};
use crate::table::{distinct, lemma_table_at, table};
use vstd::prelude::*;

verus! {

/// `list` holds the rows of `rows`, each of them once.
pub open spec fn lists_rows(
    list: Seq<CachedMessage>,
    rows: Map<Seq<char>, CachedMessageView>,
) -> bool {
    &&& forall|i: int|
        0 <= i < list.len() ==> rows.contains_key((#[trigger] list[i]).message_id@)
            && rows[list[i].message_id@] == list[i]@
    &&& distinct(message_ids(list))
    &&& forall|id: Seq<char>|
        rows.contains_key(id) ==> exists|i: int|
            0 <= i < list.len() && (#[trigger] list[i]).message_id@ == id
}

/// The receipt times of `list` never rise from one message to the next.
pub open spec fn newest_first(list: Seq<CachedMessage>) -> bool {
    forall|i: int, j: int|
        0 <= i <= j < list.len() ==> (#[trigger] list[i]).internal_date >= (
        #[trigger] list[j]).internal_date
}

/// The receipt times of `list` never fall from one message to the next.
pub open spec fn oldest_first(list: Seq<CachedMessage>) -> bool {
    forall|i: int, j: int|
        0 <= i <= j < list.len() ==> (#[trigger] list[i]).internal_date <= (
        #[trigger] list[j]).internal_date
}

/// The threads partition the rows of `rows` by thread id: every message of
/// a thread is a stored row with the thread's id, every stored row stands in
/// a thread, no thread id occurs twice and no message occurs twice in a
/// thread.
pub open spec fn groups_rows(
    threads: Seq<(String, Vec<CachedMessage>, i64)>,
    rows: Map<Seq<char>, CachedMessageView>,
) -> bool {
    &&& forall|k: int, j: int|
        0 <= k < threads.len() && 0 <= j < threads[k].1.len() ==> {
            let m = #[trigger] threads[k].1[j];
            &&& rows.contains_key(m.message_id@)
            &&& rows[m.message_id@] == m@
            &&& m.thread_id@ == threads[k].0@
        }
    &&& forall|id: Seq<char>|
        rows.contains_key(id) ==> exists|k: int, j: int|
            0 <= k < threads.len() && 0 <= j < threads[k].1.len() && (
            #[trigger] threads[k].1[j]).message_id@ == id
    &&& forall|a: int, b: int|
        0 <= a < b < threads.len() ==> (#[trigger] threads[a]).0@ != (#[trigger] threads[b]).0@
    &&& forall|k: int| 0 <= k < threads.len() ==> distinct(message_ids((#[trigger] threads[k]).1@))
}

/// Every thread holds a message, lists its messages oldest first and
/// carries the receipt time of its newest message; the threads follow each
/// other by that time, newest first.
pub open spec fn threads_in_order(threads: Seq<(String, Vec<CachedMessage>, i64)>) -> bool {
    &&& forall|k: int|
        0 <= k < threads.len() ==> {
            let t = #[trigger] threads[k];
            &&& t.1.len() > 0
            &&& oldest_first(t.1@)
            &&& t.2 == t.1@.last().internal_date
        }
    &&& forall|a: int, b: int|
        0 <= a <= b < threads.len() ==> (#[trigger] threads[a]).2 >= (#[trigger] threads[b]).2
}


/// Each list holds every message of the other.
pub(crate) open spec fn same_members(a: Seq<CachedMessage>, b: Seq<CachedMessage>) -> bool {
    &&& forall|i: int| 0 <= i < a.len() ==> b.contains(#[trigger] a[i])
    &&& forall|j: int| 0 <= j < b.len() ==> a.contains(#[trigger] b[j])
}

pub(crate) proof fn lemma_insert_keeps_order(list: Seq<CachedMessage>, p: int, m: CachedMessage)
    requires
        newest_first(list),
        0 <= p <= list.len(),
        forall|a: int| 0 <= a < p ==> (#[trigger] list[a]).internal_date >= m.internal_date,
        p < list.len() ==> list[p].internal_date < m.internal_date,
    ensures
        newest_first(list.insert(p, m)),
{
    let after = list.insert(p, m);
    assert forall|a: int, b: int| 0 <= a <= b < after.len() implies (
    #[trigger] after[a]).internal_date >= (#[trigger] after[b]).internal_date by {
        let a0 = if a < p { a } else { a - 1 };
        let b0 = if b < p { b } else { b - 1 };
        if a != p && b != p {
            assert(after[a] == list[a0] && after[b] == list[b0]);
        } else if a == p && b != p {
            assert(after[b] == list[b0]);
            assert(list[p].internal_date >= list[b0].internal_date);
        } else if b == p && a != p {
            assert(after[a] == list[a0]);
        }
    }
}

pub(crate) proof fn lemma_insert_keeps_members(
    list: Seq<CachedMessage>,
    p: int,
    src: Seq<CachedMessage>,
    k: int,
)
    requires
        0 <= p <= list.len(),
        0 <= k < src.len(),
        same_members(list, src.take(k)),
    ensures
        same_members(list.insert(p, src[k]), src.take(k + 1)),
{
    let after = list.insert(p, src[k]);
    let more = src.take(k + 1);
    assert forall|i: int| 0 <= i < after.len() implies more.contains(#[trigger] after[i]) by {
        if i == p {
            assert(more[k] == after[i]);
        } else {
            let i0 = if i < p { i } else { i - 1 };
            assert(after[i] == list[i0]);
            assert(src.take(k).contains(list[i0]));
            let j = choose|j: int| 0 <= j < k && src.take(k)[j] == list[i0];
            assert(more[j] == after[i]);
        }
    }
    assert forall|j: int| 0 <= j < more.len() implies after.contains(#[trigger] more[j]) by {
        if j == k {
            assert(after[p] == more[j]);
        } else {
            assert(src.take(k)[j] == more[j]);
            assert(list.contains(src.take(k)[j]));
            let i0 = choose|i: int| 0 <= i < list.len() && list[i] == more[j];
            let i = if i0 < p { i0 } else { i0 + 1 };
            assert(after[i] == more[j]);
        }
    }
}

pub(crate) proof fn lemma_insert_keeps_distinct(
    list: Seq<CachedMessage>,
    p: int,
    src: Seq<CachedMessage>,
    k: int,
)
    requires
        0 <= p <= list.len(),
        0 <= k < src.len(),
        same_members(list, src.take(k)),
        distinct(message_ids(list)),
        distinct(message_ids(src)),
    ensures
        distinct(message_ids(list.insert(p, src[k]))),
{
    let after = list.insert(p, src[k]);
    assert forall|a: int, b: int| 0 <= a < b < after.len() implies message_ids(after)[a]
        != message_ids(after)[b] by {
        let a0 = if a < p { a } else { a - 1 };
        let b0 = if b < p { b } else { b - 1 };
        if a != p && b != p {
            assert(after[a] == list[a0] && after[b] == list[b0]);
            assert(message_ids(list)[a0] != message_ids(list)[b0]);
        } else {
            let o = if a == p { b } else { a };
            let o0 = if o < p { o } else { o - 1 };
            assert(after[o] == list[o0]);
            assert(src.take(k).contains(list[o0]));
            let j = choose|j: int| 0 <= j < k && src.take(k)[j] == list[o0];
            assert(message_ids(src)[j] != message_ids(src)[k]);
        }
    }
}

pub(crate) proof fn lemma_members_list_rows(list: Seq<CachedMessage>, src: Seq<CachedMessage>)
    requires
        same_members(list, src),
        distinct(message_ids(list)),
        distinct(message_ids(src)),
    ensures
        lists_rows(list, table(message_ids(src), message_views(src))),
{
    let keys = message_ids(src);
    let vals = message_views(src);
    let rows = table(keys, vals);
    assert forall|i: int| 0 <= i < list.len() implies rows.contains_key(
        (#[trigger] list[i]).message_id@,
    ) && rows[list[i].message_id@] == list[i]@ by {
        assert(src.contains(list[i]));
        let j = choose|j: int| 0 <= j < src.len() && src[j] == list[i];
        lemma_table_at(keys, vals, j);
    }
    assert forall|id: Seq<char>| rows.contains_key(id) implies exists|i: int|
        0 <= i < list.len() && (#[trigger] list[i]).message_id@ == id by {
        let j = choose|j: int| 0 <= j < keys.len() && keys[j] == id;
        assert(list.contains(src[j]));
        let i = choose|i: int| 0 <= i < list.len() && list[i] == src[j];
        assert(list[i].message_id@ == id);
    }
}


/// Some thread holds the message `m`.
spec fn in_thread(threads: Seq<(String, Vec<CachedMessage>, i64)>, m: CachedMessage) -> bool {
    exists|k: int, j: int|
        0 <= k < threads.len() && 0 <= j < threads[k].1.len() && #[trigger] threads[k].1[j] == m
}

/// Every message of a thread is among the first `i` of `all` and carries
/// the thread's id.
spec fn members_known(
    threads: Seq<(String, Vec<CachedMessage>, i64)>,
    all: Seq<CachedMessage>,
    i: int,
) -> bool {
    forall|k: int, j: int|
        0 <= k < threads.len() && 0 <= j < threads[k].1.len() ==> all.take(i).contains(
            #[trigger] threads[k].1[j],
        ) && threads[k].1[j].thread_id@ == threads[k].0@
}

/// Each of the first `i` messages of `all` stands in a thread.
spec fn covers(
    threads: Seq<(String, Vec<CachedMessage>, i64)>,
    all: Seq<CachedMessage>,
    i: int,
) -> bool {
    forall|p: int| 0 <= p < i ==> in_thread(threads, #[trigger] all[p])
}

spec fn thread_ids_distinct(threads: Seq<(String, Vec<CachedMessage>, i64)>) -> bool {
    forall|a: int, b: int|
        0 <= a < b < threads.len() ==> (#[trigger] threads[a]).0@ != (#[trigger] threads[b]).0@
}

spec fn thread_messages_distinct(threads: Seq<(String, Vec<CachedMessage>, i64)>) -> bool {
    forall|k: int| 0 <= k < threads.len() ==> distinct(message_ids((#[trigger] threads[k]).1@))
}

/// The threads group the first `i` messages of `all`.
#[verifier::opaque]
pub(crate) closed spec fn grouped(
    threads: Seq<(String, Vec<CachedMessage>, i64)>,
    all: Seq<CachedMessage>,
    i: int,
) -> bool {
    &&& members_known(threads, all, i)
    &&& covers(threads, all, i)
    &&& thread_ids_distinct(threads)
    &&& thread_messages_distinct(threads)
    &&& threads_in_order(threads)
}

pub(crate) proof fn lemma_group_none(all: Seq<CachedMessage>)
    ensures
        grouped(Seq::empty(), all, 0),
{
    reveal(grouped);
}

/// The receipt time of a thread's message is no earlier than that of
/// `all[i]`, where `all` is sorted newest first.
proof fn lemma_member_not_older(
    threads: Seq<(String, Vec<CachedMessage>, i64)>,
    all: Seq<CachedMessage>,
    i: int,
    k: int,
    j: int,
)
    requires
        0 <= i < all.len(),
        newest_first(all),
        members_known(threads, all, i),
        0 <= k < threads.len(),
        0 <= j < threads[k].1.len(),
    ensures
        threads[k].1[j].internal_date >= all[i].internal_date,
        distinct(message_ids(all)) ==> threads[k].1[j].message_id@ != all[i].message_id@,
{
    assert(all.take(i).contains(threads[k].1[j]));
    let p = choose|p: int| 0 <= p < i && all.take(i)[p] == threads[k].1[j];
    assert(all[p].internal_date >= all[i].internal_date);
    if distinct(message_ids(all)) {
        assert(message_ids(all)[p] != message_ids(all)[i]);
    }
}

proof fn lemma_members_grow(
    threads: Seq<(String, Vec<CachedMessage>, i64)>,
    all: Seq<CachedMessage>,
    i: int,
)
    requires
        0 <= i < all.len(),
        members_known(threads, all, i),
    ensures
        members_known(threads, all, i + 1),
{
    assert forall|k: int, j: int|
        0 <= k < threads.len() && 0 <= j < threads[k].1.len() implies all.take(i + 1).contains(
        #[trigger] threads[k].1[j],
    ) by {
        assert(all.take(i).contains(threads[k].1[j]));
        let p = choose|p: int| 0 <= p < i && all.take(i)[p] == threads[k].1[j];
        assert(all.take(i + 1)[p] == threads[k].1[j]);
    }
}

pub(crate) proof fn lemma_group_new_thread(
    threads: Seq<(String, Vec<CachedMessage>, i64)>,
    all: Seq<CachedMessage>,
    i: int,
    t: (String, Vec<CachedMessage>, i64),
)
    requires
        0 <= i < all.len(),
        newest_first(all),
        grouped(threads, all, i),
        t.0@ == all[i].thread_id@,
        t.1@ == seq![all[i]],
        t.2 == all[i].internal_date,
        forall|k: int| 0 <= k < threads.len() ==> (#[trigger] threads[k]).0@ != all[i].thread_id@,
    ensures
        grouped(threads.push(t), all, i + 1),
{
    reveal(grouped);
    let after = threads.push(t);
    let n = threads.len() as int;
    lemma_members_grow(threads, all, i);
    assert(members_known(after, all, i + 1)) by {
        assert forall|k: int, j: int|
            0 <= k < after.len() && 0 <= j < after[k].1.len() implies all.take(i + 1).contains(
            #[trigger] after[k].1[j],
        ) && after[k].1[j].thread_id@ == after[k].0@ by {
            if k == n {
                assert(all.take(i + 1)[i] == after[k].1[j]);
            } else {
                assert(after[k].1[j] == threads[k].1[j]);
            }
        }
    }
    assert(covers(after, all, i + 1)) by {
        assert forall|p: int| 0 <= p < i + 1 implies in_thread(after, #[trigger] all[p]) by {
            if p == i {
                assert(after[n].1[0] == all[p]);
            } else {
                assert(in_thread(threads, all[p]));
                let (k, j) = choose|k: int, j: int|
                    0 <= k < threads.len() && 0 <= j < threads[k].1.len()
                        && #[trigger] threads[k].1[j] == all[p];
                assert(after[k].1[j] == all[p]);
            }
        }
    }
    assert(thread_messages_distinct(after)) by {
        assert forall|k: int| 0 <= k < after.len() implies distinct(
            message_ids((#[trigger] after[k]).1@),
        ) by {
            if k < n {
                assert(after[k] == threads[k]);
            }
        }
    }
    assert(threads_in_order(after)) by {
        assert forall|k: int| 0 <= k < after.len() implies {
            let x = #[trigger] after[k];
            &&& x.1.len() > 0
            &&& oldest_first(x.1@)
            &&& x.2 == x.1@.last().internal_date
        } by {
            if k < n {
                assert(after[k] == threads[k]);
            }
        }
        assert forall|a: int, b: int| 0 <= a <= b < after.len() implies (#[trigger] after[a]).2
            >= (#[trigger] after[b]).2 by {
            if b == n && a < n {
                assert(threads[a].1.len() > 0);
                lemma_member_not_older(threads, all, i, a, threads[a].1.len() - 1);
            } else if b < n {
                assert(after[a] == threads[a] && after[b] == threads[b]);
            }
        }
    }
}

proof fn lemma_old_thread_members(
    threads: Seq<(String, Vec<CachedMessage>, i64)>,
    all: Seq<CachedMessage>,
    i: int,
    at: int,
    t: (String, Vec<CachedMessage>, i64),
)
    requires
        0 <= i < all.len(),
        members_known(threads, all, i),
        covers(threads, all, i),
        0 <= at < threads.len(),
        threads[at].0@ == all[i].thread_id@,
        t.0 == threads[at].0,
        t.1@ == threads[at].1@.insert(0, all[i]),
    ensures
        members_known(threads.update(at, t), all, i + 1),
        covers(threads.update(at, t), all, i + 1),
{
    let after = threads.update(at, t);
    lemma_members_grow(threads, all, i);
    assert forall|k: int, j: int|
        0 <= k < after.len() && 0 <= j < after[k].1.len() implies all.take(i + 1).contains(
        #[trigger] after[k].1[j],
    ) && after[k].1[j].thread_id@ == after[k].0@ by {
        if k == at && j == 0 {
            assert(all.take(i + 1)[i] == after[k].1[j]);
        } else {
            let j0 = if k == at { j - 1 } else { j };
            assert(after[k].1[j] == threads[k].1[j0]);
        }
    }
    assert forall|p: int| 0 <= p < i + 1 implies in_thread(after, #[trigger] all[p]) by {
        if p == i {
            assert(after[at].1[0] == all[p]);
        } else {
            assert(in_thread(threads, all[p]));
            let (k, j) = choose|k: int, j: int|
                0 <= k < threads.len() && 0 <= j < threads[k].1.len() && #[trigger] threads[k].1[j]
                    == all[p];
            let j1 = if k == at { j + 1 } else { j };
            assert(after[k].1[j1] == all[p]);
        }
    }
}

proof fn lemma_old_thread_distinct(
    threads: Seq<(String, Vec<CachedMessage>, i64)>,
    all: Seq<CachedMessage>,
    i: int,
    at: int,
    t: (String, Vec<CachedMessage>, i64),
)
    requires
        0 <= i < all.len(),
        newest_first(all),
        distinct(message_ids(all)),
        members_known(threads, all, i),
        thread_ids_distinct(threads),
        thread_messages_distinct(threads),
        0 <= at < threads.len(),
        t.0 == threads[at].0,
        t.1@ == threads[at].1@.insert(0, all[i]),
    ensures
        thread_ids_distinct(threads.update(at, t)),
        thread_messages_distinct(threads.update(at, t)),
{
    let after = threads.update(at, t);
    let old_msgs = threads[at].1@;
    assert forall|a: int, b: int| 0 <= a < b < after.len() implies (#[trigger] after[a]).0@ != (
    #[trigger] after[b]).0@ by {
        assert(threads[a].0@ != threads[b].0@);
    }
    assert forall|k: int| 0 <= k < after.len() implies distinct(
        message_ids((#[trigger] after[k]).1@),
    ) by {
        assert(distinct(message_ids(threads[k].1@)));
        if k == at {
            let ids = message_ids(after[k].1@);
            assert forall|a: int, b: int| 0 <= a < b < ids.len() implies ids[a] != ids[b] by {
                assert(after[k].1@[b] == old_msgs[b - 1]);
                if a == 0 {
                    lemma_member_not_older(threads, all, i, at, b - 1);
                } else {
                    assert(after[k].1@[a] == old_msgs[a - 1]);
                    assert(message_ids(old_msgs)[a - 1] != message_ids(old_msgs)[b - 1]);
                }
            }
        } else {
            assert(after[k] == threads[k]);
        }
    }
}

proof fn lemma_old_thread_order(
    threads: Seq<(String, Vec<CachedMessage>, i64)>,
    all: Seq<CachedMessage>,
    i: int,
    at: int,
    t: (String, Vec<CachedMessage>, i64),
)
    requires
        0 <= i < all.len(),
        newest_first(all),
        members_known(threads, all, i),
        threads_in_order(threads),
        0 <= at < threads.len(),
        t.1@ == threads[at].1@.insert(0, all[i]),
        t.2 == threads[at].2,
    ensures
        threads_in_order(threads.update(at, t)),
{
    let after = threads.update(at, t);
    let old_msgs = threads[at].1@;
    assert forall|k: int| 0 <= k < after.len() implies {
        let x = #[trigger] after[k];
        &&& x.1.len() > 0
        &&& oldest_first(x.1@)
        &&& x.2 == x.1@.last().internal_date
    } by {
        let y = threads[k];
        assert(y.1.len() > 0 && oldest_first(y.1@) && y.2 == y.1@.last().internal_date);
        if k == at {
            let x = after[k];
            assert(x.1@.last() == old_msgs.last());
            assert forall|a: int, b: int| 0 <= a <= b < x.1.len() implies (
            #[trigger] x.1@[a]).internal_date <= (#[trigger] x.1@[b]).internal_date by {
                if a == 0 && b > 0 {
                    assert(x.1@[b] == old_msgs[b - 1]);
                    lemma_member_not_older(threads, all, i, at, b - 1);
                } else if a > 0 {
                    assert(x.1@[a] == old_msgs[a - 1] && x.1@[b] == old_msgs[b - 1]);
                }
            }
        }
    }
    assert forall|a: int, b: int| 0 <= a <= b < after.len() implies (#[trigger] after[a]).2 >= (
    #[trigger] after[b]).2 by {
        assert(threads[a].2 >= threads[b].2);
    }
}

pub(crate) proof fn lemma_group_old_thread(
    threads: Seq<(String, Vec<CachedMessage>, i64)>,
    all: Seq<CachedMessage>,
    i: int,
    at: int,
    t: (String, Vec<CachedMessage>, i64),
)
    requires
        0 <= i < all.len(),
        newest_first(all),
        distinct(message_ids(all)),
        grouped(threads, all, i),
        0 <= at < threads.len(),
        threads[at].0@ == all[i].thread_id@,
        t.0 == threads[at].0,
        t.1@ == threads[at].1@.insert(0, all[i]),
        t.2 == threads[at].2,
    ensures
        grouped(threads.update(at, t), all, i + 1),
{
    reveal(grouped);
    lemma_old_thread_members(threads, all, i, at, t);
    lemma_old_thread_distinct(threads, all, i, at, t);
    lemma_old_thread_order(threads, all, i, at, t);
}

pub(crate) proof fn lemma_grouped_groups_rows(
    threads: Seq<(String, Vec<CachedMessage>, i64)>,
    all: Seq<CachedMessage>,
    rows: Map<Seq<char>, CachedMessageView>,
)
    requires
        lists_rows(all, rows),
        grouped(threads, all, all.len() as int),
    ensures
        groups_rows(threads, rows),
        threads_in_order(threads),
{
    reveal(grouped);
    assert(all.take(all.len() as int) == all);
    assert forall|k: int, j: int| 0 <= k < threads.len() && 0 <= j < threads[k].1.len() implies {
        let m = #[trigger] threads[k].1[j];
        &&& rows.contains_key(m.message_id@)
        &&& rows[m.message_id@] == m@
        &&& m.thread_id@ == threads[k].0@
    } by {
        assert(all.contains(threads[k].1[j]));
        let p = choose|p: int| 0 <= p < all.len() && all[p] == threads[k].1[j];
        assert(rows.contains_key(all[p].message_id@));
    }
    assert forall|id: Seq<char>| rows.contains_key(id) implies exists|k: int, j: int|
        0 <= k < threads.len() && 0 <= j < threads[k].1.len() && (
        #[trigger] threads[k].1[j]).message_id@ == id by {
        let p = choose|p: int| 0 <= p < all.len() && (#[trigger] all[p]).message_id@ == id;
        assert(in_thread(threads, all[p]));
        let (k, j) = choose|k: int, j: int|
            0 <= k < threads.len() && 0 <= j < threads[k].1.len() && #[trigger] threads[k].1[j]
                == all[p];
        assert(threads[k].1[j].message_id@ == id);
    }
}

} // verus!
