//! The cache of mirrored messages and of the small state that the
//! synchronisation keeps between runs.

use crate::table::{
    distinct, lemma_table_absent, lemma_table_at, lemma_table_len, lemma_table_push,
    lemma_table_remove, lemma_table_update, table,
};
use crate::text::same_text;
use crate::threads::{
    grouped, groups_rows, lemma_group_new_thread, lemma_group_none, lemma_group_old_thread,
    lemma_grouped_groups_rows, lemma_insert_keeps_distinct, lemma_insert_keeps_members,
    lemma_insert_keeps_order, lemma_members_list_rows, lists_rows, newest_first, same_members,
    threads_in_order,
};
use vstd::prelude::*;

verus! {

/// One mirrored message. `headers_json` and `label_ids_json` hold the
/// message's headers and labels as JSON text.
#[derive(Debug, PartialEq, Eq)]
pub struct CachedMessage {
    pub message_id: String,
    pub thread_id: String,
    pub headers_json: String,
    pub label_ids_json: String,
    pub snippet: String,
    /// Receipt time in milliseconds since the epoch.
    pub internal_date: i64,
    /// The change cursor at which the row was last written.
    pub synced_history_id: Option<i64>,
}

/// A mirrored message as a mathematical value.
pub struct CachedMessageView {
    pub message_id: Seq<char>,
    pub thread_id: Seq<char>,
    pub headers_json: Seq<char>,
    pub label_ids_json: Seq<char>,
    pub snippet: Seq<char>,
    pub internal_date: i64,
    pub synced_history_id: Option<i64>,
}

impl View for CachedMessage {
    type V = CachedMessageView;

    open spec fn view(&self) -> CachedMessageView {
        CachedMessageView {
            message_id: self.message_id@,
            thread_id: self.thread_id@,
            headers_json: self.headers_json@,
            label_ids_json: self.label_ids_json@,
            snippet: self.snippet@,
            internal_date: self.internal_date,
            synced_history_id: self.synced_history_id,
        }
    }
}

impl Clone for CachedMessage {
    fn clone(&self) -> (r: Self)
        ensures
            r == *self,
    {
        CachedMessage {
            message_id: self.message_id.clone(),
            thread_id: self.thread_id.clone(),
            headers_json: self.headers_json.clone(),
            label_ids_json: self.label_ids_json.clone(),
            snippet: self.snippet.clone(),
            internal_date: self.internal_date,
            synced_history_id: self.synced_history_id,
        }
    }
}

/// The messages of a list as mathematical values, in order.
pub open spec fn message_views(s: Seq<CachedMessage>) -> Seq<CachedMessageView> {
    s.map_values(|m: CachedMessage| m@)
}

/// The ids of a list of messages, in order.
pub open spec fn message_ids(s: Seq<CachedMessage>) -> Seq<Seq<char>> {
    s.map_values(|m: CachedMessage| m.message_id@)
}

spec fn meta_keys(s: Seq<(String, String)>) -> Seq<Seq<char>> {
    s.map_values(|e: (String, String)| e.0@)
}

spec fn meta_vals(s: Seq<(String, String)>) -> Seq<Seq<char>> {
    s.map_values(|e: (String, String)| e.1@)
}

/// One change of the cache, as a durable store has to repeat it.
#[derive(Debug, PartialEq, Eq)]
pub enum CacheWrite {
    /// Store this message under its id.
    Upsert(CachedMessage),
    /// Remove the row with this id.
    Delete(String),
    /// Remove every row.
    Clear,
    /// Store the value under the key.
    SetMeta(String, String),
    /// Remove what is stored under the key.
    DeleteMeta(String),
}

/// A change of the cache as a mathematical value.
pub enum CacheWriteView {
    Upsert(CachedMessageView),
    Delete(Seq<char>),
    Clear,
    SetMeta(Seq<char>, Seq<char>),
    DeleteMeta(Seq<char>),
}

impl View for CacheWrite {
    type V = CacheWriteView;

    open spec fn view(&self) -> CacheWriteView {
        match self {
            CacheWrite::Upsert(m) => CacheWriteView::Upsert(m@),
            CacheWrite::Delete(id) => CacheWriteView::Delete(id@),
            CacheWrite::Clear => CacheWriteView::Clear,
            CacheWrite::SetMeta(k, v) => CacheWriteView::SetMeta(k@, v@),
            CacheWrite::DeleteMeta(k) => CacheWriteView::DeleteMeta(k@),
        }
    }
}

/// The changes of a list as mathematical values, in order.
pub open spec fn write_views(s: Seq<CacheWrite>) -> Seq<CacheWriteView> {
    s.map_values(|w: CacheWrite| w@)
}

/// What a cache holds: its rows by message id and its scalar state by
/// key.
pub struct CacheState {
    pub rows: Map<Seq<char>, CachedMessageView>,
    pub meta: Map<Seq<char>, Seq<char>>,
}

/// What a cache holds after the change `w`.
pub open spec fn apply_write(s: CacheState, w: CacheWriteView) -> CacheState {
    match w {
        CacheWriteView::Upsert(m) => CacheState { rows: s.rows.insert(m.message_id, m), ..s },
        CacheWriteView::Delete(id) => CacheState { rows: s.rows.remove(id), ..s },
        CacheWriteView::Clear => CacheState { rows: Map::empty(), ..s },
        CacheWriteView::SetMeta(k, v) => CacheState { meta: s.meta.insert(k, v), ..s },
        CacheWriteView::DeleteMeta(k) => CacheState { meta: s.meta.remove(k), ..s },
    }
}

/// Keys and values by their texts, in order.
pub open spec fn meta_entries(s: Seq<(String, String)>) -> Seq<(Seq<char>, Seq<char>)> {
    s.map_values(|e: (String, String)| (e.0@, e.1@))
}

/// The scalar state after the values of `entries` have been stored one
/// after the other, each under its key.
pub open spec fn set_all(
    meta: Map<Seq<char>, Seq<char>>,
    entries: Seq<(Seq<char>, Seq<char>)>,
) -> Map<Seq<char>, Seq<char>>
    decreases entries.len(),
{
    if entries.len() == 0 {
        meta
    } else {
        set_all(meta, entries.drop_last()).insert(entries.last().0, entries.last().1)
    }
}

/// What a cache holds after the changes `writes`, one after the other.
pub open spec fn replay(s: CacheState, writes: Seq<CacheWriteView>) -> CacheState
    decreases writes.len(),
{
    if writes.len() == 0 {
        s
    } else {
        apply_write(replay(s, writes.drop_last()), writes.last())
    }
}

/// The cache: a table of messages keyed by message id, a table of scalar
/// state keyed by name, and the list of the changes that a durable store
/// has not taken over yet.
#[derive(Debug)]
pub struct Cache {
    messages: Vec<CachedMessage>,
    meta: Vec<(String, String)>,
    journal: Vec<CacheWrite>,
}

impl Cache {
    #[verifier::type_invariant]
    spec fn inv(self) -> bool {
        &&& distinct(message_ids(self.messages@))
        &&& distinct(meta_keys(self.meta@))
    }

    /// The stored rows, by message id.
    pub closed spec fn rows(&self) -> Map<Seq<char>, CachedMessageView> {
        table(message_ids(self.messages@), message_views(self.messages@))
    }

    /// The stored scalar state, by key.
    pub closed spec fn meta(&self) -> Map<Seq<char>, Seq<char>> {
        table(meta_keys(self.meta@), meta_vals(self.meta@))
    }

    /// The changes since a durable store last took the changes over, in
    /// the order in which they were made.
    pub closed spec fn unsaved(&self) -> Seq<CacheWriteView> {
        write_views(self.journal@)
    }

    /// What the cache holds.
    pub open spec fn state(&self) -> CacheState {
        CacheState { rows: self.rows(), meta: self.meta() }
    }

    /// An empty cache.
    pub fn new() -> (r: Self)
        ensures
            r.rows() == Map::<Seq<char>, CachedMessageView>::empty(),
            r.meta() == Map::<Seq<char>, Seq<char>>::empty(),
            r.unsaved() == Seq::<CacheWriteView>::empty(),
    {
        let r = Cache { messages: Vec::new(), meta: Vec::new(), journal: Vec::new() };
        proof {
            assert(r.rows() =~= Map::<Seq<char>, CachedMessageView>::empty());
            assert(r.meta() =~= Map::<Seq<char>, Seq<char>>::empty());
            assert(r.unsaved() =~= Seq::<CacheWriteView>::empty());
        }
        r
    }

    /// The cache that a durable store holds: the rows `rows` stored one
    /// after the other, then the scalar state `meta` key by key. Nothing
    /// of it counts as unsaved.
    pub fn restore(rows: &Vec<CachedMessage>, meta: &Vec<(String, String)>) -> (r: Self)
        ensures
            r.rows() == upsert_all(Map::empty(), message_views(rows@)),
            r.meta() == set_all(Map::empty(), meta_entries(meta@)),
            r.unsaved() == Seq::<CacheWriteView>::empty(),
    {
        let mut cache = Cache::new();
        let mut i: usize = 0;
        proof {
            assert(message_views(rows@).take(0) =~= Seq::<CachedMessageView>::empty());
        }
        while i < rows.len()
            invariant
                i <= rows.len(),
                cache.rows() == upsert_all(Map::empty(), message_views(rows@).take(i as int)),
                cache.meta() == Map::<Seq<char>, Seq<char>>::empty(),
            decreases rows.len() - i,
        {
            proof {
                let views = message_views(rows@);
                assert(views.take(i + 1).drop_last() =~= views.take(i as int));
                assert(views.take(i + 1).last() == rows@[i as int]@);
            }
            cache.upsert_message(&rows[i]);
            i += 1;
        }
        let mut j: usize = 0;
        proof {
            assert(message_views(rows@).take(i as int) == message_views(rows@));
            assert(meta_entries(meta@).take(0) =~= Seq::<(Seq<char>, Seq<char>)>::empty());
        }
        while j < meta.len()
            invariant
                j <= meta.len(),
                cache.rows() == upsert_all(Map::empty(), message_views(rows@)),
                cache.meta() == set_all(Map::empty(), meta_entries(meta@).take(j as int)),
            decreases meta.len() - j,
        {
            proof {
                let entries = meta_entries(meta@);
                assert(entries.take(j + 1).drop_last() =~= entries.take(j as int));
                assert(entries.take(j + 1).last() == (meta@[j as int].0@, meta@[j as int].1@));
            }
            cache.set_meta(meta[j].0.as_str(), meta[j].1.as_str());
            j += 1;
        }
        proof {
            assert(meta_entries(meta@).take(j as int) == meta_entries(meta@));
        }
        let _ = cache.take_writes();
        cache
    }

    /// Notes the change `w` for the durable store.
    fn note(&mut self, w: CacheWrite)
        ensures
            final(self).rows() == old(self).rows(),
            final(self).meta() == old(self).meta(),
            final(self).unsaved() == old(self).unsaved().push(w@),
    {
        proof {
            use_type_invariant(&*self);
        }
        let ghost before = self.journal@;
        let mut journal: Vec<CacheWrite> = Vec::new();
        std::mem::swap(&mut self.journal, &mut journal);
        journal.push(w);
        proof {
            assert(write_views(journal@) =~= write_views(before).push(w@));
        }
        self.journal = journal;
    }

    /// Hands over the changes that no durable store has taken over yet,
    /// in the order in which they were made. Repeated in that order on
    /// what the store held when it last took the changes over, they give
    /// what the cache holds now.
    pub fn take_writes(&mut self) -> (r: Vec<CacheWrite>)
        ensures
            write_views(r@) == old(self).unsaved(),
            final(self).unsaved() == Seq::<CacheWriteView>::empty(),
            final(self).rows() == old(self).rows(),
            final(self).meta() == old(self).meta(),
    {
        proof {
            use_type_invariant(&*self);
        }
        let mut journal: Vec<CacheWrite> = Vec::new();
        std::mem::swap(&mut self.journal, &mut journal);
        proof {
            assert(self.unsaved() =~= Seq::<CacheWriteView>::empty());
        }
        journal
    }

    fn find_message(&self, message_id: &str) -> (r: Option<usize>)
        ensures
            match r {
                Some(i) => i < self.messages.len() && self.messages[i as int].message_id@
                    == message_id@,
                None => forall|i: int|
                    0 <= i < self.messages.len() ==> self.messages[i].message_id@ != message_id@,
            },
    {
        let mut i: usize = 0;
        while i < self.messages.len()
            invariant
                i <= self.messages.len(),
                forall|k: int| 0 <= k < i ==> self.messages[k].message_id@ != message_id@,
            decreases self.messages.len() - i,
        {
            if same_text(self.messages[i].message_id.as_str(), message_id) {
                return Some(i);
            }
            i += 1;
        }
        None
    }

    fn find_meta(&self, key: &str) -> (r: Option<usize>)
        ensures
            match r {
                Some(i) => i < self.meta.len() && self.meta[i as int].0@ == key@,
                None => forall|i: int| 0 <= i < self.meta.len() ==> self.meta[i].0@ != key@,
            },
    {
        let mut i: usize = 0;
        while i < self.meta.len()
            invariant
                i <= self.meta.len(),
                forall|k: int| 0 <= k < i ==> self.meta[k].0@ != key@,
            decreases self.meta.len() - i,
        {
            if same_text(self.meta[i].0.as_str(), key) {
                return Some(i);
            }
            i += 1;
        }
        None
    }

    /// Whether a row with this id is stored.
    pub fn contains_message(&self, message_id: &str) -> (r: bool)
        ensures
            r == self.rows().contains_key(message_id@),
    {
        proof {
            use_type_invariant(self);
        }
        match self.find_message(message_id) {
            Some(i) => {
                proof {
                    lemma_table_at(
                        message_ids(self.messages@),
                        message_views(self.messages@),
                        i as int,
                    );
                }
                true
            },
            None => false,
        }
    }

    /// Number of stored rows.
    pub fn message_count(&self) -> (r: usize)
        ensures
            r == self.rows().len(),
            self.rows().dom().finite(),
    {
        proof {
            use_type_invariant(self);
            lemma_table_len(message_ids(self.messages@), message_views(self.messages@));
        }
        self.messages.len()
    }

    /// Stores `msg` under its id; a row that was stored under that id is
    /// replaced as a whole.
    pub fn upsert_message(&mut self, msg: &CachedMessage)
        ensures
            final(self).rows() == old(self).rows().insert(msg.message_id@, msg@),
            final(self).meta() == old(self).meta(),
            final(self).state() == apply_write(old(self).state(), CacheWriteView::Upsert(msg@)),
            final(self).unsaved() == old(self).unsaved().push(CacheWriteView::Upsert(msg@)),
    {
        proof {
            use_type_invariant(&*self);
        }
        let found = self.find_message(msg.message_id.as_str());
        let ghost before = self.messages@;
        let mut rows: Vec<CachedMessage> = Vec::new();
        std::mem::swap(&mut self.messages, &mut rows);
        match found {
            Some(i) => {
                rows.set(i, msg.clone());
                proof {
                    assert(message_ids(rows@) =~= message_ids(before));
                    assert(message_views(rows@) =~= message_views(before).update(i as int, msg@));
                    lemma_table_update(message_ids(before), message_views(before), i as int, msg@);
                }
            },
            None => {
                rows.push(msg.clone());
                proof {
                    assert(message_ids(rows@) =~= message_ids(before).push(msg.message_id@));
                    assert(message_views(rows@) =~= message_views(before).push(msg@));
                    lemma_table_push(
                        message_ids(before),
                        message_views(before),
                        msg.message_id@,
                        msg@,
                    );
                }
            },
        }
        self.messages = rows;
        self.note(CacheWrite::Upsert(msg.clone()));
    }

    /// Removes the row with this id, if there is one.
    pub fn delete_message(&mut self, message_id: &str)
        ensures
            final(self).rows() == old(self).rows().remove(message_id@),
            final(self).meta() == old(self).meta(),
            final(self).state() == apply_write(
                old(self).state(),
                CacheWriteView::Delete(message_id@),
            ),
            final(self).unsaved() == old(self).unsaved().push(CacheWriteView::Delete(message_id@)),
    {
        proof {
            use_type_invariant(&*self);
        }
        match self.find_message(message_id) {
            Some(i) => {
                let ghost before = self.messages@;
                let mut rows: Vec<CachedMessage> = Vec::new();
                std::mem::swap(&mut self.messages, &mut rows);
                rows.remove(i);
                proof {
                    assert(message_ids(rows@) =~= message_ids(before).remove(i as int));
                    assert(message_views(rows@) =~= message_views(before).remove(i as int));
                    lemma_table_remove(message_ids(before), message_views(before), i as int);
                }
                self.messages = rows;
            },
            None => {
                proof {
                    lemma_table_absent(
                        message_ids(self.messages@),
                        message_views(self.messages@),
                        message_id@,
                    );
                    assert(self.rows() =~= self.rows().remove(message_id@));
                }
            },
        }
        self.note(CacheWrite::Delete(message_id.to_owned()));
    }

    /// Every row, newest receipt time first.
    pub fn load_all_messages(&self) -> (r: Vec<CachedMessage>)
        ensures
            lists_rows(r@, self.rows()),
            newest_first(r@),
    {
        proof {
            use_type_invariant(self);
        }
        let mut out: Vec<CachedMessage> = Vec::new();
        let mut k: usize = 0;
        while k < self.messages.len()
            invariant
                k <= self.messages.len(),
                distinct(message_ids(self.messages@)),
                distinct(message_ids(out@)),
                newest_first(out@),
                same_members(out@, self.messages@.take(k as int)),
            decreases self.messages.len() - k,
        {
            let m = self.messages[k].clone();
            let mut p: usize = 0;
            while p < out.len() && out[p].internal_date >= m.internal_date
                invariant
                    p <= out.len(),
                    forall|a: int|
                        0 <= a < p ==> (#[trigger] out[a]).internal_date >= m.internal_date,
                decreases out.len() - p,
            {
                p += 1;
            }
            proof {
                lemma_insert_keeps_order(out@, p as int, m);
                lemma_insert_keeps_members(out@, p as int, self.messages@, k as int);
                lemma_insert_keeps_distinct(out@, p as int, self.messages@, k as int);
            }
            out.insert(p, m);
            k += 1;
        }
        proof {
            assert(self.messages@.take(k as int) == self.messages@);
            lemma_members_list_rows(out@, self.messages@);
        }
        out
    }

    /// The rows grouped into threads. Each entry holds a thread id, the
    /// thread's messages oldest first, and the receipt time of its newest
    /// message; the threads come newest first by that time.
    pub fn load_threads_sorted(&self) -> (r: Vec<(String, Vec<CachedMessage>, i64)>)
        ensures
            groups_rows(r@, self.rows()),
            threads_in_order(r@),
    {
        let all = self.load_all_messages();
        let mut threads: Vec<(String, Vec<CachedMessage>, i64)> = Vec::new();
        let mut i: usize = 0;
        proof {
            lemma_group_none(all@);
        }
        while i < all.len()
            invariant
                i <= all.len(),
                newest_first(all@),
                distinct(message_ids(all@)),
                grouped(threads@, all@, i as int),
            decreases all.len() - i,
        {
            let m = all[i].clone();
            let mut at: usize = 0;
            while at < threads.len() && !same_text(threads[at].0.as_str(), m.thread_id.as_str())
                invariant
                    at <= threads.len(),
                    forall|k: int| 0 <= k < at ==> (#[trigger] threads[k]).0@ != m.thread_id@,
                decreases threads.len() - at,
            {
                at += 1;
            }
            let ghost before = threads@;
            if at < threads.len() {
                let (thread_id, mut messages, last_activity) = threads.remove(at);
                messages.insert(0, m);
                let t = (thread_id, messages, last_activity);
                proof {
                    lemma_group_old_thread(before, all@, i as int, at as int, t);
                    assert(before.remove(at as int).insert(at as int, t) =~= before.update(
                        at as int,
                        t,
                    ));
                }
                threads.insert(at, t);
            } else {
                let last_activity = m.internal_date;
                let mut messages: Vec<CachedMessage> = Vec::new();
                let thread_id = m.thread_id.clone();
                messages.push(m);
                let t = (thread_id, messages, last_activity);
                proof {
                    assert(t.1@ =~= seq![all@[i as int]]);
                    lemma_group_new_thread(before, all@, i as int, t);
                }
                threads.push(t);
            }
            i += 1;
        }
        proof {
            lemma_grouped_groups_rows(threads@, all@, self.rows());
        }
        threads
    }

    /// Removes every row; the scalar state stays.
    pub fn clear_all_messages(&mut self)
        ensures
            final(self).rows() == Map::<Seq<char>, CachedMessageView>::empty(),
            final(self).meta() == old(self).meta(),
            final(self).state() == apply_write(old(self).state(), CacheWriteView::Clear),
            final(self).unsaved() == old(self).unsaved().push(CacheWriteView::Clear),
    {
        proof {
            use_type_invariant(&*self);
        }
        self.messages = Vec::new();
        proof {
            assert(self.rows() =~= Map::<Seq<char>, CachedMessageView>::empty());
        }
        self.note(CacheWrite::Clear);
    }

    /// Stores `value` under `key`, in place of what was stored there.
    pub fn set_meta(&mut self, key: &str, value: &str)
        ensures
            final(self).meta() == old(self).meta().insert(key@, value@),
            final(self).rows() == old(self).rows(),
            final(self).state() == apply_write(
                old(self).state(),
                CacheWriteView::SetMeta(key@, value@),
            ),
            final(self).unsaved() == old(self).unsaved().push(
                CacheWriteView::SetMeta(key@, value@),
            ),
    {
        proof {
            use_type_invariant(&*self);
        }
        let found = self.find_meta(key);
        let ghost before = self.meta@;
        let mut entries: Vec<(String, String)> = Vec::new();
        std::mem::swap(&mut self.meta, &mut entries);
        match found {
            Some(i) => {
                entries.set(i, (key.to_owned(), value.to_owned()));
                proof {
                    assert(meta_keys(entries@) =~= meta_keys(before));
                    assert(meta_vals(entries@) =~= meta_vals(before).update(i as int, value@));
                    lemma_table_update(meta_keys(before), meta_vals(before), i as int, value@);
                }
            },
            None => {
                entries.push((key.to_owned(), value.to_owned()));
                proof {
                    assert(meta_keys(entries@) =~= meta_keys(before).push(key@));
                    assert(meta_vals(entries@) =~= meta_vals(before).push(value@));
                    lemma_table_push(meta_keys(before), meta_vals(before), key@, value@);
                }
            },
        }
        self.meta = entries;
        self.note(CacheWrite::SetMeta(key.to_owned(), value.to_owned()));
    }

    /// The value stored under `key`, if there is one.
    pub fn get_meta(&self, key: &str) -> (r: Option<String>)
        ensures
            match r {
                Some(v) => self.meta().contains_key(key@) && self.meta()[key@] == v@,
                None => !self.meta().contains_key(key@),
            },
    {
        proof {
            use_type_invariant(self);
        }
        match self.find_meta(key) {
            Some(i) => {
                proof {
                    lemma_table_at(meta_keys(self.meta@), meta_vals(self.meta@), i as int);
                }
                Some(self.meta[i].1.clone())
            },
            None => {
                proof {
                    lemma_table_absent(meta_keys(self.meta@), meta_vals(self.meta@), key@);
                }
                None
            },
        }
    }

    /// Removes what is stored under `key`, if anything.
    pub fn delete_meta(&mut self, key: &str)
        ensures
            final(self).meta() == old(self).meta().remove(key@),
            final(self).rows() == old(self).rows(),
            final(self).state() == apply_write(old(self).state(), CacheWriteView::DeleteMeta(key@)),
            final(self).unsaved() == old(self).unsaved().push(CacheWriteView::DeleteMeta(key@)),
    {
        proof {
            use_type_invariant(&*self);
        }
        match self.find_meta(key) {
            Some(i) => {
                let ghost before = self.meta@;
                let mut entries: Vec<(String, String)> = Vec::new();
                std::mem::swap(&mut self.meta, &mut entries);
                entries.remove(i);
                proof {
                    assert(meta_keys(entries@) =~= meta_keys(before).remove(i as int));
                    assert(meta_vals(entries@) =~= meta_vals(before).remove(i as int));
                    lemma_table_remove(meta_keys(before), meta_vals(before), i as int);
                }
                self.meta = entries;
            },
            None => {
                proof {
                    lemma_table_absent(meta_keys(self.meta@), meta_vals(self.meta@), key@);
                    assert(self.meta() =~= self.meta().remove(key@));
                }
            },
        }
        self.note(CacheWrite::DeleteMeta(key.to_owned()));
    }
}

/// The rows after the messages of `writes` have been stored one after the
/// other, each under its id.
pub open spec fn upsert_all(
    rows: Map<Seq<char>, CachedMessageView>,
    writes: Seq<CachedMessageView>,
) -> Map<Seq<char>, CachedMessageView>
    decreases writes.len(),
{
    if writes.len() == 0 {
        rows
    } else {
        upsert_all(rows, writes.drop_last()).insert(writes.last().message_id, writes.last())
    }
}

/// Last write wins: after any sequence of writes, the row stored under an
/// id is the last message that was written under that id.
pub proof fn law_last_write_wins(
    rows: Map<Seq<char>, CachedMessageView>,
    writes: Seq<CachedMessageView>,
    i: int,
)
    requires
        0 <= i < writes.len(),
        forall|j: int| i < j < writes.len() ==> writes[j].message_id != writes[i].message_id,
    ensures
        upsert_all(rows, writes).contains_key(writes[i].message_id),
        upsert_all(rows, writes)[writes[i].message_id] == writes[i],
    decreases writes.len(),
{
    if i < writes.len() - 1 {
        let rest = writes.drop_last();
        assert forall|j: int| i < j < rest.len() implies rest[j].message_id
            != rest[i].message_id by {
            assert(rest[j] == writes[j]);
        }
        law_last_write_wins(rows, rest, i);
    }
}

/// A sequence of writes leaves alone every row under whose id nothing is
/// written.
pub proof fn law_unwritten_rows_stay(
    rows: Map<Seq<char>, CachedMessageView>,
    writes: Seq<CachedMessageView>,
    id: Seq<char>,
)
    requires
        forall|j: int| 0 <= j < writes.len() ==> writes[j].message_id != id,
    ensures
        upsert_all(rows, writes).contains_key(id) == rows.contains_key(id),
        rows.contains_key(id) ==> upsert_all(rows, writes)[id] == rows[id],
    decreases writes.len(),
{
    if writes.len() > 0 {
        let rest = writes.drop_last();
        assert forall|j: int| 0 <= j < rest.len() implies rest[j].message_id != id by {
            assert(rest[j] == writes[j]);
        }
        law_unwritten_rows_stay(rows, rest, id);
    }
}

/// Writing the same message twice stores what writing it once stores.
pub proof fn law_upsert_idempotent(
    rows: Map<Seq<char>, CachedMessageView>,
    write: CachedMessageView,
)
    ensures
        upsert_all(rows, seq![write, write]) == upsert_all(rows, seq![write]),
{
    let twice = seq![write, write];
    let once = seq![write];
    assert(twice.drop_last() =~= once);
    assert(once.drop_last() =~= Seq::<CachedMessageView>::empty());
    assert(upsert_all(rows, once.drop_last()) == rows);
    assert(upsert_all(rows, twice) =~= upsert_all(rows, once));
}

/// Deleting an id removes the row under that id and no other row.
pub proof fn law_delete_removes_only_that_row(
    rows: Map<Seq<char>, CachedMessageView>,
    id: Seq<char>,
    other: Seq<char>,
)
    requires
        other != id,
    ensures
        !rows.remove(id).contains_key(id),
        rows.remove(id).contains_key(other) == rows.contains_key(other),
        rows.contains_key(other) ==> rows.remove(id)[other] == rows[other],
{
}

/// A durable store that repeats the noted changes in their order stays in
/// step with the cache: one more change of the cache is one more change to
/// repeat.
pub proof fn law_replay_follows_the_cache(
    saved: CacheState,
    writes: Seq<CacheWriteView>,
    w: CacheWriteView,
)
    ensures
        replay(saved, writes.push(w)) == apply_write(replay(saved, writes), w),
        replay(saved, Seq::empty()) == saved,
{
    assert(writes.push(w).drop_last() =~= writes);
}

} // verus!
