//! The synchronisation of the cache with the remote mailbox: the first
//! full pass, the incremental steps along the remote change log, and the
//! recovery when the remote service rejects the stored cursor.
//!
//! The library decides and the caller performs: each function here takes
//! what the last request to the remote service brought back, changes the
//! cache accordingly and names the next request.

use crate::buckets::{BUCKET_COUNT, RESYNC_PAGE_SIZE};
use crate::cache::{Cache, CachedMessage, CachedMessageView};
use crate::cursor::{cursor_key, read_cursor, stored_cursor};
use crate::decimal::decimal_i64;
use crate::gate::{FanOut, SYNC_FETCH_LIMIT};
use crate::history::{
    change_views, changes_of, cursor_of, history_number_of, response_changes, response_cursor,
    response_history_number, Change, ChangeKind,
};
use crate::json::{json_document, parse_document};
use crate::mirror::{mirror_row, to_cached_message};
use crate::query::{filter_by_labels, selection};
use crate::status::{is_success, success_status, BAD_REQUEST};
use crate::text::{optional_text, same_text, texts, trimmed};
use crate::threads::{lists_rows, newest_first};
use crate::types::{GmailMessage, GmailMessageRef};
use vstd::prelude::*;

verus! {

/// One pass over the label buckets: the bucket that is being listed, the
/// page size of the listings, and the cursor to store at the end. A first
/// full pass knows that cursor from the start and stores each message
/// once; a recovery pass reads the cursor when it is over.
#[derive(Debug)]
pub struct Pass {
    pub bucket: usize,
    pub page_size: u32,
    pub baseline: Option<String>,
}

/// A pass as a mathematical value.
pub struct PassView {
    pub bucket: usize,
    pub page_size: u32,
    pub baseline: Option<Seq<char>>,
}

impl View for Pass {
    type V = PassView;

    open spec fn view(&self) -> PassView {
        PassView {
            bucket: self.bucket,
            page_size: self.page_size,
            baseline: optional_text(self.baseline),
        }
    }
}

/// Where the synchronisation stands.
#[derive(Debug)]
pub enum SyncPhase {
    /// Between two steps: nothing is asked of the remote service.
    Idle,
    /// A first full pass has asked for the current cursor of the mailbox.
    AwaitingBaseline { page_size: u32 },
    /// An incremental step has asked for the change log from `start` on.
    AwaitingHistory { start: i64 },
    /// The changes of a response are being applied; the message of the
    /// change numbered `next` has been asked for.
    Applying { changes: Vec<Change>, next: usize, cursor: Option<String>, history_id: Option<i64> },
    /// A pass has asked for the listing of its bucket.
    Listing { pass: Pass },
    /// A pass is fetching the messages of its bucket.
    Fetching { pass: Pass, fan: FanOut },
    /// A recovery pass is over and has asked for the current cursor.
    AwaitingNewBaseline,
}

/// A phase as a mathematical value. Of a queue of fetches it holds the
/// ids, how many of them have been handed out, how many fetches are in
/// flight, and the limit.
pub enum PhaseView {
    Idle,
    AwaitingBaseline { page_size: u32 },
    AwaitingHistory { start: i64 },
    Applying {
        changes: Seq<(ChangeKind, Seq<char>)>,
        next: nat,
        cursor: Option<Seq<char>>,
        history_id: Option<i64>,
    },
    Listing { pass: PassView },
    Fetching { pass: PassView, queued: Seq<Seq<char>>, started: nat, in_flight: nat, limit: nat },
    AwaitingNewBaseline,
}

impl View for SyncPhase {
    type V = PhaseView;

    open spec fn view(&self) -> PhaseView {
        match self {
            SyncPhase::Idle => PhaseView::Idle,
            SyncPhase::AwaitingBaseline { page_size } => PhaseView::AwaitingBaseline {
                page_size: *page_size,
            },
            SyncPhase::AwaitingHistory { start } => PhaseView::AwaitingHistory { start: *start },
            SyncPhase::Applying { changes, next, cursor, history_id } => PhaseView::Applying {
                changes: change_views(changes@),
                next: *next as nat,
                cursor: optional_text(*cursor),
                history_id: *history_id,
            },
            SyncPhase::Listing { pass } => PhaseView::Listing { pass: pass@ },
            SyncPhase::Fetching { pass, fan } => PhaseView::Fetching {
                pass: pass@,
                queued: fan.queued(),
                started: fan.started(),
                in_flight: fan.in_flight(),
                limit: fan.limit(),
            },
            SyncPhase::AwaitingNewBaseline => PhaseView::AwaitingNewBaseline,
        }
    }
}

/// What the caller is to ask of the remote service next.
#[derive(Debug, PartialEq, Eq)]
pub enum SyncRequest {
    /// Nothing: the step is over.
    Wait,
    /// Nothing: the first full pass has failed for want of a credential
    /// or of a cursor, and the mailbox is not synchronised.
    Failed,
    /// The current change cursor of the mailbox.
    ReadBaseline,
    /// The change log from the cursor `start` on.
    ListHistory { start: i64 },
    /// The listing of the bucket numbered `bucket`, `max_results` at most.
    ListLabel { bucket: usize, max_results: u32 },
    /// The full content of each of these messages. The answers may come
    /// in any order; each is handed in by itself. An empty list asks for
    /// nothing new: answers to earlier requests are still to come.
    FetchMessages { ids: Vec<String> },
}

/// A request as a mathematical value.
pub enum RequestView {
    Wait,
    Failed,
    ReadBaseline,
    ListHistory { start: i64 },
    ListLabel { bucket: usize, max_results: u32 },
    FetchMessages { ids: Seq<Seq<char>> },
}

impl View for SyncRequest {
    type V = RequestView;

    open spec fn view(&self) -> RequestView {
        match self {
            SyncRequest::Wait => RequestView::Wait,
            SyncRequest::Failed => RequestView::Failed,
            SyncRequest::ReadBaseline => RequestView::ReadBaseline,
            SyncRequest::ListHistory { start } => RequestView::ListHistory { start: *start },
            SyncRequest::ListLabel { bucket, max_results } => RequestView::ListLabel {
                bucket: *bucket,
                max_results: *max_results,
            },
            SyncRequest::FetchMessages { ids } => RequestView::FetchMessages { ids: texts(ids@) },
        }
    }
}

/// What the caller hands to the engine: the start of a pass or of a step,
/// or the answer of the remote service to the last request.
#[derive(Debug)]
pub enum SyncEvent {
    /// A first full pass is to start, with listings of `max_results`
    /// messages.
    Bootstrap { has_credential: bool, max_results: u32 },
    /// The time of an incremental step has come.
    Tick { has_credential: bool },
    /// The current cursor of the mailbox, or `None` where it could not be
    /// had.
    Baseline(Option<String>),
    /// The answer to a request for the change log: its status, or `None`
    /// where no answer came, and its body.
    History { status: Option<u16>, body: String },
    /// The listing of a bucket, or `None` where it could not be had.
    Listing(Option<Vec<GmailMessageRef>>),
    /// The answer to one request for a message: the message, or `None`
    /// where the fetch failed.
    Message(Option<GmailMessage>),
}

/// An event as a mathematical value; of a listing it holds the ids.
pub enum EventView {
    Bootstrap { has_credential: bool, max_results: u32 },
    Tick { has_credential: bool },
    Baseline(Option<Seq<char>>),
    History { status: Option<u16>, body: Seq<char> },
    Listing(Option<Seq<Seq<char>>>),
    Message(Option<GmailMessage>),
}

/// The ids of a list of message references, in order.
pub open spec fn ref_ids(refs: Seq<GmailMessageRef>) -> Seq<Seq<char>> {
    refs.map_values(|r: GmailMessageRef| r.id@)
}

impl View for SyncEvent {
    type V = EventView;

    open spec fn view(&self) -> EventView {
        match self {
            SyncEvent::Bootstrap { has_credential, max_results } => EventView::Bootstrap {
                has_credential: *has_credential,
                max_results: *max_results,
            },
            SyncEvent::Tick { has_credential } => EventView::Tick {
                has_credential: *has_credential,
            },
            SyncEvent::Baseline(b) => EventView::Baseline(optional_text(*b)),
            SyncEvent::History { status, body } => EventView::History {
                status: *status,
                body: body@,
            },
            SyncEvent::Listing(refs) => EventView::Listing(
                match refs {
                    Some(l) => Some(ref_ids(l@)),
                    None => None,
                },
            ),
            SyncEvent::Message(full) => EventView::Message(*full),
        }
    }
}

/// The synchronisation engine: the cache and the state of the current
/// step.
#[derive(Debug)]
pub struct SyncManager {
    pub cache: Cache,
    pub phase: SyncPhase,
}

/// The engine as a mathematical value: the rows and the scalar state of
/// its cache, and its phase.
pub struct EngineView {
    pub rows: Map<Seq<char>, CachedMessageView>,
    pub meta: Map<Seq<char>, Seq<char>>,
    pub phase: PhaseView,
}

impl View for SyncManager {
    type V = EngineView;

    open spec fn view(&self) -> EngineView {
        EngineView { rows: self.cache.rows(), meta: self.cache.meta(), phase: self.phase@ }
    }
}

/// The rows and the index after the deletions that stand in `changes` from
/// `next` on, up to the first change that needs a message to be fetched.
pub open spec fn after_deletions(
    rows: Map<Seq<char>, CachedMessageView>,
    changes: Seq<(ChangeKind, Seq<char>)>,
    next: int,
) -> (Map<Seq<char>, CachedMessageView>, int)
    decreases changes.len() - next,
{
    if 0 <= next < changes.len() && changes[next].0 == ChangeKind::Deleted {
        after_deletions(rows.remove(changes[next].1), changes, next + 1)
    } else {
        (rows, next)
    }
}

/// Where the application of `changes` from `next` on comes to rest: at the
/// first change whose message has to be fetched, which is asked for, or at
/// the end, where the cursor of the response is stored.
pub open spec fn settle(
    rows: Map<Seq<char>, CachedMessageView>,
    meta: Map<Seq<char>, Seq<char>>,
    changes: Seq<(ChangeKind, Seq<char>)>,
    next: nat,
    cursor: Option<Seq<char>>,
    history_id: Option<i64>,
) -> (EngineView, RequestView) {
    let (left, stop) = after_deletions(rows, changes, next as int);
    if stop < changes.len() {
        (
            EngineView {
                rows: left,
                meta,
                phase: PhaseView::Applying { changes, next: stop as nat, cursor, history_id },
            },
            RequestView::FetchMessages { ids: seq![changes[stop].1] },
        )
    } else {
        (
            EngineView {
                rows: left,
                meta: match cursor {
                    Some(c) => meta.insert(cursor_key(), c),
                    None => meta,
                },
                phase: PhaseView::Idle,
            },
            RequestView::Wait,
        )
    }
}

/// How a pass leaves its bucket: for the listing of the next bucket, or,
/// after the last, for the end of the pass. There a first full pass
/// stores its cursor, and a recovery pass asks for the current one.
pub open spec fn leave(
    pass: PassView,
    rows: Map<Seq<char>, CachedMessageView>,
    meta: Map<Seq<char>, Seq<char>>,
) -> (EngineView, RequestView) {
    if pass.bucket < BUCKET_COUNT - 1 {
        let bucket = (pass.bucket + 1) as usize;
        (
            EngineView {
                rows,
                meta,
                phase: PhaseView::Listing { pass: PassView { bucket, ..pass } },
            },
            RequestView::ListLabel { bucket, max_results: pass.page_size },
        )
    } else {
        match pass.baseline {
            Some(b) => (
                EngineView { rows, meta: meta.insert(cursor_key(), b), phase: PhaseView::Idle },
                RequestView::Wait,
            ),
            None => (
                EngineView { rows, meta, phase: PhaseView::AwaitingNewBaseline },
                RequestView::ReadBaseline,
            ),
        }
    }
}

/// How a pass goes on with its bucket, with `flying` fetches in flight and
/// `started` of the ids `queued` handed out: it hands out as many more as
/// the limit allows and asks for them, or, with nothing left to fetch and
/// nothing in flight, leaves the bucket.
pub open spec fn carry_on(
    pass: PassView,
    queued: Seq<Seq<char>>,
    started: nat,
    flying: nat,
    limit: nat,
    rows: Map<Seq<char>, CachedMessageView>,
    meta: Map<Seq<char>, Seq<char>>,
) -> (EngineView, RequestView) {
    let left = if started <= queued.len() {
        queued.len() - started
    } else {
        0
    };
    let room = if flying <= limit {
        limit - flying
    } else {
        0
    };
    let more = if room < left {
        room
    } else {
        left
    };
    if flying == 0 && left == 0 {
        leave(pass, rows, meta)
    } else {
        (
            EngineView {
                rows,
                meta,
                phase: PhaseView::Fetching {
                    pass,
                    queued,
                    started: (started + more) as nat,
                    in_flight: (flying + more) as nat,
                    limit,
                },
            },
            RequestView::FetchMessages { ids: queued.subrange(started as int, started + more) },
        )
    }
}

/// The ids of `ids` that a first full pass has yet to fetch: those that
/// have no row, each once, in the order of their first occurrence.
pub open spec fn unseen(
    ids: Seq<Seq<char>>,
    rows: Map<Seq<char>, CachedMessageView>,
) -> Seq<Seq<char>>
    decreases ids.len(),
{
    if ids.len() == 0 {
        Seq::empty()
    } else {
        let rest = unseen(ids.drop_last(), rows);
        if rows.contains_key(ids.last()) || rest.contains(ids.last()) {
            rest
        } else {
            rest.push(ids.last())
        }
    }
}

/// The ids that a pass fetches of a listing: a first full pass fetches
/// what it has not stored yet, a recovery pass fetches every listed
/// message again.
pub open spec fn to_fetch(
    ids: Seq<Seq<char>>,
    rows: Map<Seq<char>, CachedMessageView>,
    pass: PassView,
) -> Seq<Seq<char>> {
    if pass.baseline.is_some() {
        unseen(ids, rows)
    } else {
        ids
    }
}

/// The rows after a pass has taken in the fetched message `full`: a first
/// full pass stores a message once and skips it when its id is stored
/// already; a recovery pass overwrites.
pub open spec fn pass_rows(
    rows: Map<Seq<char>, CachedMessageView>,
    pass: PassView,
    full: Option<GmailMessage>,
) -> Map<Seq<char>, CachedMessageView> {
    match full {
        Some(f) => if pass.baseline.is_some() && rows.contains_key(f.id@) {
            rows
        } else {
            rows.insert(f.id@, mirror_row(f, None))
        },
        None => rows,
    }
}

/// The engine after the event `e`, and what it asks for.
///
/// A first full pass starts by asking for the current cursor of the
/// mailbox; without a credential it fails at once. With the cursor it
/// clears the rows and lists the first bucket; without, it fails.
///
/// An incremental step starts at rest, with a credential and a stored
/// cursor, by asking for the change log from that cursor on; a stored
/// value that is no cursor is deleted. A rejected cursor (status 400) is
/// deleted and a recovery pass lists the first bucket. The changes of a
/// successful answer are applied in their order, each fetched message in
/// its turn, and the cursor of the answer is stored at the end. Any other
/// answer ends the step and leaves the cache as it is.
///
/// A pass fetches the messages of each listing, no more than the limit at
/// a time, and goes from bucket to bucket; a listing or a fetch that
/// failed is passed over. What does not answer the last request changes
/// nothing.
pub open spec fn step_spec(s: EngineView, e: EventView) -> (EngineView, RequestView) {
    match e {
        EventView::Bootstrap { has_credential, max_results } => if has_credential {
            (
                EngineView { phase: PhaseView::AwaitingBaseline { page_size: max_results }, ..s },
                RequestView::ReadBaseline,
            )
        } else {
            (s, RequestView::Failed)
        },
        EventView::Tick { has_credential } => if s.phase is Idle && has_credential {
            match stored_cursor(s.meta) {
                Some(start) => (
                    EngineView { phase: PhaseView::AwaitingHistory { start }, ..s },
                    RequestView::ListHistory { start },
                ),
                None => (
                    EngineView { meta: s.meta.remove(cursor_key()), ..s },
                    RequestView::Wait,
                ),
            }
        } else {
            (s, RequestView::Wait)
        },
        EventView::Baseline(baseline) => match s.phase {
            PhaseView::AwaitingBaseline { page_size } => match baseline {
                Some(b) => (
                    EngineView {
                        rows: Map::empty(),
                        meta: s.meta,
                        phase: PhaseView::Listing {
                            pass: PassView { bucket: 0, page_size, baseline: Some(b) },
                        },
                    },
                    RequestView::ListLabel { bucket: 0, max_results: page_size },
                ),
                None => (EngineView { phase: PhaseView::Idle, ..s }, RequestView::Failed),
            },
            PhaseView::AwaitingNewBaseline => (
                EngineView {
                    meta: match baseline {
                        Some(b) => s.meta.insert(cursor_key(), b),
                        None => s.meta,
                    },
                    phase: PhaseView::Idle,
                    ..s
                },
                RequestView::Wait,
            ),
            _ => (s, RequestView::Wait),
        },
        EventView::History { status, body } => match s.phase {
            PhaseView::AwaitingHistory { start } => if status == Some(BAD_REQUEST) {
                (
                    EngineView {
                        meta: s.meta.remove(cursor_key()),
                        phase: PhaseView::Listing {
                            pass: PassView {
                                bucket: 0,
                                page_size: RESYNC_PAGE_SIZE,
                                baseline: None,
                            },
                        },
                        ..s
                    },
                    RequestView::ListLabel { bucket: 0, max_results: RESYNC_PAGE_SIZE },
                )
            } else if status.is_some() && success_status(status.unwrap()) && json_document(
                body,
            ).is_some() {
                let doc = json_document(body).unwrap();
                settle(
                    s.rows,
                    s.meta,
                    response_changes(doc),
                    0,
                    response_cursor(doc),
                    response_history_number(doc),
                )
            } else {
                (EngineView { phase: PhaseView::Idle, ..s }, RequestView::Wait)
            },
            _ => (s, RequestView::Wait),
        },
        EventView::Listing(listed) => match s.phase {
            PhaseView::Listing { pass } => carry_on(
                pass,
                match listed {
                    Some(ids) => to_fetch(ids, s.rows, pass),
                    None => Seq::empty(),
                },
                0,
                0,
                SYNC_FETCH_LIMIT as nat,
                s.rows,
                s.meta,
            ),
            _ => (s, RequestView::Wait),
        },
        EventView::Message(full) => match s.phase {
            PhaseView::Applying { changes, next, cursor, history_id } => if next < changes.len() {
                settle(
                    match full {
                        Some(f) => s.rows.insert(f.id@, mirror_row(f, history_id)),
                        None => s.rows,
                    },
                    s.meta,
                    changes,
                    next + 1,
                    cursor,
                    history_id,
                )
            } else {
                settle(s.rows, s.meta, changes, next, cursor, history_id)
            },
            PhaseView::Fetching { pass, queued, started, in_flight, limit } => carry_on(
                pass,
                queued,
                started,
                if in_flight > 0 {
                    (in_flight - 1) as nat
                } else {
                    0
                },
                limit,
                pass_rows(s.rows, pass, full),
                s.meta,
            ),
            _ => (s, RequestView::Wait),
        },
    }
}

/// Whether `id` is among `ids`.
fn is_listed(ids: &Vec<String>, id: &str) -> (r: bool)
    ensures
        r == texts(ids@).contains(id@),
{
    let mut i: usize = 0;
    while i < ids.len()
        invariant
            i <= ids.len(),
            forall|k: int| 0 <= k < i ==> texts(ids@)[k] != id@,
        decreases ids.len() - i,
    {
        if same_text(ids[i].as_str(), id) {
            proof {
                assert(texts(ids@)[i as int] == id@);
            }
            return true;
        }
        i += 1;
    }
    false
}

impl SyncManager {
    /// An engine over `cache`, at rest.
    pub fn new(cache: Cache) -> (r: Self)
        ensures
            r.cache == cache,
            r.phase is Idle,
    {
        SyncManager { cache, phase: SyncPhase::Idle }
    }

    /// The cached messages that a listing with the comma-separated label
    /// filter `label_ids` returns, newest first. The page size and the
    /// page token play no part here.
    pub fn get_cached_metadata_list(
        &self,
        _max_results: u32,
        _page_token: Option<String>,
        label_ids: &str,
    ) -> (r: Vec<CachedMessage>)
        ensures
            exists|all: Seq<CachedMessage>|
                #![trigger lists_rows(all, self.cache.rows())]
                lists_rows(all, self.cache.rows()) && newest_first(all) && r@ == selection(
                    all,
                    label_ids@,
                ),
    {
        let all = self.cache.load_all_messages();
        let r = filter_by_labels(&all, label_ids);
        proof {
            assert(lists_rows(all@, self.cache.rows()) && newest_first(all@) && r@ == selection(
                all@,
                label_ids@,
            ));
        }
        r
    }

    /// Takes the event `event`, changes the cache accordingly and names
    /// the next request.
    pub fn step(&mut self, event: SyncEvent) -> (r: SyncRequest)
        ensures
            final(self)@ == step_spec(old(self)@, event@).0,
            r@ == step_spec(old(self)@, event@).1,
    {
        match event {
            SyncEvent::Bootstrap { has_credential, max_results } => self.initial_sync(
                has_credential,
                max_results,
            ),
            SyncEvent::Tick { has_credential } => self.tick(has_credential),
            SyncEvent::Baseline(baseline) => self.on_baseline(baseline),
            SyncEvent::History { status, body } => self.on_history(status, body.as_str()),
            SyncEvent::Listing(refs) => self.on_listing(refs),
            SyncEvent::Message(full) => self.on_message(full),
        }
    }

    /// Starts a first full pass with listings of `max_results` messages:
    /// asks for the current cursor of the mailbox. An unfinished step is
    /// given up. Without a credential the pass fails at once and nothing
    /// changes.
    pub fn initial_sync(&mut self, has_credential: bool, max_results: u32) -> (r: SyncRequest)
        ensures
            final(self)@ == step_spec(
                old(self)@,
                EventView::Bootstrap { has_credential, max_results },
            ).0,
            r@ == step_spec(old(self)@, EventView::Bootstrap { has_credential, max_results }).1,
            final(self).cache == old(self).cache,
    {
        if !has_credential {
            return SyncRequest::Failed;
        }
        self.phase = SyncPhase::AwaitingBaseline { page_size: max_results };
        SyncRequest::ReadBaseline
    }

    /// Takes the current cursor of the mailbox, or `None` where it could
    /// not be had. A first full pass that gets one clears the cache and
    /// asks for the listing of the first bucket; without one it fails. A
    /// recovery pass that gets one stores it. At any other time nothing
    /// changes.
    pub fn on_baseline(&mut self, baseline: Option<String>) -> (r: SyncRequest)
        ensures
            final(self)@ == step_spec(old(self)@, EventView::Baseline(optional_text(baseline))).0,
            r@ == step_spec(old(self)@, EventView::Baseline(optional_text(baseline))).1,
    {
        let mut phase = SyncPhase::Idle;
        std::mem::swap(&mut self.phase, &mut phase);
        match phase {
            SyncPhase::AwaitingBaseline { page_size } => match baseline {
                Some(b) => {
                    self.cache.clear_all_messages();
                    self.phase = SyncPhase::Listing {
                        pass: Pass { bucket: 0, page_size, baseline: Some(b) },
                    };
                    SyncRequest::ListLabel { bucket: 0, max_results: page_size }
                },
                None => SyncRequest::Failed,
            },
            SyncPhase::AwaitingNewBaseline => {
                match baseline {
                    Some(b) => {
                        self.cache.set_meta("last_history_id", b.as_str());
                    },
                    None => {},
                }
                SyncRequest::Wait
            },
            other => {
                self.phase = other;
                SyncRequest::Wait
            },
        }
    }

    /// Starts an incremental step. At rest, with a credential and with a
    /// stored cursor, it asks for the change log from that cursor on. A
    /// stored value that is no cursor is deleted, and the step is over.
    /// Without a credential, and while another step is under way, nothing
    /// changes.
    pub fn tick(&mut self, has_credential: bool) -> (r: SyncRequest)
        ensures
            final(self)@ == step_spec(old(self)@, EventView::Tick { has_credential }).0,
            r@ == step_spec(old(self)@, EventView::Tick { has_credential }).1,
    {
        if !has_credential {
            return SyncRequest::Wait;
        }
        match &self.phase {
            SyncPhase::Idle => {},
            _ => {
                return SyncRequest::Wait;
            },
        }
        match read_cursor(&mut self.cache) {
            Some(start) => {
                self.phase = SyncPhase::AwaitingHistory { start };
                SyncRequest::ListHistory { start }
            },
            None => SyncRequest::Wait,
        }
    }

    /// Applies the deletions that stand in `changes` from `next` on, and
    /// comes to rest at the first change that needs its message fetched or
    /// at the end of the changes.
    fn resume(
        &mut self,
        changes: Vec<Change>,
        next: usize,
        cursor: Option<String>,
        history_id: Option<i64>,
    ) -> (r: SyncRequest)
        requires
            next <= changes.len(),
        ensures
            (final(self)@, r@) == settle(
                old(self).cache.rows(),
                old(self).cache.meta(),
                change_views(changes@),
                next as nat,
                optional_text(cursor),
                history_id,
            ),
    {
        let ghost rows = self.cache.rows();
        let ghost list = change_views(changes@);
        let mut at: usize = next;
        while at < changes.len()
            invariant
                next <= at <= changes.len(),
                list == change_views(changes@),
                rows == old(self).cache.rows(),
                self.cache.meta() == old(self).cache.meta(),
                after_deletions(rows, list, next as int) == after_deletions(
                    self.cache.rows(),
                    list,
                    at as int,
                ),
            decreases changes.len() - at,
        {
            proof {
                assert(list[at as int] == changes@[at as int]@);
            }
            match changes[at].kind {
                ChangeKind::Deleted => {
                    self.cache.delete_message(changes[at].message_id.as_str());
                    at += 1;
                },
                _ => {
                    let mut ids: Vec<String> = Vec::new();
                    ids.push(changes[at].message_id.clone());
                    proof {
                        assert(texts(ids@) =~= seq![list[at as int].1]);
                        assert(after_deletions(self.cache.rows(), list, at as int) == (
                            self.cache.rows(),
                            at as int,
                        ));
                    }
                    self.phase = SyncPhase::Applying { changes, next: at, cursor, history_id };
                    return SyncRequest::FetchMessages { ids };
                },
            }
        }
        match cursor {
            Some(c) => {
                self.cache.set_meta("last_history_id", c.as_str());
            },
            None => {},
        }
        self.phase = SyncPhase::Idle;
        SyncRequest::Wait
    }

    /// Takes the answer to a request for the change log: its status, or
    /// `None` where no answer came, and its body. A rejected cursor (400)
    /// is deleted and a recovery pass begins with the listing of the first
    /// bucket. The changes of a successful answer are applied in order, up
    /// to the first that needs its message fetched. On any other answer
    /// the step is over and the cache stays as it is.
    pub fn on_history(&mut self, status: Option<u16>, body: &str) -> (r: SyncRequest)
        ensures
            final(self)@ == step_spec(old(self)@, EventView::History { status, body: body@ }).0,
            r@ == step_spec(old(self)@, EventView::History { status, body: body@ }).1,
    {
        let mut phase = SyncPhase::Idle;
        std::mem::swap(&mut self.phase, &mut phase);
        match phase {
            SyncPhase::AwaitingHistory { start } => {
                let code = match status {
                    Some(c) => c,
                    None => {
                        return SyncRequest::Wait;
                    },
                };
                if code == BAD_REQUEST {
                    self.cache.delete_meta("last_history_id");
                    self.phase = SyncPhase::Listing {
                        pass: Pass { bucket: 0, page_size: RESYNC_PAGE_SIZE, baseline: None },
                    };
                    return SyncRequest::ListLabel { bucket: 0, max_results: RESYNC_PAGE_SIZE };
                }
                if !is_success(code) {
                    return SyncRequest::Wait;
                }
                match parse_document(body) {
                    Some(doc) => {
                        let changes = changes_of(&doc);
                        let cursor = cursor_of(&doc);
                        let history_id = history_number_of(&doc);
                        self.resume(changes, 0, cursor, history_id)
                    },
                    None => SyncRequest::Wait,
                }
            },
            other => {
                self.phase = other;
                SyncRequest::Wait
            },
        }
    }

    /// Leaves the bucket of `pass`.
    fn leave_bucket(&mut self, pass: Pass) -> (r: SyncRequest)
        ensures
            (final(self)@, r@) == leave(pass@, old(self).cache.rows(), old(self).cache.meta()),
    {
        if pass.bucket < BUCKET_COUNT - 1 {
            let bucket = pass.bucket + 1;
            let max_results = pass.page_size;
            self.phase = SyncPhase::Listing {
                pass: Pass { bucket, page_size: pass.page_size, baseline: pass.baseline },
            };
            SyncRequest::ListLabel { bucket, max_results }
        } else {
            match pass.baseline {
                Some(b) => {
                    self.cache.set_meta("last_history_id", b.as_str());
                    self.phase = SyncPhase::Idle;
                    SyncRequest::Wait
                },
                None => {
                    self.phase = SyncPhase::AwaitingNewBaseline;
                    SyncRequest::ReadBaseline
                },
            }
        }
    }

    /// Goes on with the bucket of `pass`, after one of its fetches has
    /// ended where `ended` is set.
    fn continue_bucket(&mut self, pass: Pass, fan: FanOut, ended: bool) -> (r: SyncRequest)
        ensures
            (final(self)@, r@) == carry_on(
                pass@,
                fan.queued(),
                fan.started(),
                if ended && fan.in_flight() > 0 {
                    (fan.in_flight() - 1) as nat
                } else {
                    fan.in_flight()
                },
                fan.limit(),
                old(self).cache.rows(),
                old(self).cache.meta(),
            ),
    {
        let mut fan = fan;
        if ended {
            fan.complete();
        }
        if fan.fetches_in_flight() == 0 && fan.is_done() {
            return self.leave_bucket(pass);
        }
        let ghost first = fan.started();
        let ids = fan.start_all();
        proof {
            assert(texts(ids@) =~= ids@.map_values(|s: String| s@));
            assert(fan.started() == first + ids.len());
        }
        self.phase = SyncPhase::Fetching { pass, fan };
        SyncRequest::FetchMessages { ids }
    }

    /// Takes the listing of a bucket, or `None` where it could not be had.
    /// The pass starts to fetch the listed messages, no more than 8 at a
    /// time; a first full pass leaves out what it has stored already.
    /// With nothing to fetch the pass leaves the bucket. At any other time
    /// nothing changes.
    pub fn on_listing(&mut self, refs: Option<Vec<GmailMessageRef>>) -> (r: SyncRequest)
        ensures
            final(self)@ == step_spec(
                old(self)@,
                EventView::Listing(
                    match refs {
                        Some(l) => Some(ref_ids(l@)),
                        None => None,
                    },
                ),
            ).0,
            r@ == step_spec(
                old(self)@,
                EventView::Listing(
                    match refs {
                        Some(l) => Some(ref_ids(l@)),
                        None => None,
                    },
                ),
            ).1,
    {
        let mut phase = SyncPhase::Idle;
        std::mem::swap(&mut self.phase, &mut phase);
        match phase {
            SyncPhase::Listing { pass } => {
                let mut ids: Vec<String> = Vec::new();
                let once = pass.baseline.is_some();
                match refs {
                    Some(list) => {
                        let mut i: usize = 0;
                        proof {
                            assert(ref_ids(list@).take(0) =~= Seq::<Seq<char>>::empty());
                            assert(texts(ids@) =~= Seq::<Seq<char>>::empty());
                        }
                        while i < list.len()
                            invariant
                                i <= list.len(),
                                once == pass.baseline.is_some(),
                                texts(ids@) == to_fetch(
                                    ref_ids(list@).take(i as int),
                                    self.cache.rows(),
                                    pass@,
                                ),
                            decreases list.len() - i,
                        {
                            let id = list[i].id.as_str();
                            proof {
                                let listed = ref_ids(list@);
                                assert(listed.take(i + 1).drop_last() =~= listed.take(i as int));
                                assert(listed.take(i + 1).last() == id@);
                                assert(listed.take(i + 1) =~= listed.take(i as int).push(id@));
                            }
                            let skip = once && (self.cache.contains_message(id) || is_listed(
                                &ids,
                                id,
                            ));
                            if !skip {
                                let ghost was = ids@;
                                ids.push(list[i].id.clone());
                                proof {
                                    assert(texts(ids@) =~= texts(was).push(id@));
                                }
                            }
                            i += 1;
                        }
                        proof {
                            assert(ref_ids(list@).take(i as int) == ref_ids(list@));
                        }
                    },
                    None => {
                        proof {
                            assert(texts(ids@) =~= Seq::<Seq<char>>::empty());
                        }
                    },
                }
                let fan = FanOut::for_sync(ids);
                proof {
                    assert(fan.queued() =~= texts(ids@));
                }
                self.continue_bucket(pass, fan, false)
            },
            other => {
                self.phase = other;
                SyncRequest::Wait
            },
        }
    }

    /// Takes the answer to one request for a message: the message, or
    /// `None` where the fetch failed. While changes are applied, the
    /// message is stored in place of what is stored under its id, and the
    /// changes that follow are applied up to the next that needs its
    /// message fetched. During a pass the message is stored, the fetch
    /// counts as ended and the pass goes on. A fetch that failed stores
    /// nothing. At any other time nothing changes.
    pub fn on_message(&mut self, full: Option<GmailMessage>) -> (r: SyncRequest)
        ensures
            final(self)@ == step_spec(old(self)@, EventView::Message(full)).0,
            r@ == step_spec(old(self)@, EventView::Message(full)).1,
    {
        let mut phase = SyncPhase::Idle;
        std::mem::swap(&mut self.phase, &mut phase);
        match phase {
            SyncPhase::Applying { changes, next, cursor, history_id } => {
                if next < changes.len() {
                    match full {
                        Some(f) => {
                            let row = to_cached_message(&f, history_id);
                            self.cache.upsert_message(&row);
                        },
                        None => {},
                    }
                    self.resume(changes, next + 1, cursor, history_id)
                } else {
                    proof {
                        let list = change_views(changes@);
                        assert(after_deletions(self.cache.rows(), list, next as int) == (
                            self.cache.rows(),
                            next as int,
                        ));
                        assert(after_deletions(self.cache.rows(), list, list.len() as int) == (
                            self.cache.rows(),
                            list.len() as int,
                        ));
                    }
                    let end = changes.len();
                    self.resume(changes, end, cursor, history_id)
                }
            },
            SyncPhase::Fetching { pass, fan } => {
                match full {
                    Some(f) => {
                        let known = pass.baseline.is_some() && self.cache.contains_message(
                            f.id.as_str(),
                        );
                        if !known {
                            let row = to_cached_message(&f, None);
                            self.cache.upsert_message(&row);
                        }
                    },
                    None => {},
                }
                self.continue_bucket(pass, fan, true)
            },
            other => {
                self.phase = other;
                SyncRequest::Wait
            },
        }
    }
}

/// The engine after the events `events`, one after the other.
pub open spec fn run(s: EngineView, events: Seq<EventView>) -> EngineView
    decreases events.len(),
{
    if events.len() == 0 {
        s
    } else {
        step_spec(run(s, events.drop_last()), events.last()).0
    }
}

/// An engine in recovery: no cursor is stored, and a recovery pass is
/// under way or has asked for the current cursor of the mailbox.
pub open spec fn recovering(s: EngineView) -> bool {
    &&& !s.meta.contains_key(cursor_key())
    &&& match s.phase {
        PhaseView::Listing { pass } => pass.baseline.is_none(),
        PhaseView::Fetching { pass, .. } => pass.baseline.is_none(),
        PhaseView::AwaitingNewBaseline => true,
        _ => false,
    }
}

/// A rejected cursor is deleted: the answer 400 to a request for the
/// change log puts the engine in recovery, with the listing of the first
/// bucket asked for and the rows as they were.
pub proof fn law_rejected_cursor_starts_recovery(s: EngineView, body: Seq<char>)
    requires
        s.phase is AwaitingHistory,
    ensures
        ({
            let (t, request) = step_spec(s, EventView::History { status: Some(400), body });
            &&& recovering(t)
            &&& t.rows == s.rows
            &&& request == (RequestView::ListLabel { bucket: 0, max_results: RESYNC_PAGE_SIZE })
        }),
{
}

/// In recovery no cursor comes to be stored before the mailbox has
/// reported a new one: whatever listing or message is handed in, and
/// whatever step is asked for, the engine stays in recovery.
pub proof fn law_recovery_stores_no_cursor(s: EngineView, e: EventView)
    requires
        recovering(s),
        !(e is Baseline),
        !(e is Bootstrap),
    ensures
        recovering(step_spec(s, e).0),
{
}

/// A pass takes the buckets in turn: a listing or a message leaves the
/// pass in its bucket, or takes it to the next bucket, whose listing is
/// asked for, or, from the last bucket only, to its end.
pub proof fn law_pass_takes_the_buckets_in_turn(s: EngineView, e: EventView)
    requires
        e is Listing || e is Message,
        s.phase is Listing || s.phase is Fetching,
    ensures
        ({
            let pass = match s.phase {
                PhaseView::Listing { pass } => pass,
                PhaseView::Fetching { pass, .. } => pass,
                _ => arbitrary(),
            };
            let (t, request) = step_spec(s, e);
            let next = PassView { bucket: (pass.bucket + 1) as usize, ..pass };
            match t.phase {
                PhaseView::Fetching { pass: p, .. } => p == pass,
                PhaseView::Listing { pass: p } => p == pass || (p == next && request == (
                RequestView::ListLabel { bucket: next.bucket, max_results: next.page_size })),
                _ => pass.bucket >= BUCKET_COUNT - 1,
            }
        }),
{
}

/// Recovery replaces the cursor. After a rejected cursor, and after any
/// listings and messages that take the recovery pass to its end, no
/// cursor is stored; once the mailbox has reported the cursor `baseline`,
/// that cursor is stored, whatever had been stored before, and the next
/// incremental step asks for the change log from it.
pub proof fn law_recovery_replaces_cursor(
    s: EngineView,
    body: Seq<char>,
    events: Seq<EventView>,
    baseline: Seq<char>,
)
    requires
        s.phase is AwaitingHistory,
        forall|i: int| 0 <= i < events.len() ==> events[i] is Listing || events[i] is Message,
        run(step_spec(s, EventView::History { status: Some(400), body }).0, events).phase
            is AwaitingNewBaseline,
    ensures
        ({
            let rejected = step_spec(s, EventView::History { status: Some(400), body }).0;
            let over = run(rejected, events);
            let (renewed, _) = step_spec(over, EventView::Baseline(Some(baseline)));
            let (_, request) = step_spec(renewed, EventView::Tick { has_credential: true });
            &&& stored_cursor(over.meta).is_none()
            &&& renewed.phase is Idle
            &&& renewed.rows == over.rows
            &&& stored_cursor(renewed.meta) == decimal_i64(trimmed(baseline))
            &&& request == match decimal_i64(trimmed(baseline)) {
                Some(start) => RequestView::ListHistory { start },
                None => RequestView::Wait,
            }
        }),
{
    let rejected = step_spec(s, EventView::History { status: Some(400), body }).0;
    law_rejected_cursor_starts_recovery(s, body);
    lemma_recovery_lasts(rejected, events);
}

/// Listings and messages leave an engine in recovery.
proof fn lemma_recovery_lasts(s: EngineView, events: Seq<EventView>)
    requires
        recovering(s),
        forall|i: int| 0 <= i < events.len() ==> events[i] is Listing || events[i] is Message,
    ensures
        recovering(run(s, events)),
    decreases events.len(),
{
    if events.len() > 0 {
        let front = events.drop_last();
        assert forall|i: int| 0 <= i < front.len() implies front[i] is Listing
            || front[i] is Message by {
            assert(front[i] == events[i]);
        }
        lemma_recovery_lasts(s, front);
        law_recovery_stores_no_cursor(run(s, front), events.last());
    }
}

/// Whether no more fetches are in flight than the synchronisation allows:
/// while a pass fetches, at most 8.
pub open spec fn fetches_bounded(s: EngineView) -> bool {
    s.phase matches PhaseView::Fetching { in_flight, limit, .. } ==> in_flight <= limit && limit
        == SYNC_FETCH_LIMIT
}

/// At no point are more than 8 fetches of the synchronisation in flight,
/// however many messages are queued: no event takes the engine from a
/// state within the bound to one beyond it.
pub proof fn law_at_most_eight_fetches_in_flight(s: EngineView, e: EventView)
    requires
        fetches_bounded(s),
    ensures
        fetches_bounded(step_spec(s, e).0),
{
}

/// The bound on the fetches in flight holds after any events, from any
/// state in which nothing is being fetched.
pub proof fn law_fetches_stay_bounded(s: EngineView, events: Seq<EventView>)
    requires
        !(s.phase is Fetching),
    ensures
        fetches_bounded(run(s, events)),
    decreases events.len(),
{
    if events.len() > 0 {
        law_fetches_stay_bounded(s, events.drop_last());
        law_at_most_eight_fetches_in_flight(run(s, events.drop_last()), events.last());
    }
}

/// A first full pass stores each message once: a row that is stored stays
/// as it is, whatever is fetched afterwards.
pub proof fn law_first_pass_stores_once(
    rows: Map<Seq<char>, CachedMessageView>,
    pass: PassView,
    full: Option<GmailMessage>,
    id: Seq<char>,
)
    requires
        pass.baseline.is_some(),
        rows.contains_key(id),
    ensures
        pass_rows(rows, pass, full).contains_key(id),
        pass_rows(rows, pass, full)[id] == rows[id],
{
}

/// A first full pass fetches of a listing only what it has not stored,
/// and each message once.
pub proof fn law_first_pass_fetches_once(
    ids: Seq<Seq<char>>,
    rows: Map<Seq<char>, CachedMessageView>,
)
    ensures
        forall|i: int|
            0 <= i < unseen(ids, rows).len() ==> !rows.contains_key(#[trigger] unseen(ids, rows)[i])
                && ids.contains(unseen(ids, rows)[i]),
        forall|i: int, j: int|
            0 <= i < j < unseen(ids, rows).len() ==> unseen(ids, rows)[i] != unseen(ids, rows)[j],
        forall|k: int|
            0 <= k < ids.len() && !rows.contains_key(ids[k]) ==> unseen(ids, rows).contains(
                #[trigger] ids[k],
            ),
    decreases ids.len(),
{
    if ids.len() > 0 {
        let front = ids.drop_last();
        let rest = unseen(front, rows);
        let all = unseen(ids, rows);
        law_first_pass_fetches_once(front, rows);
        assert forall|i: int| 0 <= i < all.len() implies !rows.contains_key(#[trigger] all[i])
            && ids.contains(all[i]) by {
            if i < rest.len() {
                assert(all[i] == rest[i]);
                assert(front.contains(rest[i]));
                let w = choose|w: int| 0 <= w < front.len() && front[w] == rest[i];
                assert(ids[w] == rest[i]);
            } else {
                assert(ids[ids.len() - 1] == all[i]);
            }
        }
        assert forall|i: int, j: int| 0 <= i < j < all.len() implies all[i] != all[j] by {
            if j < rest.len() {
                assert(all[i] == rest[i] && all[j] == rest[j]);
            } else {
                assert(all[i] == rest[i]);
                assert(rest.contains(rest[i]));
            }
        }
        assert forall|k: int| 0 <= k < ids.len() && !rows.contains_key(ids[k]) implies all.contains(
            #[trigger] ids[k],
        ) by {
            if k < front.len() {
                assert(front[k] == ids[k]);
                assert(rest.contains(front[k]));
                let w = choose|w: int| 0 <= w < rest.len() && rest[w] == front[k];
                assert(all[w] == ids[k]);
            } else if rest.contains(ids[k]) {
                let w = choose|w: int| 0 <= w < rest.len() && rest[w] == ids[k];
                assert(all[w] == ids[k]);
            } else {
                assert(all[rest.len() as int] == ids[k]);
            }
        }
    }
}

/// A change that reports the deletion of a message removes the row of
/// that message and no other row.
pub proof fn law_deleted_change_removes_only_its_row(
    rows: Map<Seq<char>, CachedMessageView>,
    changes: Seq<(ChangeKind, Seq<char>)>,
    next: int,
)
    requires
        0 <= next < changes.len(),
        changes[next].0 == ChangeKind::Deleted,
        next + 1 < changes.len() ==> changes[next + 1].0 != ChangeKind::Deleted,
    ensures
        after_deletions(rows, changes, next) == (rows.remove(changes[next].1), next + 1),
{
    assert(after_deletions(rows.remove(changes[next].1), changes, next + 1) == (
        rows.remove(changes[next].1),
        next + 1,
    ));
}

/// The changes of a response are applied in their order: where the
/// deletion of a message follows its addition, the message that is
/// fetched for the addition is stored and then removed, and no row is
/// left for it.
pub proof fn law_added_then_deleted_leaves_no_row(s: EngineView, full: GmailMessage)
    requires
        s.phase matches PhaseView::Applying { changes, next, .. } && next + 1 < changes.len()
            && changes[next as int + 1] == (ChangeKind::Deleted, full.id@),
    ensures
        !step_spec(s, EventView::Message(Some(full))).0.rows.contains_key(full.id@),
{
    match s.phase {
        PhaseView::Applying { changes, next, cursor, history_id } => {
            let stored = s.rows.insert(full.id@, mirror_row(full, history_id));
            lemma_deletions_only_remove(
                stored.remove(full.id@),
                changes,
                next as int + 2,
                full.id@,
            );
        },
        _ => {},
    }
}

/// Deletions store nothing: an id that has no row before them has none
/// after them.
proof fn lemma_deletions_only_remove(
    rows: Map<Seq<char>, CachedMessageView>,
    changes: Seq<(ChangeKind, Seq<char>)>,
    next: int,
    id: Seq<char>,
)
    requires
        !rows.contains_key(id),
    ensures
        !after_deletions(rows, changes, next).0.contains_key(id),
    decreases changes.len() - next,
{
    if 0 <= next < changes.len() && changes[next].0 == ChangeKind::Deleted {
        lemma_deletions_only_remove(rows.remove(changes[next].1), changes, next + 1, id);
    }
}

} // verus!
