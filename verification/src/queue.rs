//! The durable retry queue, modelled exactly: entries with attempt counts,
//! next-eligible times and a terminal failed status; due-item selection
//! ordered by next-eligible time; and the stats the UI shows.
//!
//! The store itself is the in-memory source of truth; persistence wraps it
//! outside the library and must preserve these operations one to one.

use vstd::prelude::*;
use crate::backoff::{MAX_RETRY_ATTEMPTS, MIN_QUEUE_DELAY_SECS, retry_delay_seconds,
    retry_delay_seconds_spec};
use crate::bookmark::{BookmarkPayload, BookmarkPayloadView};

verus! {

/// Failures of the persistence layer around the queue. The in-memory
/// operations below cannot fail; the wrapping store maps its own faults
/// into these.
#[derive(Clone, Debug, PartialEq)]
pub enum QueueStoreError {
    Db(String),
    Serde(String),
}

/// Scheduling state of an entry: pending entries are replayed, failed ones
/// are terminal but stay visible.
#[derive(Clone, Copy, PartialEq, Eq, Structural, Debug)]
pub enum EntryStatus {
    Pending,
    Failed,
}

/// Derived, read-only queue aggregate.
#[derive(Clone, Copy, PartialEq, Eq, Structural, Debug)]
pub struct QueueStats {
    pub pending: u64,
    pub failed: u64,
}

/// One queued submission, as handed to callers.
#[derive(Clone, Debug, PartialEq)]
pub struct QueueItem {
    pub id: i64,
    pub payload: BookmarkPayload,
    pub attempt_count: i64,
    pub next_attempt_at: i64,
    pub last_error: Option<String>,
}

/// Mathematical image of a [`QueueItem`].
#[verifier::ext_equal]
pub struct QueueItemView {
    pub id: i64,
    pub payload: BookmarkPayloadView,
    pub attempt_count: i64,
    pub next_attempt_at: i64,
    pub last_error: Option<Seq<char>>,
}

impl View for QueueItem {
    type V = QueueItemView;

    open spec fn view(&self) -> QueueItemView {
        QueueItemView {
            id: self.id,
            payload: self.payload@,
            attempt_count: self.attempt_count,
            next_attempt_at: self.next_attempt_at,
            last_error: self.last_error.deep_view(),
        }
    }
}

impl DeepView for QueueItem {
    type V = QueueItemView;

    open spec fn deep_view(&self) -> QueueItemView {
        self@
    }
}

/// One stored row: the item plus its status and bookkeeping times.
#[derive(Clone, Debug, PartialEq)]
pub struct QueueEntry {
    pub item: QueueItem,
    pub status: EntryStatus,
    pub created_at: i64,
    pub updated_at: i64,
}

/// Mathematical image of a [`QueueEntry`].
#[verifier::ext_equal]
pub struct QueueEntryView {
    pub item: QueueItemView,
    pub status: EntryStatus,
    pub created_at: i64,
    pub updated_at: i64,
}

impl View for QueueEntry {
    type V = QueueEntryView;

    open spec fn view(&self) -> QueueEntryView {
        QueueEntryView {
            item: self.item@,
            status: self.status,
            created_at: self.created_at,
            updated_at: self.updated_at,
        }
    }
}

impl DeepView for QueueEntry {
    type V = QueueEntryView;

    open spec fn deep_view(&self) -> QueueEntryView {
        self@
    }
}

/// The queue: entries in creation order, plus the next identity to assign.
pub struct QueueStore {
    entries: Vec<QueueEntry>,
    next_id: i64,
}

impl View for QueueStore {
    type V = Seq<QueueEntryView>;

    closed spec fn view(&self) -> Seq<QueueEntryView> {
        self.entries.deep_view()
    }
}

pub open spec fn is_pending(e: QueueEntryView) -> bool {
    e.status is Pending
}

/// A pending entry whose next-eligible time has arrived.
pub open spec fn is_due(e: QueueEntryView, now: i64) -> bool {
    is_pending(e) && e.item.next_attempt_at <= now
}

/// All pending entries, in creation order.
pub open spec fn pending_entries(s: Seq<QueueEntryView>) -> Seq<QueueEntryView> {
    s.filter(|e: QueueEntryView| is_pending(e))
}

/// The entries counted as failed for display: terminally failed ones, and
/// pending ones that have been retried at least once.
pub open spec fn failed_for_stats(e: QueueEntryView) -> bool {
    e.status is Failed || (is_pending(e) && e.item.attempt_count > 0)
}

pub open spec fn failed_entries(s: Seq<QueueEntryView>) -> Seq<QueueEntryView> {
    s.filter(|e: QueueEntryView| failed_for_stats(e))
}

/// The queue without the entry of the given identity.
pub open spec fn remove_entry(s: Seq<QueueEntryView>, id: i64) -> Seq<QueueEntryView> {
    s.filter(|e: QueueEntryView| e.item.id != id)
}

/// Earliest-deadline-first order: by next-eligible time, then by identity.
pub open spec fn key_le(a: QueueEntryView, b: QueueEntryView) -> bool {
    a.item.next_attempt_at < b.item.next_attempt_at || (a.item.next_attempt_at
        == b.item.next_attempt_at && a.item.id <= b.item.id)
}

pub open spec fn insert_sorted(e: QueueEntryView, s: Seq<QueueEntryView>) -> Seq<QueueEntryView>
    decreases s.len(),
{
    if s.len() == 0 {
        seq![e]
    } else if key_le(e, s[0]) {
        seq![e] + s
    } else {
        seq![s[0]] + insert_sorted(e, s.drop_first())
    }
}

pub open spec fn sort_into(s: Seq<QueueEntryView>, acc: Seq<QueueEntryView>) -> Seq<
    QueueEntryView,
>
    decreases s.len(),
{
    if s.len() == 0 {
        acc
    } else {
        sort_into(s.drop_first(), insert_sorted(s[0], acc))
    }
}

/// The due entries, sorted earliest-deadline-first.
pub open spec fn due_order(s: Seq<QueueEntryView>, now: i64) -> Seq<QueueEntryView> {
    sort_into(s.filter(|e: QueueEntryView| is_due(e, now)), Seq::empty())
}

/// A sequence cut to at most `n` elements.
pub open spec fn take_at_most<T>(s: Seq<T>, n: int) -> Seq<T> {
    if n < s.len() {
        s.take(n)
    } else {
        s
    }
}

/// The effective initial delay of a fresh entry: never below the minimum
/// queue delay.
pub open spec fn eff_initial_delay(d: i64) -> int {
    if d >= MIN_QUEUE_DELAY_SECS {
        d as int
    } else {
        MIN_QUEUE_DELAY_SECS as int
    }
}

/// The entry a fresh enqueue creates.
pub open spec fn enqueued_entry(
    p: BookmarkPayloadView,
    err: Seq<char>,
    initial_delay_secs: i64,
    now: i64,
    id: i64,
) -> QueueEntryView {
    QueueEntryView {
        item: QueueItemView {
            id,
            payload: p,
            attempt_count: 0,
            next_attempt_at: (now + eff_initial_delay(initial_delay_secs)) as i64,
            last_error: Some(err),
        },
        status: EntryStatus::Pending,
        created_at: now,
        updated_at: now,
    }
}

/// What a retry does to the entry it hits: the attempt count becomes
/// `attempts + 1`; at the maximum the entry turns terminally failed and is
/// no longer rescheduled; below it the entry is rescheduled by the backoff
/// policy. The last error is recorded either way.
pub open spec fn retry_entry(
    e: QueueEntryView,
    attempts: i64,
    err: Seq<char>,
    retry_after_secs: Option<i64>,
    now: i64,
) -> QueueEntryView {
    if attempts + 1 >= MAX_RETRY_ATTEMPTS {
        QueueEntryView {
            item: QueueItemView {
                attempt_count: (attempts + 1) as i64,
                last_error: Some(err),
                ..e.item
            },
            status: EntryStatus::Failed,
            updated_at: now,
            ..e
        }
    } else {
        QueueEntryView {
            item: QueueItemView {
                attempt_count: (attempts + 1) as i64,
                next_attempt_at: (now + retry_delay_seconds_spec(
                    (attempts + 1) as i64,
                    retry_after_secs,
                )) as i64,
                last_error: Some(err),
                ..e.item
            },
            updated_at: now,
            ..e
        }
    }
}

fn clone_opt_string(o: &Option<String>) -> (r: Option<String>)
    ensures
        r.deep_view() == o.deep_view(),
{
    match o {
        Some(s) => Some(s.clone()),
        None => None,
    }
}

impl QueueEntry {
    /// An owned copy with the same view.
    pub fn duplicate(&self) -> (e: QueueEntry)
        ensures
            e@ == self@,
    {
        let e = QueueEntry {
            item: QueueItem {
                id: self.item.id,
                payload: self.item.payload.duplicate(),
                attempt_count: self.item.attempt_count,
                next_attempt_at: self.item.next_attempt_at,
                last_error: clone_opt_string(&self.item.last_error),
            },
            status: self.status,
            created_at: self.created_at,
            updated_at: self.updated_at,
        };
        proof {
            assert(e@ =~~= self@);
        }
        e
    }

    /// The caller-facing copy of this entry's item.
    fn to_item(&self) -> (it: QueueItem)
        ensures
            it@ == self@.item,
    {
        let it = QueueItem {
            id: self.item.id,
            payload: self.item.payload.duplicate(),
            attempt_count: self.item.attempt_count,
            next_attempt_at: self.item.next_attempt_at,
            last_error: clone_opt_string(&self.item.last_error),
        };
        proof {
            assert(it@ =~~= self@.item);
        }
        it
    }
}

impl QueueStore {
    /// Identities are assigned in strictly increasing order, starting at 1.
    pub closed spec fn wf(self) -> bool {
        &&& 1 <= self.next_id
        &&& forall|i: int, j: int|
            0 <= i < j < self@.len() ==> (#[trigger] self@[i].item.id) < (
            #[trigger] self@[j].item.id)
        &&& forall|i: int|
            0 <= i < self@.len() ==> 1 <= (#[trigger] self@[i].item.id) && self@[i].item.id
                < self.next_id
    }

    /// Whether another identity can still be assigned.
    pub closed spec fn id_headroom(self) -> bool {
        self.next_id < i64::MAX
    }

    pub fn has_id_headroom(&self) -> (r: bool)
        ensures
            r == self.id_headroom(),
    {
        self.next_id < i64::MAX
    }

    /// An empty queue.
    pub fn new() -> (q: QueueStore)
        ensures
            q.wf(),
            q.id_headroom(),
            q@ == Seq::<QueueEntryView>::empty(),
    {
        let q = QueueStore { entries: Vec::new(), next_id: 1 };
        proof {
            assert(q@ =~~= Seq::<QueueEntryView>::empty());
        }
        q
    }

    /// Persists a new pending entry, due no earlier than the minimum queue
    /// delay from now, and returns its fresh identity.
    pub fn enqueue(&mut self, payload: &BookmarkPayload, err: &str, initial_delay_secs: i64, now:
        i64) -> (id: i64)
        requires
            old(self).wf(),
            old(self).id_headroom(),
            0 <= now,
            now + eff_initial_delay(initial_delay_secs) <= i64::MAX,
        ensures
            final(self).wf(),
            1 <= id,
            final(self)@ == old(self)@.push(
                enqueued_entry(payload@, err@, initial_delay_secs, now, id),
            ),
            forall|k: int| 0 <= k < old(self)@.len() ==> old(self)@[k].item.id != id,
    {
        let id = self.next_id;
        self.next_id = self.next_id + 1;
        let delay = if initial_delay_secs >= MIN_QUEUE_DELAY_SECS {
            initial_delay_secs
        } else {
            MIN_QUEUE_DELAY_SECS
        };
        let entry = QueueEntry {
            item: QueueItem {
                id,
                payload: payload.duplicate(),
                attempt_count: 0,
                next_attempt_at: now + delay,
                last_error: Some(err.to_owned()),
            },
            status: EntryStatus::Pending,
            created_at: now,
            updated_at: now,
        };
        let ghost old_view = self@;
        self.entries.push(entry);
        proof {
            assert(self@ =~~= old_view.push(
                enqueued_entry(payload@, err@, initial_delay_secs, now, id),
            ));
        }
        id
    }

    /// Deletes the entry of the given identity: successful delivery needs
    /// no further record.
    #[verifier::loop_isolation(false)]
    pub fn mark_sent(&mut self, id: i64)
        requires
            old(self).wf(),
        ensures
            final(self).wf(),
            final(self).id_headroom() == old(self).id_headroom(),
            final(self)@ == remove_entry(old(self)@, id),
    {
        let n = self.entries.len();
        let mut i: usize = 0;
        while i < n
            invariant
                self == old(self),
                n == self@.len(),
                i <= n,
                forall|k: int| 0 <= k < i ==> self@[k].item.id != id,
            decreases n - i,
        {
            if self.entries[i].item.id == id {
                proof {
                    lemma_ids_unique(self@, i as int, id);
                }
                let ghost old_view = self@;
                self.entries.remove(i);
                proof {
                    lemma_remove_is_filter(old_view, i as int, id);
                    assert(self@ =~~= old_view.remove(i as int));
                    assert(forall|k: int| 0 <= k < i ==> self@[k] == old_view[k]);
                    assert(forall|k: int|
                        i <= k < self@.len() ==> self@[k] == old_view[k + 1]);
                    assert forall|a: int, b: int| 0 <= a < b < self@.len() implies (
                    #[trigger] self@[a].item.id) < (#[trigger] self@[b].item.id) by {
                        if a < i && b < i {
                        } else if a < i {
                            assert(self@[b] == old_view[b + 1]);
                        } else {
                            assert(self@[a] == old_view[a + 1]);
                            assert(self@[b] == old_view[b + 1]);
                        }
                    }
                }
                return ;
            }
            i += 1;
        }
        proof {
            lemma_filter_no_match(self@, id);
        }
    }

    /// Records one more failed attempt for the entry of the given
    /// identity: at the maximum attempt count the entry becomes terminally
    /// failed; otherwise it is rescheduled by the backoff policy.
    #[verifier::loop_isolation(false)]
    pub fn mark_retry(&mut self, id: i64, attempts: i64, err: &str, retry_after_secs: Option<
        i64,
    >, now: i64)
        requires
            old(self).wf(),
            0 <= attempts < i64::MAX,
            0 <= now,
            now + retry_delay_seconds_spec((attempts + 1) as i64, retry_after_secs) <= i64::MAX,
        ensures
            final(self).wf(),
            final(self).id_headroom() == old(self).id_headroom(),
            final(self)@ == old(self)@.map_values(
                |e: QueueEntryView|
                    if e.item.id == id {
                        retry_entry(e, attempts, err@, retry_after_secs, now)
                    } else {
                        e
                    },
            ),
    {
        let ghost f = |e: QueueEntryView|
            if e.item.id == id {
                retry_entry(e, attempts, err@, retry_after_secs, now)
            } else {
                e
            };
        let n = self.entries.len();
        let mut i: usize = 0;
        while i < n
            invariant
                self == old(self),
                n == self@.len(),
                i <= n,
                forall|k: int| 0 <= k < i ==> self@[k].item.id != id,
            decreases n - i,
        {
            if self.entries[i].item.id == id {
                proof {
                    lemma_ids_unique(self@, i as int, id);
                }
                let ghost old_view = self@;
                let old_e = self.entries.remove(i);
                let next_count = attempts + 1;
                let new_e = if next_count >= MAX_RETRY_ATTEMPTS {
                    QueueEntry {
                        item: QueueItem {
                            id: old_e.item.id,
                            payload: old_e.item.payload,
                            attempt_count: next_count,
                            next_attempt_at: old_e.item.next_attempt_at,
                            last_error: Some(err.to_owned()),
                        },
                        status: EntryStatus::Failed,
                        created_at: old_e.created_at,
                        updated_at: now,
                    }
                } else {
                    let delay = retry_delay_seconds(next_count, retry_after_secs);
                    QueueEntry {
                        item: QueueItem {
                            id: old_e.item.id,
                            payload: old_e.item.payload,
                            attempt_count: next_count,
                            next_attempt_at: now + delay,
                            last_error: Some(err.to_owned()),
                        },
                        status: old_e.status,
                        created_at: old_e.created_at,
                        updated_at: now,
                    }
                };
                proof {
                    assert(new_e@ =~~= retry_entry(old_view[i as int], attempts, err@,
                    retry_after_secs, now));
                }
                self.entries.insert(i, new_e);
                proof {
                    assert(forall|k: int|
                        0 <= k < self@.len() ==> self@[k].item.id == old_view[k].item.id);
                    assert(self@ =~~= old_view.map_values(f)) by {
                        assert(self@.len() == old_view.len());
                        assert forall|k: int| 0 <= k < old_view.len() implies self@[k] == f(
                            old_view[k],
                        ) by {
                            if k < i {
                                assert(self@[k] == old_view[k]);
                            } else if k == i {
                            } else {
                                assert(self@[k] == old_view[k]);
                            }
                        }
                    }
                }
                return ;
            }
            i += 1;
        }
        proof {
            assert(self@ =~~= self@.map_values(f)) by {
                assert forall|k: int| 0 <= k < self@.len() implies self@.map_values(f)[k]
                    == self@[k] by {
                    assert(self@[k].item.id != id);
                }
            }
        }
    }

    /// Counts pending entries, and entries failed for display purposes: an
    /// entry counts as failed once terminally failed, or while pending
    /// after at least one retry.
    pub fn stats(&self) -> (s: QueueStats)
        ensures
            s.pending == pending_entries(self@).len(),
            s.failed == failed_entries(self@).len(),
    {
        let n = self.entries.len();
        let mut pending: u64 = 0;
        let mut failed: u64 = 0;
        let mut i: usize = 0;
        while i < n
            invariant
                n == self@.len(),
                i <= n,
                pending <= i,
                failed <= i,
                pending == pending_entries(self@.take(i as int)).len(),
                failed == failed_entries(self@.take(i as int)).len(),
            decreases n - i,
        {
            proof {
                reveal(Seq::filter);
                assert(self@.take(i + 1 as int).drop_last() =~~= self@.take(i as int));
                assert(self@.take(i + 1 as int).last() == self@[i as int]);
            }
            let e = &self.entries[i];
            if matches!(e.status, EntryStatus::Pending) {
                pending = pending + 1;
            }
            let is_failed_stat = match e.status {
                EntryStatus::Failed => true,
                EntryStatus::Pending => e.item.attempt_count > 0,
            };
            if is_failed_stat {
                failed = failed + 1;
            }
            i += 1;
        }
        proof {
            assert(self@.take(n as int) =~~= self@);
        }
        QueueStats { pending, failed }
    }

    /// A full copy of the stored rows, for the persistence layer.
    pub fn snapshot(&self) -> (rows: Vec<QueueEntry>)
        ensures
            rows.deep_view() == self@,
    {
        let n = self.entries.len();
        let mut rows: Vec<QueueEntry> = Vec::new();
        let mut i: usize = 0;
        while i < n
            invariant
                n == self@.len(),
                i <= n,
                rows.deep_view() =~~= self@.take(i as int),
            decreases n - i,
        {
            let ghost old_rows = rows.deep_view();
            rows.push(self.entries[i].duplicate());
            proof {
                assert(rows.deep_view() =~~= old_rows.push(self@[i as int]));
                assert(self@.take(i + 1 as int) =~~= self@.take(i as int).push(self@[i as int]));
            }
            i += 1;
        }
        proof {
            assert(self@.take(n as int) =~~= self@);
        }
        rows
    }

    /// Whether stored rows can be taken back as a queue: identities
    /// strictly increasing from 1 on, with room for a fresh one.
    pub open spec fn restorable(s: Seq<QueueEntryView>) -> bool {
        &&& forall|i: int, j: int|
            0 <= i < j < s.len() ==> (#[trigger] s[i].item.id) < (#[trigger] s[j].item.id)
        &&& forall|i: int| 0 <= i < s.len() ==> 1 <= (#[trigger] s[i].item.id)
        &&& s.len() > 0 ==> s[s.len() - 1].item.id < i64::MAX
    }

    /// Rebuilds a queue from persisted rows; refused when the rows do not
    /// carry strictly increasing identities.
    #[verifier::loop_isolation(false)]
    pub fn restore(rows: Vec<QueueEntry>) -> (r: Option<QueueStore>)
        ensures
            match r {
                Some(q) => QueueStore::restorable(rows.deep_view()) && q.wf() && q@
                    == rows.deep_view(),
                None => !QueueStore::restorable(rows.deep_view()),
            },
    {
        let n = rows.len();
        let mut i: usize = 0;
        let mut prev: i64 = 0;
        while i < n
            invariant
                i <= n,
                n == rows.deep_view().len(),
                forall|a: int, b: int|
                    0 <= a < b < i ==> (#[trigger] rows.deep_view()[a].item.id) < (
                    #[trigger] rows.deep_view()[b].item.id),
                forall|a: int| 0 <= a < i ==> 1 <= (#[trigger] rows.deep_view()[a].item.id),
                i > 0 ==> prev == rows.deep_view()[i - 1].item.id,
                i == 0 ==> prev == 0,
                0 <= prev,
            decreases n - i,
        {
            let id = rows[i].item.id;
            proof {
                assert(rows.deep_view()[i as int].item.id == id);
            }
            if id <= prev {
                proof {
                    if i == 0 {
                        assert(rows.deep_view()[0].item.id < 1);
                    } else {
                        assert(!QueueStore::restorable(rows.deep_view())) by {
                            if QueueStore::restorable(rows.deep_view()) {
                                assert(rows.deep_view()[i - 1].item.id < rows.deep_view()[
                                    i as int].item.id);
                            }
                        }
                    }
                }
                return None;
            }
            prev = id;
            i += 1;
        }
        if n > 0 && prev == i64::MAX {
            return None;
        }
        let next_id = if n == 0 {
            1
        } else {
            prev + 1
        };
        let q = QueueStore { entries: rows, next_id };
        proof {
            assert(q@ == q.entries.deep_view());
            assert forall|a: int| 0 <= a < q@.len() implies 1 <= (#[trigger] q@[a].item.id)
                && q@[a].item.id < q.next_id by {
                if a < q@.len() - 1 {
                    assert(q@[a].item.id < q@[q@.len() - 1].item.id);
                }
            }
        }
        Some(q)
    }

    /// All pending entries in creation order, capped at `limit`, for
    /// display; selection is not gated by due time.
    pub fn list(&self, limit: usize) -> (r: Vec<QueueItem>)
        ensures
            r.deep_view() == take_at_most(
                pending_entries(self@).map_values(|e: QueueEntryView| e.item),
                limit as int,
            ),
    {
        let n = self.entries.len();
        let mut out: Vec<QueueItem> = Vec::new();
        let mut i: usize = 0;
        while i < n
            invariant
                n == self@.len(),
                i <= n,
                out@.len() <= limit,
                out.deep_view() =~~= pending_entries(self@.take(i as int)).map_values(
                    |e: QueueEntryView| e.item,
                ),
                out@.len() == limit ==> pending_entries(self@.take(i as int)).len()
                    >= limit,
            decreases n - i,
        {
            proof {
                reveal(Seq::filter);
                assert(self@.take(i + 1 as int).drop_last() =~~= self@.take(i as int));
                assert(self@.take(i + 1 as int).last() == self@[i as int]);
            }
            let e = &self.entries[i];
            if matches!(e.status, EntryStatus::Pending) {
                if out.len() >= limit {
                    proof {
                        lemma_filtered_prefix(self@, i as int, limit as int);
                    }
                    return out;
                }
                let ghost old_out = out.deep_view();
                out.push(e.to_item());
                proof {
                    assert(out.deep_view() =~~= old_out.push(self@[i as int].item));
                    assert(pending_entries(self@.take(i + 1 as int)).map_values(
                        |ev: QueueEntryView| ev.item,
                    ) =~~= pending_entries(self@.take(i as int)).map_values(
                        |ev: QueueEntryView| ev.item,
                    ).push(self@[i as int].item));
                }
            }
            i += 1;
        }
        proof {
            assert(self@.take(n as int) =~~= self@);
            assert(pending_entries(self@).map_values(|e: QueueEntryView| e.item).len()
                <= limit);
        }
        out
    }
}

/// The entries a sequence of indices selects.
pub open spec fn idx_views(s: Seq<QueueEntryView>, idxs: Seq<usize>) -> Seq<QueueEntryView> {
    idxs.map_values(|j: usize| s[j as int])
}

proof fn lemma_insert_sorted_at(e: QueueEntryView, s: Seq<QueueEntryView>, p: int)
    requires
        0 <= p <= s.len(),
        forall|k: int| 0 <= k < p ==> !key_le(e, #[trigger] s[k]),
        p < s.len() ==> key_le(e, s[p]),
    ensures
        insert_sorted(e, s) == s.take(p) + seq![e] + s.skip(p),
    decreases s.len(),
{
    if s.len() == 0 {
        assert(s.take(0) + seq![e] + s.skip(0) =~~= seq![e]);
    } else if p == 0 {
        assert(key_le(e, s[0]));
        assert(s.take(0) + seq![e] + s.skip(0) =~~= seq![e] + s);
    } else {
        assert(!key_le(e, s[0]));
        let rest = s.drop_first();
        assert(forall|k: int| 0 <= k < p - 1 ==> !key_le(e, #[trigger] rest[k])) by {
            assert(forall|k: int| 0 <= k < rest.len() ==> rest[k] == s[k + 1]);
        }
        assert(p - 1 < rest.len() ==> key_le(e, rest[p - 1]));
        lemma_insert_sorted_at(e, rest, p - 1);
        assert(seq![s[0]] + (rest.take(p - 1) + seq![e] + rest.skip(p - 1)) =~~= s.take(p)
            + seq![e] + s.skip(p));
    }
}

impl QueueStore {
    /// The position at which the entry at index `j` enters the sorted run
    /// of indices `order`.
    #[verifier::loop_isolation(false)]
    fn insert_pos(&self, order: &Vec<usize>, j: usize) -> (p: usize)
        requires
            j < self@.len(),
            forall|k: int| 0 <= k < order@.len() ==> (#[trigger] order@[k]) < self@.len(),
        ensures
            p <= order@.len(),
            forall|k: int|
                0 <= k < p ==> !key_le(self@[j as int], #[trigger] idx_views(self@, order@)[k]),
            p < order@.len() ==> key_le(self@[j as int], idx_views(self@, order@)[p as int]),
    {
        let mut p: usize = 0;
        while p < order.len()
            invariant
                p <= order@.len(),
                forall|k: int|
                    0 <= k < p ==> !key_le(
                        self@[j as int],
                        #[trigger] idx_views(self@, order@)[k],
                    ),
            decreases order@.len() - p,
        {
            let oj = order[p];
            let a = &self.entries[j];
            let b = &self.entries[oj];
            let le = a.item.next_attempt_at < b.item.next_attempt_at || (a.item.next_attempt_at
                == b.item.next_attempt_at && a.item.id <= b.item.id);
            proof {
                assert(a@ == self@[j as int]);
                assert(b@ == self@[oj as int]);
                assert(idx_views(self@, order@)[p as int] == self@[oj as int]);
                assert(le == key_le(self@[j as int], idx_views(self@, order@)[p as int]));
            }
            if le {
                return p;
            }
            p += 1;
        }
        p
    }

    /// The pending entries whose next-eligible time has arrived, ordered
    /// ascending by next-eligible time, capped at `limit`.
    #[verifier::loop_isolation(false)]
    pub fn due_items(&self, limit: usize, now: i64) -> (r: Vec<QueueItem>)
        ensures
            r.deep_view() == take_at_most(
                due_order(self@, now).map_values(|e: QueueEntryView| e.item),
                limit as int,
            ),
    {
        let n = self.entries.len();
        let ghost due_pred = |e: QueueEntryView| is_due(e, now);
        let mut due_idx: Vec<usize> = Vec::new();
        let mut i: usize = 0;
        proof {
            reveal(Seq::filter);
            assert(idx_views(self@, due_idx@) =~~= self@.take(0).filter(due_pred));
        }
        while i < n
            invariant
                i <= n,
                n == self@.len(),
                forall|k: int| 0 <= k < due_idx@.len() ==> (#[trigger] due_idx@[k]) < n,
                idx_views(self@, due_idx@) =~~= self@.take(i as int).filter(due_pred),
            decreases n - i,
        {
            proof {
                reveal(Seq::filter);
                assert(self@.take(i + 1 as int).drop_last() =~~= self@.take(i as int));
                assert(self@.take(i + 1 as int).last() == self@[i as int]);
            }
            let e = &self.entries[i];
            let due = matches!(e.status, EntryStatus::Pending) && e.item.next_attempt_at <= now;
            proof {
                assert(e@ == self@[i as int]);
                assert(due == is_due(self@[i as int], now));
            }
            if due {
                let ghost old_idx = due_idx@;
                due_idx.push(i);
                proof {
                    assert(idx_views(self@, due_idx@) =~~= idx_views(self@, old_idx).push(
                        self@[i as int],
                    ));
                }
            }
            i += 1;
        }
        proof {
            assert(self@.take(n as int) =~~= self@);
        }
        let ghost dseq = idx_views(self@, due_idx@);
        let mut order: Vec<usize> = Vec::new();
        let mut t: usize = 0;
        proof {
            assert(idx_views(self@, order@) =~~= Seq::<QueueEntryView>::empty());
            assert(dseq.skip(0) =~~= dseq);
            assert(due_order(self@, now) == sort_into(dseq, idx_views(self@, order@)));
        }
        while t < due_idx.len()
            invariant
                t <= due_idx@.len(),
                dseq == idx_views(self@, due_idx@),
                forall|k: int| 0 <= k < due_idx@.len() ==> (#[trigger] due_idx@[k]) < n,
                forall|k: int| 0 <= k < order@.len() ==> (#[trigger] order@[k]) < n,
                due_order(self@, now) == sort_into(
                    dseq.skip(t as int),
                    idx_views(self@, order@),
                ),
            decreases due_idx@.len() - t,
        {
            let j = due_idx[t];
            let p = self.insert_pos(&order, j);
            let ghost old_order = order@;
            let ghost ov = idx_views(self@, old_order);
            order.insert(p, j);
            proof {
                lemma_insert_sorted_at(self@[j as int], ov, p as int);
                assert(idx_views(self@, order@) =~~= ov.take(p as int) + seq![self@[j as int]]
                    + ov.skip(p as int)) by {
                    assert(order@ == old_order.insert(p as int, j));
                }
                assert(idx_views(self@, order@) == insert_sorted(self@[j as int], ov));
                assert(dseq.skip(t as int)[0] == self@[j as int]);
                assert(dseq.skip(t as int).drop_first() =~~= dseq.skip(t + 1 as int));
            }
            t += 1;
        }
        proof {
            assert(dseq.skip(due_idx@.len() as int) =~~= Seq::<QueueEntryView>::empty());
            assert(idx_views(self@, order@) == due_order(self@, now));
        }
        let ghost item_of = |e: QueueEntryView| e.item;
        let m = order.len();
        let cap = if limit < m {
            limit
        } else {
            m
        };
        let mut out: Vec<QueueItem> = Vec::new();
        let mut k: usize = 0;
        proof {
            assert(out.deep_view() =~~= due_order(self@, now).map_values(item_of).take(0));
        }
        while k < cap
            invariant
                k <= cap,
                cap <= m,
                m == order@.len(),
                m == due_order(self@, now).len(),
                forall|q: int| 0 <= q < order@.len() ==> (#[trigger] order@[q]) < n,
                idx_views(self@, order@) == due_order(self@, now),
                out.deep_view() =~~= due_order(self@, now).map_values(item_of).take(k as int),
            decreases cap - k,
        {
            let oj = order[k];
            let ghost old_out = out.deep_view();
            let it = self.entries[oj].to_item();
            out.push(it);
            proof {
                assert(due_order(self@, now)[k as int] == idx_views(self@, order@)[k as int]);
                assert(it@ == due_order(self@, now)[k as int].item);
                assert(out.deep_view() =~~= old_out.push(
                    due_order(self@, now).map_values(item_of)[k as int],
                ));
                assert(due_order(self@, now).map_values(item_of).take(k + 1 as int) =~~=
                due_order(self@, now).map_values(item_of).take(k as int).push(
                    due_order(self@, now).map_values(item_of)[k as int],
                ));
            }
            k += 1;
        }
        proof {
            let mapped = due_order(self@, now).map_values(item_of);
            if limit < m {
                assert(out.deep_view() =~~= take_at_most(mapped, limit as int));
            } else {
                assert(mapped.take(m as int) =~~= mapped);
                assert(out.deep_view() =~~= take_at_most(mapped, limit as int));
            }
            assert(out.deep_view() =~~= take_at_most(
                due_order(self@, now).map_values(|e: QueueEntryView| e.item),
                limit as int,
            ));
        }
        out
    }
}

/// In a well-formed queue the scan that found `id` at position `i` is the
/// only position carrying it.
proof fn lemma_ids_unique(s: Seq<QueueEntryView>, i: int, id: i64)
    requires
        0 <= i < s.len(),
        s[i].item.id == id,
        forall|a: int, b: int|
            0 <= a < b < s.len() ==> (#[trigger] s[a].item.id) < (#[trigger] s[b].item.id),
    ensures
        forall|k: int| 0 <= k < s.len() && k != i ==> s[k].item.id != id,
{
    assert forall|k: int| 0 <= k < s.len() && k != i implies s[k].item.id != id by {
        if k < i {
            assert(s[k].item.id < s[i].item.id);
        } else {
            assert(s[i].item.id < s[k].item.id);
        }
    }
}

/// Every element satisfies the predicate: filtering changes nothing.
proof fn lemma_filter_all_true(s: Seq<QueueEntryView>, pred: spec_fn(QueueEntryView) -> bool)
    requires
        forall|k: int| 0 <= k < s.len() ==> pred(#[trigger] s[k]),
    ensures
        s.filter(pred) == s,
    decreases s.len(),
{
    reveal(Seq::filter);
    if s.len() > 0 {
        assert(forall|k: int| 0 <= k < s.drop_last().len() ==> pred(#[trigger] s.drop_last()[k]));
        lemma_filter_all_true(s.drop_last(), pred);
        assert(s.filter(pred) =~~= s);
    }
}

/// Removing the only entry with `id` is the same as filtering it out.
proof fn lemma_remove_is_filter(s: Seq<QueueEntryView>, i: int, id: i64)
    requires
        0 <= i < s.len(),
        s[i].item.id == id,
        forall|k: int| 0 <= k < s.len() && k != i ==> s[k].item.id != id,
    ensures
        remove_entry(s, id) == s.remove(i),
    decreases s.len(),
{
    reveal(Seq::filter);
    let pred = |e: QueueEntryView| e.item.id != id;
    if i == s.len() - 1 {
        assert(forall|k: int|
            0 <= k < s.drop_last().len() ==> pred(#[trigger] s.drop_last()[k]));
        lemma_filter_all_true(s.drop_last(), pred);
        assert(remove_entry(s, id) =~~= s.remove(i));
    } else {
        assert(s.drop_last()[i] == s[i]);
        lemma_remove_is_filter(s.drop_last(), i, id);
        assert(s.drop_last().remove(i) =~~= s.remove(i).drop_last());
        assert(s.remove(i).last() == s.last());
        assert(remove_entry(s, id) =~~= s.remove(i));
    }
}

/// No entry carries `id`: filtering it out changes nothing.
proof fn lemma_filter_no_match(s: Seq<QueueEntryView>, id: i64)
    requires
        forall|k: int| 0 <= k < s.len() ==> s[k].item.id != id,
    ensures
        remove_entry(s, id) == s,
{
    lemma_filter_all_true(s, |e: QueueEntryView| e.item.id != id);
}

/// A filtered prefix that already reached `limit` pins the capped result:
/// the first `limit` pending entries are all inside the prefix.
proof fn lemma_filtered_prefix(s: Seq<QueueEntryView>, i: int, limit: int)
    requires
        0 <= i <= s.len(),
        0 <= limit,
        pending_entries(s.take(i)).len() >= limit,
    ensures
        take_at_most(pending_entries(s).map_values(|e: QueueEntryView| e.item), limit)
            == pending_entries(s.take(i)).map_values(|e: QueueEntryView| e.item).take(limit),
{
    let pred = |e: QueueEntryView| is_pending(e);
    let f = |e: QueueEntryView| e.item;
    assert(s.take(i) + s.skip(i) =~~= s);
    Seq::filter_distributes_over_add(s.take(i), s.skip(i), pred);
    let a = pending_entries(s.take(i));
    let b = pending_entries(s.skip(i));
    assert(pending_entries(s) == a + b);
    assert((a + b).map_values(f) =~~= a.map_values(f) + b.map_values(f));
    assert(a.map_values(f).len() >= limit);
    assert((a.map_values(f) + b.map_values(f)).take(limit) =~~= a.map_values(f).take(limit));
    if limit < pending_entries(s).map_values(f).len() {
    } else {
        assert(pending_entries(s).map_values(f) =~~= a.map_values(f).take(limit));
    }
}

proof fn lemma_insert_sorted_members(e: QueueEntryView, s: Seq<QueueEntryView>, x: QueueEntryView)
    ensures
        insert_sorted(e, s).contains(x) <==> (x == e || s.contains(x)),
    decreases s.len(),
{
    let r = insert_sorted(e, s);
    if s.len() == 0 {
        assert(r =~~= seq![e]);
        assert(r.contains(x) <==> x == e) by {
            if r.contains(x) {
                let k = choose|k: int| 0 <= k < r.len() && r[k] == x;
                assert(r[0] == e);
            }
            if x == e {
                assert(r[0] == x);
            }
        }
    } else if key_le(e, s[0]) {
        assert(r == seq![e] + s);
        if r.contains(x) {
            let k = choose|k: int| 0 <= k < r.len() && r[k] == x;
            if k == 0 {
                assert(x == e);
            } else {
                assert(s[k - 1] == x);
                assert(s.contains(x));
            }
        }
        if x == e {
            assert(r[0] == x);
        }
        if s.contains(x) {
            let k = choose|k: int| 0 <= k < s.len() && s[k] == x;
            assert(r[k + 1] == x);
        }
    } else {
        let rest = s.drop_first();
        lemma_insert_sorted_members(e, rest, x);
        assert(r == seq![s[0]] + insert_sorted(e, rest));
        if r.contains(x) {
            let k = choose|k: int| 0 <= k < r.len() && r[k] == x;
            if k == 0 {
                assert(s[0] == x);
                assert(s.contains(x));
            } else {
                assert(insert_sorted(e, rest)[k - 1] == x);
                assert(insert_sorted(e, rest).contains(x));
                if rest.contains(x) {
                    let q = choose|q: int| 0 <= q < rest.len() && rest[q] == x;
                    assert(s[q + 1] == x);
                    assert(s.contains(x));
                }
            }
        }
        if x == e {
            assert(insert_sorted(e, rest).contains(x));
            let k = choose|k: int| 0 <= k < insert_sorted(e, rest).len() && insert_sorted(
                e,
                rest,
            )[k] == x;
            assert(r[k + 1] == x);
        }
        if s.contains(x) {
            let k = choose|k: int| 0 <= k < s.len() && s[k] == x;
            if k == 0 {
                assert(r[0] == x);
            } else {
                assert(rest[k - 1] == x);
                assert(rest.contains(x));
                assert(insert_sorted(e, rest).contains(x));
                let q = choose|q: int| 0 <= q < insert_sorted(e, rest).len() && insert_sorted(
                    e,
                    rest,
                )[q] == x;
                assert(r[q + 1] == x);
            }
        }
    }
}

proof fn lemma_sort_into_members(s: Seq<QueueEntryView>, acc: Seq<QueueEntryView>, x: QueueEntryView)
    ensures
        sort_into(s, acc).contains(x) <==> (s.contains(x) || acc.contains(x)),
    decreases s.len(),
{
    if s.len() == 0 {
        assert(!s.contains(x));
    } else {
        let rest = s.drop_first();
        lemma_sort_into_members(rest, insert_sorted(s[0], acc), x);
        lemma_insert_sorted_members(s[0], acc, x);
        assert(s.contains(x) <==> (x == s[0] || rest.contains(x))) by {
            if s.contains(x) {
                let k = choose|k: int| 0 <= k < s.len() && s[k] == x;
                if k > 0 {
                    assert(rest[k - 1] == x);
                }
            }
            if rest.contains(x) {
                let k = choose|k: int| 0 <= k < rest.len() && rest[k] == x;
                assert(s[k + 1] == x);
            }
            assert(s[0] == s[0]);
        }
    }
}

proof fn lemma_filter_members(s: Seq<QueueEntryView>, pred: spec_fn(QueueEntryView) -> bool, x: QueueEntryView)
    ensures
        s.filter(pred).contains(x) <==> (s.contains(x) && pred(x)),
    decreases s.len(),
{
    reveal(Seq::filter);
    if s.len() == 0 {
    } else {
        let rest = s.drop_last();
        lemma_filter_members(rest, pred, x);
        assert(s.contains(x) <==> (x == s.last() || rest.contains(x))) by {
            if s.contains(x) {
                let k = choose|k: int| 0 <= k < s.len() && s[k] == x;
                if k < s.len() - 1 {
                    assert(rest[k] == x);
                }
            }
            if rest.contains(x) {
                let k = choose|k: int| 0 <= k < rest.len() && rest[k] == x;
                assert(s[k] == x);
            }
            assert(s[s.len() - 1] == s.last());
        }
        if pred(s.last()) {
            let fr = rest.filter(pred);
            assert(s.filter(pred) == fr.push(s.last()));
            assert(s.filter(pred).contains(x) <==> (x == s.last() || fr.contains(x))) by {
                if s.filter(pred).contains(x) {
                    let k = choose|k: int|
                        0 <= k < s.filter(pred).len() && s.filter(pred)[k] == x;
                    if k < fr.len() {
                        assert(fr[k] == x);
                    }
                }
                if fr.contains(x) {
                    let k = choose|k: int| 0 <= k < fr.len() && fr[k] == x;
                    assert(s.filter(pred)[k] == x);
                }
                assert(s.filter(pred)[fr.len() as int] == s.last());
            }
        }
    }
}

/// What due-item selection holds: exactly the pending entries of the queue
/// whose next-eligible time has arrived.
pub proof fn lemma_due_order_members(s: Seq<QueueEntryView>, now: i64, x: QueueEntryView)
    ensures
        due_order(s, now).contains(x) <==> (s.contains(x) && is_due(x, now)),
{
    let pred = |e: QueueEntryView| is_due(e, now);
    lemma_sort_into_members(s.filter(pred), Seq::empty(), x);
    lemma_filter_members(s, pred, x);
    assert(!Seq::<QueueEntryView>::empty().contains(x));
}

/// A freshly enqueued entry is not selected as due before its
/// next-eligible time; once time reaches that point, it is.
pub proof fn lemma_enqueued_due_timing(
    s: Seq<QueueEntryView>,
    e: QueueEntryView,
    now_before: i64,
    now_after: i64,
)
    requires
        forall|k: int| 0 <= k < s.len() ==> (#[trigger] s[k]).item.id != e.item.id,
        now_before < e.item.next_attempt_at <= now_after,
        is_pending(e),
    ensures
        forall|k: int|
            0 <= k < due_order(s.push(e), now_before).len() ==> (#[trigger] due_order(
                s.push(e),
                now_before,
            )[k]).item.id != e.item.id,
        due_order(s.push(e), now_after).contains(e),
{
    let s2 = s.push(e);
    assert forall|k: int| 0 <= k < due_order(s2, now_before).len() implies (#[trigger] due_order(
        s2,
        now_before,
    )[k]).item.id != e.item.id by {
        let x = due_order(s2, now_before)[k];
        assert(due_order(s2, now_before).contains(x));
        lemma_due_order_members(s2, now_before, x);
        assert(s2.contains(x));
        let q = choose|q: int| 0 <= q < s2.len() && s2[q] == x;
        if q < s.len() {
            assert(s[q] == x);
        } else {
            assert(x == e);
            assert(!is_due(e, now_before));
        }
    }
    lemma_due_order_members(s2, now_after, e);
    assert(s2[s.len() as int] == e);
    assert(s2.contains(e));
    assert(is_due(e, now_after));
}

/// An entry whose retry reaches the maximum attempt count becomes
/// terminally failed, and a failed entry stays failed under further
/// retries.
pub proof fn lemma_retry_exhaustion(
    e: QueueEntryView,
    attempts: i64,
    err: Seq<char>,
    hint: Option<i64>,
    now: i64,
)
    ensures
        attempts + 1 >= MAX_RETRY_ATTEMPTS ==> retry_entry(e, attempts, err, hint, now).status
            is Failed,
        e.status is Failed ==> retry_entry(e, attempts, err, hint, now).status is Failed,
        retry_entry(e, attempts, err, hint, now).item.id == e.item.id,
{
}

/// Due-item selection never yields a terminally failed entry.
pub proof fn lemma_failed_never_due(s: Seq<QueueEntryView>, now: i64, k: int)
    requires
        0 <= k < due_order(s, now).len(),
    ensures
        due_order(s, now)[k].status is Pending,
{
    let x = due_order(s, now)[k];
    assert(due_order(s, now).contains(x));
    lemma_due_order_members(s, now, x);
}

/// Once an entry is deleted on success, neither due-item selection nor the
/// pending listing ever yields its identity again.
pub proof fn lemma_removed_entry_gone(s: Seq<QueueEntryView>, id: i64, now: i64)
    ensures
        forall|k: int|
            0 <= k < due_order(remove_entry(s, id), now).len() ==> (#[trigger] due_order(
                remove_entry(s, id),
                now,
            )[k]).item.id != id,
        forall|k: int|
            0 <= k < pending_entries(remove_entry(s, id)).len() ==> (
            #[trigger] pending_entries(remove_entry(s, id))[k]).item.id != id,
{
    let s2 = remove_entry(s, id);
    let keep = |e: QueueEntryView| e.item.id != id;
    assert forall|k: int| 0 <= k < due_order(s2, now).len() implies (#[trigger] due_order(
        s2,
        now,
    )[k]).item.id != id by {
        let x = due_order(s2, now)[k];
        assert(due_order(s2, now).contains(x));
        lemma_due_order_members(s2, now, x);
        assert(s2.contains(x));
        lemma_filter_members(s, keep, x);
    }
    assert forall|k: int| 0 <= k < pending_entries(s2).len() implies (
    #[trigger] pending_entries(s2)[k]).item.id != id by {
        let x = pending_entries(s2)[k];
        assert(pending_entries(s2).contains(x));
        lemma_filter_members(s2, |e: QueueEntryView| is_pending(e), x);
        assert(s2.contains(x));
        lemma_filter_members(s, keep, x);
    }
}

/// An enqueued submission reads back equal: on an otherwise empty queue
/// the pending listing and due-item selection consist of exactly the
/// enqueued entry, payload and flags untouched.
pub proof fn lemma_enqueue_roundtrip(e: QueueEntryView, now: i64)
    requires
        is_pending(e),
    ensures
        pending_entries(Seq::<QueueEntryView>::empty().push(e)) == seq![e],
        is_due(e, now) ==> due_order(Seq::<QueueEntryView>::empty().push(e), now) == seq![e],
{
    reveal(Seq::filter);
    let s = Seq::<QueueEntryView>::empty().push(e);
    assert(s.drop_last() =~~= Seq::<QueueEntryView>::empty());
    assert(s.last() == e);
    assert(pending_entries(s) =~~= seq![e]);
    if is_due(e, now) {
        let pred = |x: QueueEntryView| is_due(x, now);
        assert(s.filter(pred) =~~= seq![e]);
        assert(due_order(s, now) == sort_into(seq![e], Seq::empty()));
        assert(seq![e].drop_first() =~~= Seq::<QueueEntryView>::empty());
        assert(seq![e][0] == e);
        assert(insert_sorted(e, Seq::<QueueEntryView>::empty()) =~~= seq![e]);
        assert(sort_into(seq![e], Seq::<QueueEntryView>::empty()) == sort_into(
            Seq::<QueueEntryView>::empty(),
            insert_sorted(e, Seq::<QueueEntryView>::empty()),
        ));
        assert(sort_into(
            Seq::<QueueEntryView>::empty(),
            insert_sorted(e, Seq::<QueueEntryView>::empty()),
        ) == insert_sorted(e, Seq::<QueueEntryView>::empty()));
        assert(due_order(s, now) == seq![e]);
    }
}


/// Entries in earliest-deadline-first order.
pub open spec fn sorted_by_key(s: Seq<QueueEntryView>) -> bool {
    forall|i: int, j: int| 0 <= i < j < s.len() ==> key_le(#[trigger] s[i], #[trigger] s[j])
}

proof fn lemma_insert_sorted_sorted(e: QueueEntryView, s: Seq<QueueEntryView>)
    requires
        sorted_by_key(s),
    ensures
        sorted_by_key(insert_sorted(e, s)),
    decreases s.len(),
{
    let r = insert_sorted(e, s);
    if s.len() == 0 {
    } else if key_le(e, s[0]) {
        assert(r == seq![e] + s);
        assert forall|i: int, j: int| 0 <= i < j < r.len() implies key_le(
            #[trigger] r[i],
            #[trigger] r[j],
        ) by {
            if i == 0 {
                assert(r[j] == s[j - 1]);
                if j > 1 {
                    assert(key_le(s[0], s[j - 1]));
                }
            } else {
                assert(r[i] == s[i - 1]);
                assert(r[j] == s[j - 1]);
            }
        }
    } else {
        let rest = s.drop_first();
        assert(sorted_by_key(rest)) by {
            assert(forall|k: int| 0 <= k < rest.len() ==> rest[k] == s[k + 1]);
        }
        lemma_insert_sorted_sorted(e, rest);
        let r2 = insert_sorted(e, rest);
        assert(r == seq![s[0]] + r2);
        assert(key_le(s[0], e));
        assert forall|k: int| 0 <= k < r2.len() implies key_le(s[0], #[trigger] r2[k]) by {
            lemma_insert_sorted_members(e, rest, r2[k]);
            if r2[k] == e {
            } else {
                let q = choose|q: int| 0 <= q < rest.len() && rest[q] == r2[k];
                assert(s[q + 1] == r2[k]);
                assert(key_le(s[0], s[q + 1]));
            }
        }
        assert forall|i: int, j: int| 0 <= i < j < r.len() implies key_le(
            #[trigger] r[i],
            #[trigger] r[j],
        ) by {
            if i == 0 {
                assert(r[j] == r2[j - 1]);
            } else {
                assert(r[i] == r2[i - 1]);
                assert(r[j] == r2[j - 1]);
            }
        }
    }
}

proof fn lemma_sort_into_sorted(s: Seq<QueueEntryView>, acc: Seq<QueueEntryView>)
    requires
        sorted_by_key(acc),
    ensures
        sorted_by_key(sort_into(s, acc)),
    decreases s.len(),
{
    if s.len() > 0 {
        lemma_insert_sorted_sorted(s[0], acc);
        lemma_sort_into_sorted(s.drop_first(), insert_sorted(s[0], acc));
    }
}

/// Due-item selection is ordered ascending by next-eligible time (ties by
/// identity): earliest-deadline-first replay.
pub proof fn lemma_due_order_sorted(s: Seq<QueueEntryView>, now: i64)
    ensures
        sorted_by_key(due_order(s, now)),
{
    lemma_sort_into_sorted(s.filter(|e: QueueEntryView| is_due(e, now)), Seq::empty());
}


} // verus!
