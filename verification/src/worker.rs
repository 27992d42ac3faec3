//! The scheduler's decision core: what one replay outcome does to the
//! queue, and when a batch stops early.
//!
//! The surrounding loop — fetching due items, calling the remote API,
//! sleeping between ticks — performs I/O and lives outside the library; it
//! feeds each outcome through [`apply_send_outcome`].

use vstd::prelude::*;
use crate::backoff::retry_delay_seconds_spec;
use crate::pinboard::{
    PinboardError, PinboardErrorView, message_for_user_spec, retry_after_secs_spec,
    unit_result_view,
};
use crate::queue::{QueueEntryView, QueueItem, QueueItemView, QueueStore, remove_entry,
    retry_entry};

verus! {

/// The queue after one replay outcome for `item`: success deletes the
/// entry; failure records one more attempt with the classified message
/// and retry-after hint.
pub open spec fn replay_update(
    s: Seq<QueueEntryView>,
    item: QueueItemView,
    outcome: Result<(), PinboardErrorView>,
    now: i64,
) -> Seq<QueueEntryView> {
    match outcome {
        Ok(u) => remove_entry(s, item.id),
        Err(e) => s.map_values(
            |x: QueueEntryView|
                if x.item.id == item.id {
                    retry_entry(
                        x,
                        item.attempt_count,
                        message_for_user_spec(e),
                        retry_after_secs_spec(e),
                        now,
                    )
                } else {
                    x
                },
        ),
    }
}

/// A rate-limited failure stops the rest of the batch for this tick.
pub open spec fn halts_batch(outcome: Result<(), PinboardErrorView>) -> bool {
    match outcome {
        Err(PinboardErrorView::RateLimited { .. }) => true,
        _ => false,
    }
}

/// The rescheduled time fits the clock's range.
pub open spec fn replay_fits(item: QueueItemView, outcome: Result<(), PinboardErrorView>, now:
    i64) -> bool {
    match outcome {
        Ok(u) => true,
        Err(e) => now + retry_delay_seconds_spec(
            (item.attempt_count + 1) as i64,
            retry_after_secs_spec(e),
        ) <= i64::MAX,
    }
}

/// Applies one replay outcome to the queue and says whether the batch
/// stops: success deletes the entry; failure marks a retry with the
/// error's message and hint; a rate-limited failure halts the batch.
pub fn apply_send_outcome(
    q: &mut QueueStore,
    item: &QueueItem,
    outcome: &Result<(), PinboardError>,
    now: i64,
) -> (halt: bool)
    requires
        old(q).wf(),
        0 <= item.attempt_count < i64::MAX,
        0 <= now,
        replay_fits(item@, unit_result_view(*outcome), now),
    ensures
        final(q).wf(),
        final(q).id_headroom() == old(q).id_headroom(),
        final(q)@ == replay_update(old(q)@, item@, unit_result_view(*outcome), now),
        halt == halts_batch(unit_result_view(*outcome)),
{
    match outcome {
        Ok(_) => {
            q.mark_sent(item.id);
            false
        },
        Err(e) => {
            let hint = e.retry_after_secs();
            let msg = e.message_for_user();
            let halt = matches!(e, PinboardError::RateLimited { .. });
            q.mark_retry(item.id, item.attempt_count, msg.as_str(), hint, now);
            proof {
                let ev = e@;
                let f_exec = |x: QueueEntryView|
                    if x.item.id == item.id {
                        retry_entry(x, item.attempt_count, msg@, hint, now)
                    } else {
                        x
                    };
                let f_spec = |x: QueueEntryView|
                    if x.item.id == item.id {
                        retry_entry(
                            x,
                            item.attempt_count,
                            message_for_user_spec(ev),
                            retry_after_secs_spec(ev),
                            now,
                        )
                    } else {
                        x
                    };
                assert(q@ =~~= old(q)@.map_values(f_spec)) by {
                    assert(q@ == old(q)@.map_values(f_exec));
                    assert forall|k: int| 0 <= k < old(q)@.len() implies old(q)@.map_values(
                        f_exec,
                    )[k] == old(q)@.map_values(f_spec)[k] by {
                        assert(msg@ == message_for_user_spec(ev));
                        assert(hint == retry_after_secs_spec(ev));
                    }
                }
            }
            halt
        },
    }
}

} // verus!
