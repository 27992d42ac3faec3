//! The submission orchestrator's decision core, the credential check, and
//! the session-facing result types.
//!
//! The orchestrator path is: validate and normalize
//! ([`prepare_submission`]); one immediate send, performed outside the
//! library; then [`settle_submission`] on the classified outcome — queued
//! on a retryable failure, rejected and never persisted otherwise.

use vstd::prelude::*;
use vstd::string::StringExecFns;
use crate::bookmark::{BookmarkPayload, BookmarkPayloadView, normalize_url, normalize_url_spec};
use crate::bookmark::parse_tags;
use crate::pinboard::{
    PinboardError, PinboardErrorView, is_retryable_spec, message_for_user_spec,
    retry_after_secs_spec, unit_result_view,
};
use crate::queue::{QueueEntryView, QueueStats, QueueStore, eff_initial_delay, enqueued_entry};
use crate::text::{chars_of, contains_seq, contains_str, join_spaces, join_spaces_spec,
    split_ws_spec, string_from_chars, trim_chars, trim_spec};

verus! {

/// What initializing a session reports: whether a credential is
/// configured, and the queue aggregate.
#[derive(Clone, Copy, PartialEq, Eq, Structural, Debug)]
pub struct SessionInfo {
    pub token_configured: bool,
    pub queue_stats: QueueStats,
}

/// The orchestrator's answer to one submission.
#[derive(Clone, Debug, PartialEq)]
pub struct SubmitResult {
    pub status: String,
    pub message: String,
    pub queued: bool,
}

/// Mathematical image of a [`SubmitResult`].
#[verifier::ext_equal]
pub struct SubmitResultView {
    pub status: Seq<char>,
    pub message: Seq<char>,
    pub queued: bool,
}

impl View for SubmitResult {
    type V = SubmitResultView;

    open spec fn view(&self) -> SubmitResultView {
        SubmitResultView { status: self.status@, message: self.message@, queued: self.queued }
    }
}

/// What a forced drain of the queue reports.
#[derive(Clone, Copy, PartialEq, Eq, Structural, Debug)]
pub struct QueueRetryResult {
    pub sent: usize,
    pub remaining: u64,
}

/// A credential is accepted when, once trimmed, it contains the
/// `username:token` separator; its content is otherwise opaque.
pub open spec fn validate_token_spec(t: Seq<char>) -> Option<Seq<char>> {
    let c = trim_spec(t);
    if contains_seq(c, ":"@) {
        Some(c)
    } else {
        None
    }
}

/// Checks a credential before it is stored: trimmed, and required to
/// contain the `username:token` separator.
pub fn validate_token(token: &str) -> (r: Result<String, String>)
    ensures
        match r {
            Ok(c) => validate_token_spec(token@) == Some(c@),
            Err(m) => validate_token_spec(token@) is None && m@
                == "Pinboard token should look like username:TOKEN"@,
        },
{
    let chars = chars_of(token);
    let clean = trim_chars(&chars);
    if contains_str(&clean, ":") {
        Ok(string_from_chars(&clean))
    } else {
        Err("Pinboard token should look like username:TOKEN".to_owned())
    }
}

/// Validation and normalization before any send attempt: the URL must
/// normalize (failure is a caller-visible rejection, never queued), and
/// the tag list is re-parsed from its joined text.
pub open spec fn prepare_submission_spec(p: BookmarkPayloadView) -> Result<
    BookmarkPayloadView,
    Seq<char>,
> {
    match normalize_url_spec(p.url) {
        None => Err("Invalid URL"@),
        Some(u) => Ok(
            BookmarkPayloadView { url: u, tags: split_ws_spec(join_spaces_spec(p.tags)), ..p },
        ),
    }
}

/// Cleans a submission for sending: normalized URL, re-parsed tags.
pub fn prepare_submission(payload: &BookmarkPayload) -> (r: Result<BookmarkPayload, String>)
    ensures
        match r {
            Ok(p) => prepare_submission_spec(payload@) == Ok::<BookmarkPayloadView, Seq<char>>(
                p@,
            ),
            Err(m) => prepare_submission_spec(payload@) == Err::<BookmarkPayloadView, Seq<char>>(
                m@,
            ),
        },
{
    let url = match normalize_url(payload.url.as_str()) {
        None => {
            return Err("Invalid URL".to_owned());
        },
        Some(u) => u,
    };
    let joined = join_spaces(&payload.tags);
    let tags = parse_tags(joined.as_str());
    let p = BookmarkPayload {
        url,
        title: payload.title.clone(),
        notes: payload.notes.clone(),
        tags,
        private: payload.private,
        read_later: payload.read_later,
        intent: payload.intent,
    };
    proof {
        assert(p@ =~~= prepare_submission_spec(payload@)->Ok_0);
    }
    Ok(p)
}

/// The initial queue delay of a failed immediate send: the failure's
/// retry-after hint, or 15 seconds without one.
pub open spec fn immediate_retry_delay(e: PinboardErrorView) -> i64 {
    match retry_after_secs_spec(e) {
        Some(v) => v,
        None => 15,
    }
}

/// The enqueued entry fits the clock's range.
pub open spec fn settle_fits(outcome: Result<(), PinboardErrorView>, now: i64) -> bool {
    match outcome {
        Ok(u) => true,
        Err(e) => now + eff_initial_delay(immediate_retry_delay(e)) <= i64::MAX,
    }
}

/// Settles one immediate-send outcome: success reports `sent`; a
/// retryable failure enqueues the submission with the failure's
/// retry-after hint (15 s without one) and reports `queued` with the
/// reason; a terminal failure is surfaced as a rejection and nothing is
/// persisted.
pub fn settle_submission(
    q: &mut QueueStore,
    payload: &BookmarkPayload,
    outcome: &Result<(), PinboardError>,
    now: i64,
) -> (r: Result<SubmitResult, String>)
    requires
        old(q).wf(),
        old(q).id_headroom(),
        0 <= now,
        settle_fits(unit_result_view(*outcome), now),
    ensures
        final(q).wf(),
        match unit_result_view(*outcome) {
            Ok(u) => {
                &&& final(q)@ == old(q)@
                &&& r matches Ok(sr) && sr@.status == "sent"@ && sr@.message
                    == "Saved to Pinboard"@ && !sr@.queued
            },
            Err(e) => {
                if is_retryable_spec(e) {
                    &&& final(q)@.len() == old(q)@.len() + 1
                    &&& final(q)@ == old(q)@.push(
                        enqueued_entry(
                            payload@,
                            message_for_user_spec(e),
                            immediate_retry_delay(e),
                            now,
                            final(q)@.last().item.id,
                        ),
                    )
                    &&& forall|k: int|
                        0 <= k < old(q)@.len() ==> (#[trigger] old(q)@[k]).item.id
                            != final(q)@.last().item.id
                    &&& r matches Ok(sr) && sr@.status == "queued"@ && sr@.queued && sr@.message
                        == "Pinboard unavailable right now. Queued for retry: "@
                        + message_for_user_spec(e)
                } else {
                    &&& final(q)@ == old(q)@
                    &&& r matches Err(m) && m@ == "Pinboard rejected bookmark: "@
                        + message_for_user_spec(e)
                }
            },
        },
{
    match outcome {
        Ok(_) => Ok(
            SubmitResult {
                status: "sent".to_owned(),
                message: "Saved to Pinboard".to_owned(),
                queued: false,
            },
        ),
        Err(e) => {
            let msg = e.message_for_user();
            if e.is_retryable() {
                let delay = match e.retry_after_secs() {
                    Some(v) => v,
                    None => 15,
                };
                let id = q.enqueue(payload, msg.as_str(), delay, now);
                proof {
                    assert(q@.last().item.id == id);
                }
                let mut text = String::new();
                text.append("Pinboard unavailable right now. Queued for retry: ");
                text.append(msg.as_str());
                Ok(SubmitResult { status: "queued".to_owned(), message: text, queued: true })
            } else {
                let mut text = String::new();
                text.append("Pinboard rejected bookmark: ");
                text.append(msg.as_str());
                Err(text)
            }
        },
    }
}

} // verus!
