//! The messages a chat session parks while it is busy. Each keeps the
//! browser's idempotency key and becomes one turn, oldest first. A dispatch
//! that fails puts the message back at the front, with its error and the
//! time of its next attempt; the user can cancel a parked message by id.

use std::collections::VecDeque;

use vstd::prelude::*;

use crate::chat::{persisted_queue_delay, queue_delay_spec, TextAnnotation, TurnOverrides};
use crate::text::str_eq;

verus! {

/// An image sent with a message, as the browser uploaded it.
pub struct ImageAttachment {
    pub media_type: String,
    pub data_base64: String,
    /// Original file name (uploads and drops); pasted images carry none.
    pub name: Option<String>,
}

/// A message parked while its session was busy.
pub struct QueuedMessage {
    pub id: String,
    /// The browser's idempotency key.
    pub client_turn_id: String,
    pub request_hash: String,
    pub text: String,
    pub transcript_text: Option<String>,
    pub overrides: TurnOverrides,
    pub images: Vec<ImageAttachment>,
    pub annotations: Vec<TextAnnotation>,
    /// Failed dispatches so far.
    pub dispatch_attempts: u32,
    pub dispatch_error: Option<String>,
    /// When the next dispatch is due, in Unix milliseconds.
    pub next_retry_at: Option<i64>,
}

/// The queue without the messages with id `id`, in order.
pub open spec fn kept(q: Seq<QueuedMessage>, id: Seq<char>) -> Seq<QueuedMessage>
    decreases q.len(),
{
    if q.len() == 0 {
        Seq::empty()
    } else {
        kept(q.drop_last(), id) + if q.last().id@ == id {
            Seq::empty()
        } else {
            seq![q.last()]
        }
    }
}

/// Some message of the queue has id `id`.
pub open spec fn holds(q: Seq<QueuedMessage>, id: Seq<char>) -> bool {
    exists|i: int| 0 <= i < q.len() && (#[trigger] q[i]).id@ == id
}

proof fn lemma_kept_none(q: Seq<QueuedMessage>, id: Seq<char>)
    requires
        !holds(q, id),
    ensures
        kept(q, id) == q,
    decreases q.len(),
{
    if q.len() > 0 {
        assert(!holds(q.drop_last(), id)) by {
            if holds(q.drop_last(), id) {
                let i = choose|i: int| 0 <= i < q.drop_last().len() && (#[trigger] q.drop_last()[i]).id@ == id;
                assert(q[i] == q.drop_last()[i]);
            }
        }
        lemma_kept_none(q.drop_last(), id);
        assert(q.last() == q[q.len() - 1]);
        assert(q.drop_last().push(q.last()) =~= q);
    }
}

proof fn lemma_kept_misses(q: Seq<QueuedMessage>, id: Seq<char>)
    ensures
        !holds(kept(q, id), id),
        kept(q, id).len() <= q.len(),
    decreases q.len(),
{
    if q.len() > 0 {
        lemma_kept_misses(q.drop_last(), id);
        let k = kept(q, id);
        let p = kept(q.drop_last(), id);
        if holds(k, id) {
            let i = choose|i: int| 0 <= i < k.len() && (#[trigger] k[i]).id@ == id;
            if i < p.len() {
                assert(k[i] == p[i]);
            }
        }
    }
}

/// Removes the parked message `item_id` (the cross on a queued chip); says
/// whether there was one.
pub fn cancel_queued(queue: &mut VecDeque<QueuedMessage>, item_id: &str) -> (removed: bool)
    ensures
        removed == holds(old(queue)@, item_id@),
        final(queue)@ == kept(old(queue)@, item_id@),
{
    let ghost orig = queue@;
    let mut i: usize = 0;
    let mut found = false;
    while i < queue.len()
        invariant
            queue@ == orig,
            i <= orig.len(),
            found == exists|j: int| 0 <= j < i && (#[trigger] orig[j]).id@ == item_id@,
        decreases orig.len() - i,
    {
        if str_eq(queue[i].id.as_str(), item_id) {
            found = true;
        }
        i = i + 1;
    }
    if !found {
        proof {
            lemma_kept_none(orig, item_id@);
        }
        return false;
    }
    let mut out: VecDeque<QueuedMessage> = VecDeque::new();
    let mut k: usize = 0;
    let n = queue.len();
    while k < n
        invariant
            n == orig.len(),
            k <= n,
            queue@ == orig.skip(k as int),
            out@ == kept(orig.take(k as int), item_id@),
        decreases n - k,
    {
        let ghost idx = k as int;
        let x = match queue.pop_front() {
            Some(x) => x,
            None => {
                return true;
            },
        };
        assert(x == orig[idx]);
        assert(queue@ =~= orig.skip(idx + 1));
        let ghost t = orig.take(idx + 1);
        assert(t.drop_last() =~= orig.take(idx));
        assert(t.last() == x);
        if !str_eq(x.id.as_str(), item_id) {
            out.push_back(x);
            assert(out@ =~= kept(orig.take(idx), item_id@) + seq![x]);
        } else {
            assert(kept(t, item_id@) =~= kept(orig.take(idx), item_id@) + Seq::empty());
        }
        k = k + 1;
    }
    assert(orig.take(n as int) =~= orig);
    *queue = out;
    true
}

/// `n` is the message `o` after a dispatch that failed with `error`: one
/// more attempt, the error, and the time of the next attempt (none when
/// retries are exhausted); its content is unchanged.
pub open spec fn failure_recorded(
    o: QueuedMessage,
    n: QueuedMessage,
    error: Seq<char>,
    retry_at: Option<int>,
) -> bool {
    &&& n.id == o.id
    &&& n.client_turn_id == o.client_turn_id
    &&& n.request_hash == o.request_hash
    &&& n.text == o.text
    &&& n.transcript_text == o.transcript_text
    &&& n.overrides == o.overrides
    &&& n.images == o.images
    &&& n.annotations == o.annotations
    &&& n.dispatch_attempts == o.dispatch_attempts + 1
    &&& n.dispatch_error matches Some(e) && e@ == error
    &&& match retry_at {
        Some(t) => n.next_retry_at == Some(t as i64),
        None => n.next_retry_at is None,
    }
}

/// The time of the next attempt: `now` plus the retry delay, if there is one.
pub open spec fn retry_time(retry_delay_ms: Option<u64>, now_ms: i64) -> Option<int> {
    match retry_delay_ms {
        Some(d) => Some(now_ms + d),
        None => None,
    }
}

/// Puts a message whose dispatch failed back at the front of its queue,
/// recording the failure (see [`failure_recorded`]); `retry_delay_ms` is
/// the wait before the next attempt, none once retries are exhausted.
pub fn requeue_failed(
    queue: &mut VecDeque<QueuedMessage>,
    item: QueuedMessage,
    error: String,
    retry_delay_ms: Option<u64>,
    now_ms: i64,
)
    requires
        item.dispatch_attempts < u32::MAX,
        retry_delay_ms matches Some(d) ==> d <= i64::MAX && now_ms + d <= i64::MAX,
    ensures
        final(queue)@.len() == old(queue)@.len() + 1,
        final(queue)@.skip(1) == old(queue)@,
        failure_recorded(item, final(queue)@[0], error@, retry_time(retry_delay_ms, now_ms)),
{
    let QueuedMessage {
        id,
        client_turn_id,
        request_hash,
        text,
        transcript_text,
        overrides,
        images,
        annotations,
        dispatch_attempts,
        dispatch_error: _,
        next_retry_at: _,
    } = item;
    let next_retry_at = match retry_delay_ms {
        Some(d) => Some(now_ms + d as i64),
        None => None,
    };
    let failed = QueuedMessage {
        id,
        client_turn_id,
        request_hash,
        text,
        transcript_text,
        overrides,
        images,
        annotations,
        dispatch_attempts: dispatch_attempts + 1,
        dispatch_error: Some(error),
        next_retry_at,
    };
    queue.push_front(failed);
    assert(queue@.skip(1) =~= old(queue)@);
}

/// How a queued chip shows its message: `queued`, or after a failed
/// dispatch `retrying` (another attempt is due) or `blocked`.
pub open spec fn dispatch_state_spec(item: QueuedMessage) -> Seq<char> {
    match item.dispatch_error {
        Some(_) => if item.next_retry_at is Some {
            "retrying"@
        } else {
            "blocked"@
        },
        None => "queued"@,
    }
}

/// The dispatch state of a queued message.
pub fn dispatch_state(item: &QueuedMessage) -> (r: &'static str)
    ensures
        r@ == dispatch_state_spec(*item),
{
    match item.dispatch_error {
        Some(_) => if item.next_retry_at.is_some() {
            "retrying"
        } else {
            "blocked"
        },
        None => "queued",
    }
}

/// Whether a persisted queue is resumed, and after how long: not while its
/// messages are being cancelled, not when empty, and not once its oldest
/// message has used up its retries.
pub fn resume_delay(queue: &VecDeque<QueuedMessage>, cancelled: bool, max_retries: u32, now_ms: i64) -> (r: Option<u64>)
    ensures
        r is Some <==> (!cancelled && queue@.len() > 0 && queue@[0].dispatch_attempts <= max_retries),
        r matches Some(d) ==> d == queue_delay_spec(queue@[0].next_retry_at, now_ms),
{
    if cancelled || queue.len() == 0 {
        return None;
    }
    let front = &queue[0];
    if front.dispatch_attempts > max_retries {
        return None;
    }
    Some(persisted_queue_delay(front.next_retry_at, now_ms))
}

/// Whether the message a scheduled retry was for is still waiting at the
/// front, unchanged since: a cancel or a newer failure makes the retry
/// stale.
pub fn still_pending(queue: &VecDeque<QueuedMessage>, id: &str, next_retry_at: Option<i64>) -> (r: bool)
    ensures
        r == (queue@.len() > 0 && queue@[0].id@ == id@ && queue@[0].next_retry_at == next_retry_at),
{
    if queue.len() == 0 {
        return false;
    }
    let front = &queue[0];
    str_eq(front.id.as_str(), id) && front.next_retry_at == next_retry_at
}

/// The first message parked under the client turn id.
pub open spec fn first_client_turn(q: Seq<QueuedMessage>, client_turn_id: Seq<char>) -> Option<int> {
    if exists|i: int| 0 <= i < q.len() && (#[trigger] q[i]).client_turn_id@ == client_turn_id {
        Some(
            choose|i: int|
                0 <= i < q.len() && (#[trigger] q[i]).client_turn_id@ == client_turn_id && forall|j: int|
                    0 <= j < i ==> (#[trigger] q[j]).client_turn_id@ != client_turn_id,
        )
    } else {
        None
    }
}

/// The position of the first message parked under the client turn id: a
/// repeated submission with that id is answered from it.
pub fn find_client_turn(queue: &VecDeque<QueuedMessage>, client_turn_id: &str) -> (r: Option<usize>)
    ensures
        match r {
            Some(i) => i < queue@.len() && first_client_turn(queue@, client_turn_id@) == Some(i as int),
            None => first_client_turn(queue@, client_turn_id@) is None,
        },
{
    let mut i: usize = 0;
    while i < queue.len()
        invariant
            i <= queue@.len(),
            forall|j: int| 0 <= j < i ==> (#[trigger] queue@[j]).client_turn_id@ != client_turn_id@,
        decreases queue@.len() - i,
    {
        if str_eq(queue[i].client_turn_id.as_str(), client_turn_id) {
            proof {
                let w = i as int;
                assert(0 <= w < queue@.len() && queue@[w].client_turn_id@ == client_turn_id@);
                let c = choose|c: int|
                    0 <= c < queue@.len() && (#[trigger] queue@[c]).client_turn_id@ == client_turn_id@
                        && forall|j: int| 0 <= j < c ==> (#[trigger] queue@[j]).client_turn_id@ != client_turn_id@;
                if c < w {
                    assert(queue@[c].client_turn_id@ != client_turn_id@);
                }
                if w < c {
                    assert(queue@[w].client_turn_id@ != client_turn_id@);
                }
            }
            return Some(i);
        }
        i = i + 1;
    }
    None
}

// ---------------------------------------------------------------------------
// Admitting a submission to a busy session
// ---------------------------------------------------------------------------

/// How a submission that may wait in the queue is admitted.
pub enum Admission {
    /// An identical submission is being admitted: wait for its outcome.
    AwaitPending,
    /// An identical submission is already parked: answer with it.
    Parked,
    /// The session is busy: park the message at the end of its queue.
    Enqueue,
    /// The session is idle: start the turn, once its lease is claimed.
    Claim,
}

/// The refusal of a client turn id reused with other content.
pub open spec fn reused_id_message() -> Seq<char> {
    "clientTurnId was already used with different content"@
}

/// How a submission under `client_turn_id` with content hash
/// `request_hash` is admitted, or why it is refused: a session being
/// deleted is gone; a submission with the same id, pending or parked,
/// answers it when the content is the same and refuses it otherwise; a
/// busy session (one running a turn or holding a queue) parks it, unless
/// it is stopping or the submission is empty; an idle one starts it.
pub open spec fn admission_spec(
    deleting: bool,
    pending_hash: Option<Seq<char>>,
    q: Seq<QueuedMessage>,
    client_turn_id: Seq<char>,
    request_hash: Seq<char>,
    busy: bool,
    cancelling: bool,
    content_missing: bool,
    has_message: bool,
) -> Result<Admission, Seq<char>> {
    if deleting {
        Err("chat session not found"@)
    } else {
        match pending_hash {
            Some(h) => if h == request_hash {
                Ok(Admission::AwaitPending)
            } else {
                Err(reused_id_message())
            },
            None => match first_client_turn(q, client_turn_id) {
                Some(i) => if q[i].request_hash@ == request_hash {
                    Ok(Admission::Parked)
                } else {
                    Err(reused_id_message())
                },
                None => if busy || q.len() > 0 {
                    if cancelling {
                        Err("session is stopping — send again once it is idle"@)
                    } else if content_missing || !has_message {
                        Err("message content is required"@)
                    } else {
                        Ok(Admission::Enqueue)
                    }
                } else {
                    Ok(Admission::Claim)
                },
            },
        }
    }
}

/// Admits a submission that may wait in the session's queue (see
/// [`admission_spec`]).
pub fn queue_admission(
    deleting: bool,
    pending_hash: Option<&str>,
    queue: &VecDeque<QueuedMessage>,
    client_turn_id: &str,
    request_hash: &str,
    busy: bool,
    cancelling: bool,
    content_missing: bool,
    has_message: bool,
) -> (r: Result<Admission, &'static str>)
    ensures
        match r {
            Ok(a) => admission_spec(
                deleting,
                match pending_hash {
                    Some(h) => Some(h@),
                    None => None,
                },
                queue@,
                client_turn_id@,
                request_hash@,
                busy,
                cancelling,
                content_missing,
                has_message,
            ) == Ok::<Admission, Seq<char>>(a),
            Err(e) => admission_spec(
                deleting,
                match pending_hash {
                    Some(h) => Some(h@),
                    None => None,
                },
                queue@,
                client_turn_id@,
                request_hash@,
                busy,
                cancelling,
                content_missing,
                has_message,
            ) == Err::<Admission, Seq<char>>(e@),
        },
{
    if deleting {
        return Err("chat session not found");
    }
    match pending_hash {
        Some(h) => {
            return if str_eq(h, request_hash) {
                Ok(Admission::AwaitPending)
            } else {
                Err("clientTurnId was already used with different content")
            };
        },
        None => {},
    }
    match find_client_turn(queue, client_turn_id) {
        Some(i) => {
            return if str_eq(queue[i].request_hash.as_str(), request_hash) {
                Ok(Admission::Parked)
            } else {
                Err("clientTurnId was already used with different content")
            };
        },
        None => {},
    }
    if busy || queue.len() > 0 {
        if cancelling {
            Err("session is stopping — send again once it is idle")
        } else if content_missing || !has_message {
            Err("message content is required")
        } else {
            Ok(Admission::Enqueue)
        }
    } else {
        Ok(Admission::Claim)
    }
}

/// A hidden turn may claim only an idle session: not one being deleted,
/// running a turn, or holding parked messages (the durable lease is
/// claimed after this test).
pub fn hidden_claim_allowed(deleting: bool, turn_running: bool, queue: &VecDeque<QueuedMessage>) -> (r: bool)
    ensures
        r == (!deleting && !turn_running && queue@.len() == 0),
{
    !deleting && !turn_running && queue.len() == 0
}

// ---------------------------------------------------------------------------
// Laws
// ---------------------------------------------------------------------------

/// A failed dispatch keeps the queue's order: the message taken from the
/// front goes back to the front, ahead of the same messages as before.
pub proof fn law_failed_dispatch_keeps_order(
    q: Seq<QueuedMessage>,
    n: Seq<QueuedMessage>,
    error: Seq<char>,
    retry_at: Option<int>,
)
    requires
        q.len() > 0,
        n.len() == q.len(),
        n.skip(1) == q.skip(1),
        failure_recorded(q[0], n[0], error, retry_at),
    ensures
        forall|i: int| 0 <= i < q.len() ==> (#[trigger] n[i]).id == q[i].id,
        forall|i: int| 0 <= i < q.len() ==> (#[trigger] n[i]).client_turn_id == q[i].client_turn_id,
{
    assert forall|i: int| 0 <= i < q.len() implies (#[trigger] n[i]).id == q[i].id by {
        if i > 0 {
            assert(n[i] == n.skip(1)[i - 1]);
            assert(q[i] == q.skip(1)[i - 1]);
        }
    }
    assert forall|i: int| 0 <= i < q.len() implies (#[trigger] n[i]).client_turn_id
        == q[i].client_turn_id by {
        if i > 0 {
            assert(n[i] == n.skip(1)[i - 1]);
            assert(q[i] == q.skip(1)[i - 1]);
        }
    }
}

/// Cancelling a parked message removes it for good, and cancelling it
/// again changes nothing.
pub proof fn law_cancelling_twice_is_cancelling_once(q: Seq<QueuedMessage>, id: Seq<char>)
    ensures
        !holds(kept(q, id), id),
        kept(kept(q, id), id) == kept(q, id),
{
    lemma_kept_misses(q, id);
    lemma_kept_none(kept(q, id), id);
}

} // verus!
