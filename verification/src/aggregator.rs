//! Attachment aggregator: one user's consecutive media attachments are
//! buffered in a single active batch and flushed as one staging job after
//! an idle timeout.
//!
//! There is exactly one batch slot.  Every transition here is written to
//! run inside the aggregator's one critical section, state in and state
//! out, so no interleaving can lose an item: a superseded batch is handed
//! back to the caller to be flushed, never dropped.

use vstd::prelude::*;
use vstd::string::StringExecFns;

use crate::text::chars_to_string;
use crate::text::chars_vec;
use crate::text::dec_chars;
use crate::text::dec_digits;
use crate::text::extend_chars;

verus! {

/// Seconds of silence after which the active batch is flushed.
pub const IDLE_TIMEOUT_SECS: u64 = 3;

/// One buffered attachment.
pub struct QueuedAttachment {
    /// The chat platform's stable identifier for the attachment.
    pub file_id: String,
    /// The attachment's original path or name, for diagnostics.
    pub original_path: String,
}

impl QueuedAttachment {
    /// A field-for-field copy.
    pub fn duplicate(&self) -> (r: QueuedAttachment)
        ensures
            r == *self,
    {
        QueuedAttachment {
            file_id: self.file_id.clone(),
            original_path: self.original_path.clone(),
        }
    }
}

/// The active batch: one user's pending attachments and the time of the
/// last arrival.
pub struct ActiveBatch {
    /// The user the batch belongs to.
    pub owner: u64,
    /// The buffered attachments, in arrival order.
    pub items: Vec<QueuedAttachment>,
    /// When the batch last saw activity.
    pub last_activity: u64,
}

/// Handles one arriving attachment.  Run under the aggregator's lock.
///
/// When the active batch belongs to the same user, the item is appended
/// and the activity clock refreshed.  Otherwise a fresh batch of just
/// this item replaces the slot, and whatever batch was pending is
/// returned for its own flush, so a superseded user's items are never
/// silently lost.
pub fn on_attachment(slot: Option<ActiveBatch>, user: u64, item: QueuedAttachment, now: u64) -> (r:
    (Option<ActiveBatch>, Option<ActiveBatch>))
    ensures
        r.0 is Some,
        ({
            let s = r.0->0;
            if slot matches Some(b) && b.owner == user {
                &&& s.owner == user
                &&& s.items@ == slot->0.items@.push(item)
                &&& s.last_activity == now
                &&& r.1 is None
            } else {
                &&& s.owner == user
                &&& s.items@ == seq![item]
                &&& s.last_activity == now
                &&& r.1 == slot
            }
        }),
{
    let owner_matches = match &slot {
        Some(b) => b.owner == user,
        None => false,
    };
    if owner_matches {
        let b = slot.unwrap();
        let mut items = b.items;
        items.push(item);
        (Some(ActiveBatch { owner: user, items, last_activity: now }), None)
    } else {
        let mut items: Vec<QueuedAttachment> = Vec::new();
        items.push(item);
        proof {
            assert(items@ =~= seq![item]);
        }
        (Some(ActiveBatch { owner: user, items, last_activity: now }), slot)
    }
}

/// True when the slot holds a batch whose last activity lies at least
/// `timeout` seconds before `now`.
pub open spec fn batch_expired(slot: Option<ActiveBatch>, now: u64, timeout: u64) -> bool {
    slot matches Some(b) && b.last_activity + timeout <= now
}

/// The periodic idle check.  Run under the aggregator's lock.
///
/// An expired batch is taken whole — the slot is left empty — and handed
/// back to be flushed as one staging job.  A live batch is left exactly
/// as it was.
pub fn take_if_idle(slot: Option<ActiveBatch>, now: u64, timeout: u64) -> (r: (
    Option<ActiveBatch>,
    Option<ActiveBatch>,
))
    ensures
        batch_expired(slot, now, timeout) ==> r.0 is None && r.1 == slot,
        !batch_expired(slot, now, timeout) ==> r.0 == slot && r.1 is None,
{
    let expired = match &slot {
        Some(b) => now >= b.last_activity && now - b.last_activity >= timeout,
        None => false,
    };
    if expired {
        (None, slot)
    } else {
        (slot, None)
    }
}

/// Attachments `a1, a2` arriving from one user within the idle window,
/// followed by silence past the timeout, flush exactly one batch — the
/// two early transitions flush nothing — holding `a1, a2` in arrival
/// order, and leave no active batch behind.
pub proof fn lemma_batch_flushes_once_in_order(
    user: u64,
    a1: QueuedAttachment,
    a2: QueuedAttachment,
    t1: u64,
    t2: u64,
    t3: u64,
    timeout: u64,
    r1: (Option<ActiveBatch>, Option<ActiveBatch>),
    r2: (Option<ActiveBatch>, Option<ActiveBatch>),
    r3: (Option<ActiveBatch>, Option<ActiveBatch>),
)
    requires
        t1 <= t2,
        t2 <= t1 + timeout,
        t2 + timeout <= t3,
        call_ensures(on_attachment, (None, user, a1, t1), r1),
        call_ensures(on_attachment, (r1.0, user, a2, t2), r2),
        call_ensures(take_if_idle, (r2.0, t3, timeout), r3),
    ensures
        r1.1 is None,
        r2.1 is None,
        r3.1 matches Some(b) && b.owner == user && b.items@ =~= seq![a1, a2],
        r3.0 is None,
{
    assert(r1.0->0.items@ == seq![a1]);
    assert(r2.0->0.items@ == seq![a1].push(a2));
    assert(r2.0->0.items@ =~= seq![a1, a2]);
}

/// The folder name of a flushed batch: `{user_id}_{timestamp}`.
pub fn batch_folder_name(user_id: u64, timestamp: &str) -> (r: String)
    ensures
        r@ == dec_digits(user_id as nat) + "_"@ + timestamp@,
{
    let mut v = dec_chars(user_id);
    let underscore = chars_vec("_");
    let ts = chars_vec(timestamp);
    extend_chars(&mut v, &underscore);
    extend_chars(&mut v, &ts);
    chars_to_string(&v)
}

/// The temporary and final directory paths of a flushed batch: the job
/// is populated under the first and becomes visible only by the single
/// rename to the second.
pub fn batch_staging_paths(folder_name: &str) -> (r: (String, String))
    ensures
        r.0@ == "exchange/messages_tmp/"@ + folder_name@,
        r.1@ == "exchange/messages/"@ + folder_name@,
{
    let mut tmp = String::from_str("exchange/messages_tmp/");
    tmp.append(folder_name);
    let mut fin = String::from_str("exchange/messages/");
    fin.append(folder_name);
    (tmp, fin)
}

} // verus!
