//! A model of the exchange area: staging directories that producers fill
//! privately, and the outgoing root that publication renames them into.
//!
//! The pipeline's hand-off discipline is that visibility is created by a
//! single atomic rename — never by writes to a final path.  The model
//! has four moves: start a staging job, write a file into it, publish it
//! whole by rename, and remove a delivered job.  The laws below show that
//! under these moves a consumer of the outgoing root can never observe a
//! job with fewer files than it was published with: writing changes only
//! staging, and a published job's file list is frozen until the job is
//! removed.

use vstd::prelude::*;

verus! {

/// The exchange area: each job name maps to the files under it.
pub struct ExchangeState {
    /// Jobs still being populated under the temporary root, owned by one
    /// producer each.
    pub staging: Map<Seq<char>, Seq<Seq<char>>>,
    /// Jobs published under the outgoing root, visible to the chunker.
    pub outgoing: Map<Seq<char>, Seq<Seq<char>>>,
}

/// A producer claims a fresh job name and an empty staging directory.
pub open spec fn start_job(pre: ExchangeState, post: ExchangeState, name: Seq<char>) -> bool {
    &&& !pre.staging.contains_key(name)
    &&& !pre.outgoing.contains_key(name)
    &&& post.staging == pre.staging.insert(name, Seq::<Seq<char>>::empty())
    &&& post.outgoing == pre.outgoing
}

/// A producer writes one more file into its staging job.  The outgoing
/// root is untouched: a partially written job is never visible.
pub open spec fn write_file(
    pre: ExchangeState,
    post: ExchangeState,
    name: Seq<char>,
    file: Seq<char>,
) -> bool {
    &&& pre.staging.contains_key(name)
    &&& post.staging == pre.staging.insert(name, pre.staging[name].push(file))
    &&& post.outgoing == pre.outgoing
}

/// The single publication point: the whole staging directory moves under
/// the outgoing root in one rename, files unchanged.
pub open spec fn publish(pre: ExchangeState, post: ExchangeState, name: Seq<char>) -> bool {
    &&& pre.staging.contains_key(name)
    &&& !pre.outgoing.contains_key(name)
    &&& post.staging == pre.staging.remove(name)
    &&& post.outgoing == pre.outgoing.insert(name, pre.staging[name])
}

/// The chunker removes a job it has fully delivered.
pub open spec fn remove_delivered(pre: ExchangeState, post: ExchangeState, name: Seq<char>) -> bool {
    &&& pre.outgoing.contains_key(name)
    &&& post.staging == pre.staging
    &&& post.outgoing == pre.outgoing.remove(name)
}

/// Any single move of the exchange protocol.
pub open spec fn step(pre: ExchangeState, post: ExchangeState) -> bool {
    ||| exists|name: Seq<char>| start_job(pre, post, name)
    ||| exists|name: Seq<char>, file: Seq<char>| write_file(pre, post, name, file)
    ||| exists|name: Seq<char>| publish(pre, post, name)
    ||| exists|name: Seq<char>| remove_delivered(pre, post, name)
}

/// A run of the protocol: consecutive states joined by steps.
pub open spec fn run_ok(states: Seq<ExchangeState>) -> bool {
    forall|i: int| 0 <= i < states.len() - 1 ==> step(#[trigger] states[i], states[i + 1])
}

/// Publication is all-or-nothing: the job appears under the outgoing
/// root with exactly the files its producer staged, and the staging
/// entry is gone.
pub proof fn lemma_publish_is_whole(pre: ExchangeState, post: ExchangeState, name: Seq<char>)
    requires
        publish(pre, post, name),
    ensures
        post.outgoing[name] == pre.staging[name],
        !post.staging.contains_key(name),
{
}

/// No single move changes the files of a job that stays visible under
/// the outgoing root: writes touch staging only, publication only adds a
/// job, removal only takes one away.
pub proof fn lemma_visible_job_unchanged_by_step(
    pre: ExchangeState,
    post: ExchangeState,
    name: Seq<char>,
)
    requires
        step(pre, post),
        pre.outgoing.contains_key(name),
        post.outgoing.contains_key(name),
    ensures
        post.outgoing[name] == pre.outgoing[name],
{
}

/// A consumer never observes a published job with fewer files than it
/// eventually holds: across any stretch of a run in which a job stays
/// visible under the outgoing root, its file list is exactly the one the
/// single rename published.
pub proof fn lemma_published_job_frozen(
    states: Seq<ExchangeState>,
    i: int,
    j: int,
    name: Seq<char>,
)
    requires
        run_ok(states),
        0 <= i <= j < states.len(),
        forall|k: int| i <= k <= j ==> (#[trigger] states[k]).outgoing.contains_key(name),
    ensures
        states[j].outgoing[name] == states[i].outgoing[name],
    decreases j - i,
{
    if i < j {
        lemma_published_job_frozen(states, i, j - 1, name);
        lemma_visible_job_unchanged_by_step(states[j - 1], states[j], name);
    }
}

} // verus!
