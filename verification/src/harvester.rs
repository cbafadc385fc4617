//! Periodic harvester planning: which posts of a tracked source are new
//! against the persisted cursor, in which order they are ingested, and
//! how the cursor advances after a sweep.

use vstd::prelude::*;

verus! {

/// How many posts a first run (no cursor yet) ingests, to avoid an
/// unbounded backfill of old history.
pub const FIRST_RUN_LIMIT: usize = 10;

/// One tracked source, as persisted in the cursor file.
pub struct ArtistEntry {
    /// A display name, when one was recorded.
    pub author_name: Option<String>,
    /// The paid-content service the author publishes on.
    pub platform: String,
    /// The author's identifier on that service.
    pub user_id: String,
    /// The remote host the author is harvested from.
    pub domain: String,
    /// The id of the newest post already ingested, absent before the
    /// first completed harvest.
    pub last_ingested: Option<String>,
}

/// An author profile, as the remote API reports it.
pub struct ArtistProfile {
    /// The author's identifier.
    pub id: String,
    /// The author's display name.
    pub name: String,
    /// The service the profile belongs to.
    pub service: String,
    /// When the profile was first indexed.
    pub indexed: String,
    /// When the profile was last updated.
    pub updated: String,
    /// The profile's public identifier.
    pub public_id: String,
}

/// One entry of a recent-posts listing.
pub struct PostSummary {
    /// The post's identifier.
    pub id: String,
    /// The post's title.
    pub title: String,
}

/// The index of the first element of `ids` equal to `x`, or `ids.len()`.
pub open spec fn idx_of_id(ids: Seq<Seq<char>>, x: Seq<char>) -> nat
    decreases ids.len(),
{
    if ids.len() == 0 {
        0
    } else if ids[0] == x {
        0
    } else {
        1 + idx_of_id(ids.skip(1), x)
    }
}

pub proof fn lemma_idx_of_id_is(ids: Seq<Seq<char>>, x: Seq<char>, k: int)
    requires
        0 <= k <= ids.len(),
        forall|i: int| 0 <= i < k ==> ids[i] != x,
        k < ids.len() ==> ids[k] == x,
    ensures
        idx_of_id(ids, x) == k,
    decreases k,
{
    if ids.len() == 0 {
    } else if k == 0 {
    } else {
        assert(forall|i: int| 0 <= i < k - 1 ==> ids.skip(1)[i] == ids[i + 1]);
        assert(k - 1 < ids.skip(1).len() ==> ids.skip(1)[k - 1] == ids[k]);
        lemma_idx_of_id_is(ids.skip(1), x, k - 1);
    }
}

/// How many posts from the head of the listing are new.  With a cursor,
/// everything before its first occurrence; a cursor that has scrolled
/// off the returned window yields zero new posts — a documented
/// limitation, deliberately not an unbounded re-ingestion of the
/// window.  Without a cursor, at most `first_run_limit` posts.
pub open spec fn new_count(ids: Seq<Seq<char>>, last: Option<Seq<char>>, limit: nat) -> int {
    match last {
        Some(l) => if idx_of_id(ids, l) == ids.len() {
            0
        } else {
            idx_of_id(ids, l) as int
        },
        None => if ids.len() <= limit {
            ids.len() as int
        } else {
            limit as int
        },
    }
}

/// The ids to ingest, oldest of the new first: the head prefix of the
/// listing (which the remote API returns newest-first), reversed.
pub open spec fn ingest_plan(ids: Seq<Seq<char>>, last: Option<Seq<char>>, limit: nat) -> Seq<
    Seq<char>,
> {
    ids.take(new_count(ids, last, limit)).reverse()
}

/// One source's harvest decision: what to ingest, and where the cursor
/// moves.
pub struct HarvestStep {
    /// Post ids to feed through the content fetcher, in ingestion order.
    pub to_ingest: Vec<String>,
    /// The id the cursor advances to after the posts are dispatched, or
    /// `None` when nothing was new and the cursor keeps its value.
    pub new_cursor: Option<String>,
}

/// Plans one harvest pass over one source's recent-posts listing.
///
/// New posts are the listing's head up to (but excluding) the first
/// occurrence of the cursor id; a cursor absent from the window yields
/// nothing and keeps its value; a missing cursor takes at most
/// `first_run_limit` posts.  They are ingested in reverse listing order,
/// oldest of the new first, so downstream ordering matches publication
/// order.  The cursor advances to the newest ingested id — the listing's
/// head — exactly when anything was new.
pub fn plan_harvest(listing: &Vec<String>, last_ingested: &Option<String>, first_run_limit: usize)
    -> (r: HarvestStep)
    ensures
        ({
            let ids = listing.deep_view();
            let last = match *last_ingested {
                Some(l) => Some(l@),
                None => None,
            };
            let plan = ingest_plan(ids, last, first_run_limit as nat);
            &&& r.to_ingest.deep_view() == plan
            &&& plan.len() > 0 ==> (r.new_cursor matches Some(c) && c@ == ids[0])
            &&& plan.len() == 0 ==> r.new_cursor is None
        }),
{
    let ghost ids = listing.deep_view();
    let mut count: usize;
    match last_ingested {
        Some(l) => {
            let mut i: usize = 0;
            count = listing.len();
            let mut found = false;
            while i < listing.len()
                invariant
                    ids == listing.deep_view(),
                    i <= ids.len(),
                    ids.len() == listing@.len(),
                    !found ==> count == ids.len() && forall|j: int| 0 <= j < i ==> ids[j] != l@,
                    found ==> count < ids.len() && ids[count as int] == l@ && forall|j: int|
                        0 <= j < count ==> ids[j] != l@,
                decreases listing.len() - i,
            {
                proof {
                    assert(listing.deep_view()[i as int] == listing@[i as int]@);
                    assert(ids[i as int] == listing@[i as int]@);
                }
                if !found && listing[i].eq(l) {
                    count = i;
                    found = true;
                }
                i = i + 1;
            }
            proof {
                if found {
                    lemma_idx_of_id_is(ids, l@, count as int);
                } else {
                    lemma_idx_of_id_is(ids, l@, ids.len() as int);
                }
            }
            if !found {
                count = 0;
            }
        },
        None => {
            count = if listing.len() <= first_run_limit {
                listing.len()
            } else {
                first_run_limit
            };
        },
    }
    let ghost last = match last_ingested {
        Some(l) => Some(l@),
        None => None,
    };
    proof {
        assert(count as int == new_count(ids, last, first_run_limit as nat));
    }
    let mut to_ingest: Vec<String> = Vec::new();
    let mut k: usize = count;
    while k > 0
        invariant
            ids == listing.deep_view(),
            k <= count <= ids.len(),
            ids.len() == listing@.len(),
            to_ingest@.len() == count - k,
            forall|j: int| 0 <= j < count - k ==> #[trigger] to_ingest@[j]@ == ids[count - 1 - j],
        decreases k,
    {
        k = k - 1;
        to_ingest.push(listing[k].clone());
        proof {
            assert(listing.deep_view()[k as int] == listing@[k as int]@);
            assert(ids[k as int] == listing@[k as int]@);
            assert(to_ingest@[(count - k - 1) as int]@ == listing@[k as int]@);
        }
    }
    proof {
        assert forall|j: int| 0 <= j < count implies to_ingest.deep_view()[j] == ids.take(
            count as int,
        ).reverse()[j] by {
            assert(to_ingest.deep_view()[j] == to_ingest@[j]@);
        }
        assert(to_ingest.deep_view() =~= ids.take(count as int).reverse());
    }
    let new_cursor: Option<String> = if count > 0 {
        proof {
            assert(ids[0] == listing@[0]@);
        }
        Some(listing[0].clone())
    } else {
        None
    };
    HarvestStep { to_ingest, new_cursor }
}

/// Advances one source's cursor after its posts were dispatched: a new
/// cursor value replaces the old one; none leaves it untouched.
pub fn apply_cursor(entry: &mut ArtistEntry, new_cursor: Option<String>)
    ensures
        final(entry).author_name == old(entry).author_name,
        final(entry).platform == old(entry).platform,
        final(entry).user_id == old(entry).user_id,
        final(entry).domain == old(entry).domain,
        final(entry).last_ingested == match new_cursor {
            Some(c) => Some(c),
            None => old(entry).last_ingested,
        },
{
    match new_cursor {
        Some(c) => {
            entry.last_ingested = Some(c);
        },
        None => {},
    }
}

} // verus!
