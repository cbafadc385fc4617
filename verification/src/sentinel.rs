//! Link sentinels: the single-URL marker files producers drop into the
//! incoming-links directory, and the watcher's verdict over each one.
//!
//! The watcher's rule is at-most-once and fire-and-forget: whatever the
//! verdict, and whatever a dispatched fetch later returns, the sentinel is
//! deleted and never reprocessed.

use vstd::prelude::*;
use vstd::string::StringExecFns;

use crate::text::chars_to_string;
use crate::text::chars_vec;
use crate::text::dec_chars;
use crate::text::dec_digits;
use crate::text::extend_chars;
use crate::text::trim_chars;
use crate::text::trim_spec;
use crate::urls::host_of;
use crate::urls::parse_post_url;
use crate::urls::path_parts;
use crate::urls::post_url_ok;
use crate::urls::ExternalPostRef;

verus! {

/// The directory the sentinel files are exchanged through.
pub fn links_dir_path() -> (r: String)
    ensures
        r@ == "./exchange/kc-links"@,
{
    String::from_str("./exchange/kc-links")
}

/// The name of a new sentinel file: `{timestamp}_{source_tag}_{token}.txt`.
/// The token keeps concurrent producers from colliding.
pub fn sentinel_file_name(timestamp: u64, source_tag: &str, token: &str) -> (r: String)
    ensures
        r@ == dec_digits(timestamp as nat) + "_"@ + source_tag@ + "_"@ + token@ + ".txt"@,
{
    let mut v = dec_chars(timestamp);
    let underscore = chars_vec("_");
    let tag = chars_vec(source_tag);
    let tok = chars_vec(token);
    let suffix = chars_vec(".txt");
    extend_chars(&mut v, &underscore);
    extend_chars(&mut v, &tag);
    extend_chars(&mut v, &underscore);
    extend_chars(&mut v, &tok);
    extend_chars(&mut v, &suffix);
    chars_to_string(&v)
}

/// The watcher's verdict over one sentinel's contents.
pub enum SentinelVerdict {
    /// The file was empty after trimming; nothing to fetch.
    DiscardEmpty,
    /// The URL does not address an accepted host; warned and dropped.
    DiscardForeign,
    /// The host is accepted but the path is malformed; warned and dropped.
    DiscardMalformed,
    /// A valid reference: dispatch it to the content fetcher.
    Fetch(ExternalPostRef),
}

/// What the watcher does with one sentinel file.
pub struct SentinelOutcome {
    /// The verdict over the trimmed contents.
    pub verdict: SentinelVerdict,
    /// Whether the sentinel file is deleted.  Always true: processing is
    /// at-most-once, and a failed fetch is not retried.
    pub delete_sentinel: bool,
}

/// Judges one sentinel file's contents, exactly as the watcher acts on
/// them: trim, drop empties, drop foreign hosts, drop malformed paths,
/// and dispatch the rest.
///
/// The outcome orders the sentinel deleted in every case — before any
/// fetch runs, so no fetch result can keep the file alive.
pub fn process_sentinel(contents: &str) -> (r: SentinelOutcome)
    ensures
        r.delete_sentinel,
        ({
            let t = trim_spec(contents@);
            &&& (r.verdict is DiscardEmpty <==> t.len() == 0)
            &&& (r.verdict is DiscardForeign <==> t.len() > 0 && host_of(t) is None)
            &&& (r.verdict is DiscardMalformed <==> t.len() > 0 && host_of(t) is Some
                && !post_url_ok(t))
            &&& (r.verdict is Fetch <==> t.len() > 0 && post_url_ok(t))
            &&& (r.verdict matches SentinelVerdict::Fetch(p) ==> {
                &&& p.domain@ == host_of(t)->Some_0
                &&& p.service@ == path_parts(t)[0]
                &&& p.user_id@ == path_parts(t)[2]
                &&& p.post_id@ == path_parts(t)[4]
            })
        }),
{
    let raw = chars_vec(contents);
    let trimmed = trim_chars(&raw);
    if trimmed.len() == 0 {
        return SentinelOutcome { verdict: SentinelVerdict::DiscardEmpty, delete_sentinel: true };
    }
    let url = chars_to_string(&trimmed);
    match parse_post_url(url.as_str()) {
        Ok(p) => SentinelOutcome { verdict: SentinelVerdict::Fetch(p), delete_sentinel: true },
        Err(e) => {
            if matches!(e, crate::urls::UrlError::UnknownHost) {
                SentinelOutcome { verdict: SentinelVerdict::DiscardForeign, delete_sentinel: true }
            } else {
                SentinelOutcome {
                    verdict: SentinelVerdict::DiscardMalformed,
                    delete_sentinel: true,
                }
            }
        },
    }
}

/// Whatever verdict a sentinel received, and whatever a dispatched fetch
/// later returns, the file does not survive its processing.
pub proof fn lemma_sentinel_never_survives(r: SentinelOutcome)
    requires
        exists|contents: &str| call_ensures(process_sentinel, (contents,), r),
    ensures
        r.delete_sentinel,
{
}

} // verus!
