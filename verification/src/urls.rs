//! External post references: parsing a remote post page URL into its
//! `{domain, service, user, post}` parts, and building the request URLs
//! that the content fetcher and the harvester use.

use vstd::prelude::*;
use vstd::string::StringExecFns;

use crate::text::chars_to_string;
use crate::text::chars_vec;

verus! {

/// The index of the first occurrence of `c` in `s`, or `s.len()` if `c`
/// does not occur.
pub open spec fn idx_of(s: Seq<char>, c: char) -> nat
    decreases s.len(),
{
    if s.len() == 0 {
        0
    } else if s[0] == c {
        0
    } else {
        1 + idx_of(s.skip(1), c)
    }
}

pub proof fn lemma_idx_of_bound(s: Seq<char>, c: char)
    ensures
        0 <= idx_of(s, c) <= s.len(),
    decreases s.len(),
{
    if s.len() > 0 && s[0] != c {
        lemma_idx_of_bound(s.skip(1), c);
    }
}

/// `idx_of` is determined by its characterisation: everything before the
/// index differs from `c`, and the index itself (if inside) holds `c`.
pub proof fn lemma_idx_of_is(s: Seq<char>, c: char, k: int)
    requires
        0 <= k <= s.len(),
        forall|i: int| 0 <= i < k ==> s[i] != c,
        k < s.len() ==> s[k] == c,
    ensures
        idx_of(s, c) == k,
    decreases k,
{
    if s.len() == 0 {
    } else if k == 0 {
    } else {
        assert(forall|i: int| 0 <= i < k - 1 ==> s.skip(1)[i] == s[i + 1]);
        assert(k - 1 < s.skip(1).len() ==> s.skip(1)[k - 1] == s[k]);
        lemma_idx_of_is(s.skip(1), c, k - 1);
    }
}

/// `s` split on `c`, exactly as `str::split` does: adjacent separators and
/// separators at the ends produce empty parts.
pub open spec fn split_on(s: Seq<char>, c: char) -> Seq<Seq<char>>
    decreases s.len(),
    via split_on_decreases
{
    let i = idx_of(s, c);
    if i == s.len() {
        seq![s]
    } else {
        seq![s.take(i as int)] + split_on(s.skip(i + 1 as int), c)
    }
}

#[via_fn]
proof fn split_on_decreases(s: Seq<char>, c: char) {
    lemma_idx_of_bound(s, c);
}

/// Splits a character vector on a separator character.
pub fn split_chars(s: &Vec<char>, sep: char) -> (r: Vec<Vec<char>>)
    ensures
        r.deep_view() == split_on(s@, sep),
{
    let n = s.len();
    let mut r: Vec<Vec<char>> = Vec::new();
    let mut cur: Vec<char> = Vec::new();
    let mut start: usize = 0;
    let mut i: usize = 0;
    proof {
        assert(s@.skip(0) =~= s@);
    }
    while i < n
        invariant
            start <= i <= n,
            n == s@.len(),
            cur@ =~= s@.subrange(start as int, i as int),
            forall|j: int| start <= j < i ==> s@[j] != sep,
            split_on(s@, sep) =~~= r.deep_view() + split_on(s@.skip(start as int), sep),
        decreases n - i,
    {
        let ch = s[i];
        if ch == sep {
            proof {
                let rest = s@.skip(start as int);
                assert(forall|j: int| 0 <= j < i - start ==> rest[j] == s@[start + j]);
                assert(rest[i - start as int] == s@[i as int]);
                lemma_idx_of_is(rest, sep, i - start as int);
                assert(rest.take(i - start as int) =~= cur@);
                assert(rest.skip(i - start as int + 1) =~= s@.skip(i + 1));
                assert(split_on(rest, sep) =~= seq![cur@] + split_on(s@.skip(i + 1), sep));
            }
            r.push(cur);
            cur = Vec::new();
            start = i + 1;
            proof {
                assert(split_on(s@, sep) =~~= r.deep_view() + split_on(
                    s@.skip(start as int),
                    sep,
                ));
            }
        } else {
            cur.push(ch);
            proof {
                assert(cur@ =~= s@.subrange(start as int, i + 1));
            }
        }
        i = i + 1;
    }
    proof {
        let rest = s@.skip(start as int);
        assert(forall|j: int| 0 <= j < rest.len() ==> rest[j] == s@[start + j]);
        lemma_idx_of_is(rest, sep, rest.len() as int);
        assert(rest =~= cur@);
        assert(split_on(rest, sep) =~= seq![cur@]);
    }
    r.push(cur);
    proof {
        assert(r.deep_view() =~~= split_on(s@, sep));
    }
    r
}

/// The number of consecutive occurrences of `c` at the start of `s`.
pub open spec fn leading_run(s: Seq<char>, c: char) -> nat
    decreases s.len(),
{
    if s.len() == 0 {
        0
    } else if s[0] == c {
        1 + leading_run(s.skip(1), c)
    } else {
        0
    }
}

pub proof fn lemma_leading_run_is(s: Seq<char>, c: char, k: int)
    requires
        0 <= k <= s.len(),
        forall|i: int| 0 <= i < k ==> s[i] == c,
        k < s.len() ==> s[k] != c,
    ensures
        leading_run(s, c) == k,
    decreases k,
{
    if s.len() == 0 {
    } else if k == 0 {
    } else {
        assert(forall|i: int| 0 <= i < k - 1 ==> s.skip(1)[i] == s[i + 1]);
        assert(k - 1 < s.skip(1).len() ==> s.skip(1)[k - 1] == s[k]);
        lemma_leading_run_is(s.skip(1), c, k - 1);
    }
}

/// `s` with every trailing occurrence of `c` removed, as
/// `str::trim_end_matches` does for a single-character pattern.
pub open spec fn trim_end_on(s: Seq<char>, c: char) -> Seq<char> {
    s.take(s.len() - leading_run(s.reverse(), c))
}

/// Removes trailing occurrences of `sep`.
pub fn trim_end_chars(s: &Vec<char>, sep: char) -> (r: Vec<char>)
    ensures
        r@ == trim_end_on(s@, sep),
{
    let n = s.len();
    let mut hi: usize = n;
    while hi > 0 && s[hi - 1] == sep
        invariant
            hi <= n,
            n == s@.len(),
            forall|i: int| hi <= i < n ==> s@[i] == sep,
        decreases hi,
    {
        hi = hi - 1;
    }
    proof {
        assert forall|i: int| 0 <= i < n - hi implies s@.reverse()[i] == sep by {
            assert(s@.reverse()[i] == s@[n - 1 - i]);
        }
        if hi > 0 {
            assert(s@.reverse()[n - hi as int] == s@[hi - 1]);
        }
        lemma_leading_run_is(s@.reverse(), sep, n - hi as int);
    }
    let mut r: Vec<char> = Vec::new();
    let mut i: usize = 0;
    while i < hi
        invariant
            i <= hi <= n,
            n == s@.len(),
            r@ =~= s@.take(i as int),
        decreases hi - i,
    {
        r.push(s[i]);
        i = i + 1;
    }
    proof {
        assert(r@ =~= trim_end_on(s@, sep));
    }
    r
}

/// True when `p` is a prefix of `s`.
pub open spec fn has_prefix(s: Seq<char>, p: Seq<char>) -> bool {
    s.len() >= p.len() && s.take(p.len() as int) == p
}

/// Prefix test on character vectors.
pub fn starts_with_chars(s: &Vec<char>, p: &Vec<char>) -> (r: bool)
    ensures
        r == has_prefix(s@, p@),
{
    if s.len() < p.len() {
        proof {
            assert(!has_prefix(s@, p@));
        }
        return false;
    }
    let mut i: usize = 0;
    while i < p.len()
        invariant
            i <= p@.len() <= s@.len(),
            forall|j: int| 0 <= j < i ==> s@[j] == p@[j],
        decreases p.len() - i,
    {
        if s[i] != p[i] {
            proof {
                assert(s@.take(p@.len() as int)[i as int] != p@[i as int]);
            }
            return false;
        }
        i = i + 1;
    }
    proof {
        assert(s@.take(p@.len() as int) =~= p@);
    }
    true
}

/// Copies the characters of `s` from position `k` on.
pub fn slice_from(s: &Vec<char>, k: usize) -> (r: Vec<char>)
    requires
        k <= s@.len(),
    ensures
        r@ == s@.skip(k as int),
{
    let mut r: Vec<char> = Vec::new();
    let mut i: usize = k;
    while i < s.len()
        invariant
            k <= i <= s@.len(),
            r@ =~= s@.subrange(k as int, i as int),
        decreases s.len() - i,
    {
        r.push(s[i]);
        i = i + 1;
    }
    proof {
        assert(r@ =~= s@.skip(k as int));
    }
    r
}

/// Character-for-character equality of two vectors.
pub fn eq_chars(a: &Vec<char>, b: &Vec<char>) -> (r: bool)
    ensures
        r == (a@ == b@),
{
    if a.len() != b.len() {
        proof {
            assert(a@ != b@);
        }
        return false;
    }
    let mut i: usize = 0;
    while i < a.len()
        invariant
            i <= a@.len(),
            a@.len() == b@.len(),
            forall|j: int| 0 <= j < i ==> a@[j] == b@[j],
        decreases a.len() - i,
    {
        if a[i] != b[i] {
            return false;
        }
        i = i + 1;
    }
    proof {
        assert(a@ =~= b@);
    }
    true
}


/// The URL scheme every accepted post page URL starts with.
pub open spec fn scheme_chars() -> Seq<char> {
    "https://"@
}

/// The first accepted remote host.
pub open spec fn kemono_host() -> Seq<char> {
    "kemono.cr"@
}

/// The second accepted remote host.
pub open spec fn coomer_host() -> Seq<char> {
    "coomer.st"@
}

/// The host a post page URL addresses, if it is one of the two accepted
/// hosts (matched as `https://{host}/` prefixes).
pub open spec fn host_of(u: Seq<char>) -> Option<Seq<char>> {
    if has_prefix(u, scheme_chars() + kemono_host() + seq!['/']) {
        Some(kemono_host())
    } else if has_prefix(u, scheme_chars() + coomer_host() + seq!['/']) {
        Some(coomer_host())
    } else {
        None
    }
}

/// The path of a host-accepted URL, with trailing slashes removed, split
/// on `/`.
pub open spec fn path_parts(u: Seq<char>) -> Seq<Seq<char>> {
    split_on(trim_end_on(u.skip(host_prefix_len(u)), '/'), '/')
}

/// The length of the `https://{host}/` prefix of a host-accepted URL.
pub open spec fn host_prefix_len(u: Seq<char>) -> int {
    scheme_chars().len() + host_of(u)->Some_0.len() + 1 as int
}

/// A post page URL parses when its host is accepted and its path has
/// exactly the shape `{service}/user/{user_id}/post/{post_id}`.
pub open spec fn post_url_ok(u: Seq<char>) -> bool {
    &&& host_of(u) is Some
    &&& path_parts(u).len() == 5
    &&& path_parts(u)[1] == "user"@
    &&& path_parts(u)[3] == "post"@
}

/// A validated reference to one post of one author on a remote content
/// site.
#[derive(Debug)]
pub struct ExternalPostRef {
    /// The remote host, one of the accepted domains.
    pub domain: String,
    /// The paid-content service the author publishes on.
    pub service: String,
    /// The author's identifier on that service.
    pub user_id: String,
    /// The post's identifier.
    pub post_id: String,
}

/// Why a candidate URL was rejected.
#[derive(Clone, Copy, Debug, PartialEq, Eq, Structural)]
pub enum UrlError {
    /// The URL does not address one of the accepted hosts.
    UnknownHost,
    /// The path is not `{service}/user/{user_id}/post/{post_id}`.
    BadShape,
}

impl UrlError {
    /// A short description of the rejection.
    pub fn message(&self) -> (r: String)
        ensures
            *self is UnknownHost ==> r@ == "Invalid URL format. Must be kemono.cr or coomer.st"@,
            *self is BadShape ==> r@ == "Invalid URL format."@,
    {
        match self {
            UrlError::UnknownHost => String::from_str("Invalid URL format. Must be kemono.cr or coomer.st"),
            UrlError::BadShape => String::from_str("Invalid URL format."),
        }
    }
}

/// Parses a post page URL into its `{domain, service, user, post}` parts.
///
/// Accepts exactly the URLs of [`post_url_ok`]; the two rejections tell an
/// unaccepted host apart from a malformed path.
pub fn parse_post_url(url: &str) -> (r: Result<ExternalPostRef, UrlError>)
    ensures
        r is Ok <==> post_url_ok(url@),
        r matches Ok(p) ==> {
            &&& p.domain@ == host_of(url@)->Some_0
            &&& p.service@ == path_parts(url@)[0]
            &&& p.user_id@ == path_parts(url@)[2]
            &&& p.post_id@ == path_parts(url@)[4]
        },
        r matches Err(e) ==> (e == UrlError::UnknownHost <==> host_of(url@) is None),
{
    let u = chars_vec(url);
    let kem = chars_vec("https://kemono.cr/");
    let coo = chars_vec("https://coomer.st/");
    proof {
        reveal_strlit("https://kemono.cr/");
        reveal_strlit("https://coomer.st/");
        reveal_strlit("https://");
        reveal_strlit("kemono.cr");
        reveal_strlit("coomer.st");
        assert("https://kemono.cr/"@ =~= scheme_chars() + kemono_host() + seq!['/']);
        assert("https://coomer.st/"@ =~= scheme_chars() + coomer_host() + seq!['/']);
    }
    let domain: &str;
    let plen: usize;
    if starts_with_chars(&u, &kem) {
        domain = "kemono.cr";
        plen = kem.len();
        proof {
            assert(host_of(url@) == Some(kemono_host()));
            assert(domain@ == kemono_host());
        }
    } else if starts_with_chars(&u, &coo) {
        domain = "coomer.st";
        plen = coo.len();
        proof {
            assert(host_of(url@) == Some(coomer_host()));
            assert(domain@ == coomer_host());
        }
    } else {
        proof {
            assert(host_of(url@) is None);
        }
        return Err(UrlError::UnknownHost);
    }
    let rest = slice_from(&u, plen);
    let trimmed = trim_end_chars(&rest, '/');
    let parts = split_chars(&trimmed, '/');
    proof {
        assert(plen as int == scheme_chars().len() + host_of(url@)->Some_0.len() + 1);
        assert(parts.deep_view() == path_parts(url@));
    }
    if parts.len() != 5 {
        return Err(UrlError::BadShape);
    }
    let user_lit = chars_vec("user");
    let post_lit = chars_vec("post");
    proof {
        assert(parts@[1]@ == path_parts(url@)[1]);
        assert(parts@[3]@ == path_parts(url@)[3]);
    }
    if !eq_chars(&parts[1], &user_lit) {
        return Err(UrlError::BadShape);
    }
    if !eq_chars(&parts[3], &post_lit) {
        return Err(UrlError::BadShape);
    }
    proof {
        assert(parts@[0]@ == path_parts(url@)[0]);
        assert(parts@[2]@ == path_parts(url@)[2]);
        assert(parts@[4]@ == path_parts(url@)[4]);
    }
    Ok(
        ExternalPostRef {
            domain: domain.to_owned(),
            service: chars_to_string(&parts[0]),
            user_id: chars_to_string(&parts[2]),
            post_id: chars_to_string(&parts[4]),
        },
    )
}


/// Builds `https://{domain}/api/v1/{service}/user/{user_id}/post/{post_id}`,
/// the metadata request for one post.
pub fn api_post_url(domain: &str, service: &str, user_id: &str, post_id: &str) -> (r: String)
    ensures
        r@ == "https://"@ + domain@ + "/api/v1/"@ + service@ + "/user/"@ + user_id@ + "/post/"@
            + post_id@,
{
    let mut s = String::from_str("https://");
    s.append(domain);
    s.append("/api/v1/");
    s.append(service);
    s.append("/user/");
    s.append(user_id);
    s.append("/post/");
    s.append(post_id);
    s
}

/// Builds `https://{domain}/api/v1/{service}/user/{user_id}/profile`, the
/// author profile request.
pub fn api_profile_url(domain: &str, service: &str, user_id: &str) -> (r: String)
    ensures
        r@ == "https://"@ + domain@ + "/api/v1/"@ + service@ + "/user/"@ + user_id@ + "/profile"@,
{
    let mut s = String::from_str("https://");
    s.append(domain);
    s.append("/api/v1/");
    s.append(service);
    s.append("/user/");
    s.append(user_id);
    s.append("/profile");
    s
}

/// Builds `https://{domain}/api/v1/{service}/user/{user_id}`, the
/// recent-posts listing request the harvester polls.
pub fn api_listing_url(domain: &str, service: &str, user_id: &str) -> (r: String)
    ensures
        r@ == "https://"@ + domain@ + "/api/v1/"@ + service@ + "/user/"@ + user_id@,
{
    let mut s = String::from_str("https://");
    s.append(domain);
    s.append("/api/v1/");
    s.append(service);
    s.append("/user/");
    s.append(user_id);
    s
}

/// Builds `https://{domain}/{service}/user/{user_id}`, the author's page.
pub fn artist_page_url(domain: &str, service: &str, user_id: &str) -> (r: String)
    ensures
        r@ == "https://"@ + domain@ + "/"@ + service@ + "/user/"@ + user_id@,
{
    let mut s = String::from_str("https://");
    s.append(domain);
    s.append("/");
    s.append(service);
    s.append("/user/");
    s.append(user_id);
    s
}

/// Builds `https://{domain}/{service}/user/{user_id}/post/{post_id}`, the
/// post's page, the URL shape that [`parse_post_url`] accepts back.
pub fn post_page_url(domain: &str, service: &str, user_id: &str, post_id: &str) -> (r: String)
    ensures
        r@ == "https://"@ + domain@ + "/"@ + service@ + "/user/"@ + user_id@ + "/post/"@
            + post_id@,
{
    let mut s = String::from_str("https://");
    s.append(domain);
    s.append("/");
    s.append(service);
    s.append("/user/");
    s.append(user_id);
    s.append("/post/");
    s.append(post_id);
    s
}

/// Builds `https://{domain}/data{path}`, the address file bytes are
/// fetched from.
pub fn file_data_url(domain: &str, path: &str) -> (r: String)
    ensures
        r@ == "https://"@ + domain@ + "/data"@ + path@,
{
    let mut s = String::from_str("https://");
    s.append(domain);
    s.append("/data");
    s.append(path);
    s
}


/// `split_on` takes a slash-free head off the front.
proof fn lemma_split_head(s: Seq<char>, a: Seq<char>, rest: Seq<char>)
    requires
        s == a + seq!['/'] + rest,
        forall|i: int| 0 <= i < a.len() ==> a[i] != '/',
    ensures
        split_on(s, '/') == seq![a] + split_on(rest, '/'),
{
    assert(forall|i: int| 0 <= i < a.len() ==> s[i] == a[i]);
    assert(s[a.len() as int] == '/');
    lemma_idx_of_is(s, '/', a.len() as int);
    assert(s.take(a.len() as int) =~= a);
    assert(s.skip(a.len() + 1 as int) =~= rest);
}

/// A slash-free sequence is one whole part.
proof fn lemma_split_whole(s: Seq<char>)
    requires
        forall|i: int| 0 <= i < s.len() ==> s[i] != '/',
    ensures
        split_on(s, '/') == seq![s],
{
    lemma_idx_of_is(s, '/', s.len() as int);
}

/// The page URL the pipeline builds for a post parses straight back:
/// its host is accepted and its path has exactly the
/// `{service}/user/{user_id}/post/{post_id}` shape, with the same four
/// parts.  This is the hand-off between the harvester, which builds the
/// URL, and the fetch path, which re-validates it.
pub proof fn lemma_page_url_reparses(
    domain: Seq<char>,
    service: Seq<char>,
    user: Seq<char>,
    post: Seq<char>,
)
    requires
        domain == kemono_host() || domain == coomer_host(),
        forall|i: int| 0 <= i < service.len() ==> service[i] != '/',
        forall|i: int| 0 <= i < user.len() ==> user[i] != '/',
        forall|i: int| 0 <= i < post.len() ==> post[i] != '/',
        post.len() > 0,
    ensures
        ({
            let u = "https://"@ + domain + "/"@ + service + "/user/"@ + user + "/post/"@ + post;
            &&& post_url_ok(u)
            &&& host_of(u) == Some(domain)
            &&& path_parts(u)[0] == service
            &&& path_parts(u)[2] == user
            &&& path_parts(u)[4] == post
        }),
{
    reveal_strlit("https://");
    reveal_strlit("kemono.cr");
    reveal_strlit("coomer.st");
    reveal_strlit("/");
    reveal_strlit("/user/");
    reveal_strlit("/post/");
    reveal_strlit("user");
    reveal_strlit("post");
    assert("https://"@.len() == 8 && "kemono.cr"@.len() == 9 && "coomer.st"@.len() == 9);
    assert("/"@.len() == 1 && "/user/"@.len() == 6 && "/post/"@.len() == 6);
    assert("user"@.len() == 4 && "post"@.len() == 4);
    let u = "https://"@ + domain + "/"@ + service + "/user/"@ + user + "/post/"@ + post;
    assert(domain.len() == 9);
    if domain == kemono_host() {
        assert(u.take(18) =~= scheme_chars() + kemono_host() + seq!['/']);
        assert(has_prefix(u, scheme_chars() + kemono_host() + seq!['/']));
        assert(host_of(u) == Some(domain));
    } else {
        assert(!has_prefix(u, scheme_chars() + kemono_host() + seq!['/'])) by {
            assert(u[8] == 'c');
            assert((scheme_chars() + kemono_host() + seq!['/'])[8] == 'k');
            if has_prefix(u, scheme_chars() + kemono_host() + seq!['/']) {
                assert(u.take(18)[8] == u[8]);
            }
        }
        assert(u.take(18) =~= scheme_chars() + coomer_host() + seq!['/']);
        assert(has_prefix(u, scheme_chars() + coomer_host() + seq!['/']));
        assert(host_of(u) == Some(domain));
    }
    let path = service + seq!['/'] + ("user"@ + seq!['/'] + (user + seq!['/'] + ("post"@
        + seq!['/'] + post)));
    assert(u.skip(host_prefix_len(u)) =~= path);
    assert(path.len() > 0 && path[path.len() - 1] == post[post.len() - 1]);
    assert(path.reverse()[0] == post[post.len() - 1]);
    lemma_leading_run_is(path.reverse(), '/', 0);
    assert(trim_end_on(path, '/') =~= path);
    let r1 = "user"@ + seq!['/'] + (user + seq!['/'] + ("post"@ + seq!['/'] + post));
    let r2 = user + seq!['/'] + ("post"@ + seq!['/'] + post);
    let r3 = "post"@ + seq!['/'] + post;
    lemma_split_head(path, service, r1);
    assert(forall|i: int| 0 <= i < 4 ==> "user"@[i] != '/');
    lemma_split_head(r1, "user"@, r2);
    lemma_split_head(r2, user, r3);
    assert(forall|i: int| 0 <= i < 4 ==> "post"@[i] != '/');
    lemma_split_head(r3, "post"@, post);
    lemma_split_whole(post);
    assert(path_parts(u) =~~= seq![service, "user"@, user, "post"@, post]);
}

} // verus!
