//! Character-level utilities shared by the pipeline: conversions between
//! `&str` and `Vec<char>`, whitespace classification, trimming, and
//! decimal formatting of counters for file names and caption labels.

use vstd::prelude::*;

use unicode_segmentation::UnicodeSegmentation;

verus! {

/// The Unicode `White_Space` code points, the set that `char::is_whitespace`
/// recognises.
pub open spec fn is_ws_char(c: char) -> bool {
    ||| c == '\u{9}'
    ||| c == '\u{a}'
    ||| c == '\u{b}'
    ||| c == '\u{c}'
    ||| c == '\u{d}'
    ||| c == ' '
    ||| c == '\u{85}'
    ||| c == '\u{a0}'
    ||| c == '\u{1680}'
    ||| c == '\u{2000}'
    ||| c == '\u{2001}'
    ||| c == '\u{2002}'
    ||| c == '\u{2003}'
    ||| c == '\u{2004}'
    ||| c == '\u{2005}'
    ||| c == '\u{2006}'
    ||| c == '\u{2007}'
    ||| c == '\u{2008}'
    ||| c == '\u{2009}'
    ||| c == '\u{200a}'
    ||| c == '\u{2028}'
    ||| c == '\u{2029}'
    ||| c == '\u{202f}'
    ||| c == '\u{205f}'
    ||| c == '\u{3000}'
}

/// Executable check for [`is_ws_char`].
pub fn is_whitespace_char(c: char) -> (r: bool)
    ensures
        r == is_ws_char(c),
{
    c == '\u{9}' || c == '\u{a}' || c == '\u{b}' || c == '\u{c}' || c == '\u{d}' || c == ' '
        || c == '\u{85}' || c == '\u{a0}' || c == '\u{1680}' || c == '\u{2000}' || c == '\u{2001}'
        || c == '\u{2002}' || c == '\u{2003}' || c == '\u{2004}' || c == '\u{2005}'
        || c == '\u{2006}' || c == '\u{2007}' || c == '\u{2008}' || c == '\u{2009}'
        || c == '\u{200a}' || c == '\u{2028}' || c == '\u{2029}' || c == '\u{202f}'
        || c == '\u{205f}' || c == '\u{3000}'
}

/// Collects the characters of a string slice into a vector.
pub fn chars_vec(s: &str) -> (r: Vec<char>)
    ensures
        r@ == s@,
{
    let mut r: Vec<char> = Vec::new();
    for c in it: s.chars()
        invariant
            it.seq() == s@,
            r.len() == it.index(),
            forall|j: int| 0 <= j < r.len() ==> r@[j] == it.seq()[j],
    {
        r.push(c);
    }
    assert(r@ =~= s@);
    r
}

/// Relies on `core::iter::Iterator::collect` through `FromIterator<char>`
/// for `String`: collecting characters concatenates exactly those
/// characters, in order, into the new string.
#[verifier::external_body]
pub fn chars_to_string(v: &Vec<char>) -> (r: String)
    ensures
        r@ == v@,
{
    v.iter().collect()
}

/// The index of the first character of `s` that fails `is_ws_char`, or
/// `s.len()` if every character is whitespace.
pub open spec fn first_non_ws(s: Seq<char>) -> int
    decreases s.len(),
{
    if s.len() == 0 {
        0
    } else if is_ws_char(s[0]) {
        1 + first_non_ws(s.skip(1))
    } else {
        0
    }
}

/// The whitespace-trimmed form of `s`: the characters between the first
/// and the last character that are not whitespace.
pub open spec fn trim_spec(s: Seq<char>) -> Seq<char> {
    let lo = first_non_ws(s);
    let hi = s.len() - first_non_ws(s.reverse());
    if lo < hi {
        s.subrange(lo, hi)
    } else {
        Seq::empty()
    }
}

/// Removes leading and trailing whitespace characters.
pub fn trim_chars(s: &Vec<char>) -> (r: Vec<char>)
    ensures
        r@ == trim_spec(s@),
{
    let n = s.len();
    proof {
        lemma_first_non_ws_nonneg(s@);
        lemma_first_non_ws_nonneg(s@.reverse());
    }
    let mut lo: usize = 0;
    while lo < n && is_whitespace_char(s[lo])
        invariant
            lo <= n,
            n == s@.len(),
            forall|i: int| 0 <= i < lo ==> is_ws_char(s@[i]),
            first_non_ws(s@) >= lo,
        decreases n - lo,
    {
        proof {
            lemma_first_non_ws_step(s@, lo as int);
        }
        lo = lo + 1;
    }
    proof {
        lemma_first_non_ws_bound(s@);
        if lo < n {
            lemma_first_non_ws_stop(s@, lo as int);
        } else {
            lemma_first_non_ws_all(s@, lo as int);
        }
    }
    let mut hi: usize = n;
    while hi > lo && is_whitespace_char(s[hi - 1])
        invariant
            lo <= hi <= n,
            n == s@.len(),
            lo == first_non_ws(s@),
            forall|i: int| hi <= i < n ==> is_ws_char(s@[i]),
            first_non_ws(s@.reverse()) >= n - hi,
        decreases hi,
    {
        proof {
            assert forall|i: int| 0 <= i < n - hi implies is_ws_char(s@.reverse()[i]) by {
                assert(s@.reverse()[i] == s@[n - 1 - i]);
            }
            assert(s@.reverse()[n - hi as int] == s@[hi - 1]);
            lemma_first_non_ws_step(s@.reverse(), (n - hi) as int);
        }
        hi = hi - 1;
    }
    proof {
        lemma_first_non_ws_bound(s@.reverse());
        if hi > lo {
            assert forall|i: int| 0 <= i < n - hi implies is_ws_char(s@.reverse()[i]) by {
                assert(s@.reverse()[i] == s@[n - 1 - i]);
            }
            assert(s@.reverse()[n - hi as int] == s@[hi - 1]);
            lemma_first_non_ws_stop(s@.reverse(), (n - hi) as int);
        }
    }
    let mut r: Vec<char> = Vec::new();
    let mut i: usize = lo;
    while i < hi
        invariant
            lo <= i <= hi <= n,
            n == s@.len(),
            r@ =~= s@.subrange(lo as int, i as int),
        decreases hi - i,
    {
        r.push(s[i]);
        i = i + 1;
    }
    proof {
        assert(r@ =~= trim_spec(s@));
    }
    r
}

proof fn lemma_first_non_ws_step(s: Seq<char>, k: int)
    requires
        0 <= k < s.len(),
        forall|i: int| 0 <= i < k ==> is_ws_char(s[i]),
        is_ws_char(s[k]),
    ensures
        first_non_ws(s) >= k + 1,
    decreases k,
{
    if k == 0 {
        assert(first_non_ws(s) == 1 + first_non_ws(s.skip(1)));
        lemma_first_non_ws_nonneg(s.skip(1));
    } else {
        assert(is_ws_char(s[0]));
        assert(first_non_ws(s) == 1 + first_non_ws(s.skip(1)));
        assert(forall|i: int| 0 <= i < k - 1 ==> s.skip(1)[i] == s[i + 1]);
        lemma_first_non_ws_step(s.skip(1), k - 1);
    }
}

proof fn lemma_first_non_ws_nonneg(s: Seq<char>)
    ensures
        first_non_ws(s) >= 0,
    decreases s.len(),
{
    if s.len() > 0 && is_ws_char(s[0]) {
        lemma_first_non_ws_nonneg(s.skip(1));
    }
}

proof fn lemma_first_non_ws_bound(s: Seq<char>)
    ensures
        0 <= first_non_ws(s) <= s.len(),
    decreases s.len(),
{
    if s.len() > 0 && is_ws_char(s[0]) {
        lemma_first_non_ws_bound(s.skip(1));
    }
}

proof fn lemma_first_non_ws_stop(s: Seq<char>, k: int)
    requires
        0 <= k < s.len(),
        forall|i: int| 0 <= i < k ==> is_ws_char(s[i]),
        !is_ws_char(s[k]),
    ensures
        first_non_ws(s) == k,
    decreases k,
{
    if k == 0 {
    } else {
        assert(first_non_ws(s) == 1 + first_non_ws(s.skip(1)));
        assert(forall|i: int| 0 <= i < k - 1 ==> s.skip(1)[i] == s[i + 1]);
        assert(s.skip(1)[k - 1] == s[k]);
        lemma_first_non_ws_stop(s.skip(1), k - 1);
    }
}

proof fn lemma_first_non_ws_all(s: Seq<char>, k: int)
    requires
        k == s.len(),
        forall|i: int| 0 <= i < k ==> is_ws_char(s[i]),
    ensures
        first_non_ws(s) == k,
    decreases k,
{
    if k == 0 {
    } else {
        assert(first_non_ws(s) == 1 + first_non_ws(s.skip(1)));
        assert(forall|i: int| 0 <= i < k - 1 ==> s.skip(1)[i] == s[i + 1]);
        lemma_first_non_ws_all(s.skip(1), k - 1);
    }
}

/// Appends the characters of `src` to `dst`.
pub fn extend_chars(dst: &mut Vec<char>, src: &Vec<char>)
    ensures
        final(dst)@ == old(dst)@ + src@,
{
    let mut i: usize = 0;
    while i < src.len()
        invariant
            i <= src@.len(),
            dst@ =~= old(dst)@ + src@.take(i as int),
        decreases src.len() - i,
    {
        dst.push(src[i]);
        i = i + 1;
    }
    proof {
        assert(dst@ =~= old(dst)@ + src@);
    }
}

/// The character for a single decimal digit.
pub open spec fn digit_char(d: nat) -> char {
    if d == 0 {
        '0'
    } else if d == 1 {
        '1'
    } else if d == 2 {
        '2'
    } else if d == 3 {
        '3'
    } else if d == 4 {
        '4'
    } else if d == 5 {
        '5'
    } else if d == 6 {
        '6'
    } else if d == 7 {
        '7'
    } else if d == 8 {
        '8'
    } else {
        '9'
    }
}

/// The decimal digit characters of `n`, most significant first, with no
/// leading zeros (a single `'0'` for zero).
pub open spec fn dec_digits(n: nat) -> Seq<char>
    decreases n,
{
    if n < 10 {
        seq![digit_char(n)]
    } else {
        dec_digits(n / 10).push(digit_char(n % 10))
    }
}

/// `dec_digits(n)` left-padded with `fill` to at least `width` characters.
pub open spec fn padded_dec(n: nat, width: nat, fill: char) -> Seq<char> {
    let d = dec_digits(n);
    if d.len() >= width {
        d
    } else {
        Seq::new((width - d.len()) as nat, |i: int| fill) + d
    }
}

fn digit_char_exec(d: u64) -> (r: char)
    requires
        d < 10,
    ensures
        r == digit_char(d as nat),
{
    if d == 0 {
        '0'
    } else if d == 1 {
        '1'
    } else if d == 2 {
        '2'
    } else if d == 3 {
        '3'
    } else if d == 4 {
        '4'
    } else if d == 5 {
        '5'
    } else if d == 6 {
        '6'
    } else if d == 7 {
        '7'
    } else if d == 8 {
        '8'
    } else {
        '9'
    }
}

/// Writes `n` in decimal, most significant digit first.
pub fn dec_chars(n: u64) -> (r: Vec<char>)
    ensures
        r@ == dec_digits(n as nat),
    decreases n,
{
    if n < 10 {
        let mut r: Vec<char> = Vec::new();
        r.push(digit_char_exec(n));
        assert(r@ =~= dec_digits(n as nat));
        r
    } else {
        let mut r = dec_chars(n / 10);
        r.push(digit_char_exec(n % 10));
        assert(r@ =~= dec_digits(n as nat));
        r
    }
}

/// Writes `n` in decimal, left-padded with `fill` to at least `width`
/// characters, as `{:0>width}` and `{:width}` format specifiers do.
pub fn padded_dec_chars(n: u64, width: usize, fill: char) -> (r: Vec<char>)
    ensures
        r@ == padded_dec(n as nat, width as nat, fill),
{
    let d = dec_chars(n);
    if d.len() >= width {
        d
    } else {
        let mut r: Vec<char> = Vec::new();
        let pad = width - d.len();
        let mut i: usize = 0;
        while i < pad
            invariant
                i <= pad,
                r@ =~= Seq::new(i as nat, |j: int| fill),
            decreases pad - i,
        {
            r.push(fill);
            i = i + 1;
        }
        let mut j: usize = 0;
        while j < d.len()
            invariant
                j <= d@.len(),
                pad == width - d@.len(),
                r@ =~= Seq::new(pad as nat, |k: int| fill) + d@.take(j as int),
            decreases d.len() - j,
        {
            r.push(d[j]);
            j = j + 1;
        }
        assert(r@ =~= padded_dec(n as nat, width as nat, fill));
        r
    }
}

/// Removes leading and trailing whitespace from a string, as the title
/// sidecar is trimmed before it joins the caption.
pub fn trim_text(s: &str) -> (r: String)
    ensures
        r@ == trim_spec(s@),
{
    let v = chars_vec(s);
    let t = trim_chars(&v);
    chars_to_string(&t)
}

/// The number of extended grapheme clusters in `s`: what a reader
/// perceives as one symbol.
pub uninterp spec fn grapheme_count(s: Seq<char>) -> nat;

/// Relies on unicode_segmentation's `UnicodeSegmentation::graphemes`:
/// the grapheme clusters of a string depend on its characters alone.
/// Clusters are non-empty and together cover the whole string, so the
/// count is zero exactly on the empty string and never exceeds the
/// number of characters.
#[verifier::external_body]
fn grapheme_clusters(s: &str) -> (r: usize)
    ensures
        r as nat == grapheme_count(s@),
        r == 0 <==> s@.len() == 0,
        r as nat <= s@.len(),
{
    s.graphemes(true).count()
}

/// The number of symbols a reader perceives in `s`: its extended
/// grapheme clusters.  A non-empty string has at least one, and never
/// more than its character count.
pub fn count_symbols(s: &str) -> (r: usize)
    ensures
        r as nat == grapheme_count(s@),
        r == 0 <==> s@.len() == 0,
        r as nat <= s@.len(),
{
    grapheme_clusters(s)
}

} // verus!
