//! Delivery chunker: classifies the files of a published job folder,
//! builds the caption from the title and fallback-link sidecars, and
//! partitions the media files into chunks bounded by an item count and a
//! cumulative byte size.

use vstd::prelude::*;
use vstd::string::StringExecFns;

use crate::text::chars_to_string;
use crate::text::chars_vec;
use crate::text::extend_chars;
use crate::text::is_whitespace_char;
use crate::text::is_ws_char;
use crate::text::padded_dec;
use crate::text::padded_dec_chars;
use crate::fetcher::allowed_ext;
use crate::fetcher::ext_of;
use crate::fetcher::lower_spec;
use crate::fetcher::split_extension;
use crate::fetcher::stem_of;

verus! {

broadcast use vstd::string::group_string_axioms;

/// Largest number of media files one delivery chunk may carry.
pub const MAX_CHUNK_FILES: usize = 10;

/// Largest cumulative byte size one delivery chunk may carry: 200 MiB.
pub const MAX_CHUNK_BYTES: u64 = 209715200;

/// The delivery collaborator's maximum message length, in characters.
pub const MAX_CAPTION_CHARS: usize = 2000;

/// How a file inside a job folder takes part in delivery.
#[derive(Clone, Copy, Debug, PartialEq, Eq, Structural)]
pub enum FolderFile {
    /// A media file: delivered in a chunk.
    Media,
    /// The `title.txt` sidecar: becomes the caption's first line.
    Title,
    /// A `*.url.json` fallback record: becomes a caption link line.
    UrlSidecar,
    /// Anything else: ignored by delivery.
    Other,
}

/// True when `p` is a suffix of `s`.
pub open spec fn has_suffix(s: Seq<char>, p: Seq<char>) -> bool {
    s.len() >= p.len() && s.skip(s.len() - p.len()) == p
}

/// Suffix test on character vectors.
pub fn ends_with_chars(s: &Vec<char>, p: &Vec<char>) -> (r: bool)
    ensures
        r == has_suffix(s@, p@),
{
    if s.len() < p.len() {
        return false;
    }
    let off = s.len() - p.len();
    let mut i: usize = off;
    while i < s.len()
        invariant
            off <= i <= s@.len(),
            p@.len() == s@.len() - off,
            forall|j: int| off <= j < i ==> s@[j] == p@[j - off],
        decreases s.len() - i,
    {
        if s[i] != p[i - off] {
            proof {
                assert(s@.skip(off as int)[i - off] != p@[i - off]);
            }
            return false;
        }
        i = i + 1;
    }
    proof {
        assert(s@.skip(off as int) =~= p@);
    }
    true
}

/// The delivery role of a file, decided by its name alone: the media
/// extension set, the exact stem `title` with extension `txt`, or the
/// `.url.json` double suffix.
pub open spec fn classify_spec(name: Seq<char>) -> FolderFile {
    if allowed_ext(ext_of(name)) {
        FolderFile::Media
    } else if ext_of(name) == "txt"@ && lower_spec(stem_of(name)) == "title"@ {
        FolderFile::Title
    } else if ext_of(name) == "json"@ && has_suffix(name, ".url.json"@) {
        FolderFile::UrlSidecar
    } else {
        FolderFile::Other
    }
}

/// Classifies one file of a job folder for delivery.
pub fn classify_file(name: &str) -> (r: FolderFile)
    ensures
        r == classify_spec(name@),
{
    let (ext, stem) = split_extension(name);
    if crate::fetcher::is_allowed_extension(&ext) {
        return FolderFile::Media;
    }
    let txt = chars_vec("txt");
    let json = chars_vec("json");
    let title = chars_vec("title");
    let url_json = chars_vec(".url.json");
    if crate::urls::eq_chars(&ext, &txt) {
        let mut low: Vec<char> = Vec::new();
        let mut i: usize = 0;
        while i < stem.len()
            invariant
                i <= stem@.len(),
                low@ =~= lower_spec(stem@).take(i as int),
            decreases stem.len() - i,
        {
            low.push(crate::fetcher::lower_char_exec(stem[i]));
            i = i + 1;
        }
        proof {
            assert(low@ =~= lower_spec(stem@));
        }
        if crate::urls::eq_chars(&low, &title) {
            return FolderFile::Title;
        }
        proof {
            reveal_strlit("txt");
            reveal_strlit("json");
            assert("txt"@.len() == 3 && "json"@.len() == 4);
            assert(ext_of(name@) != "json"@);
        }
        return FolderFile::Other;
    }
    if crate::urls::eq_chars(&ext, &json) {
        let name_chars = chars_vec(name);
        if ends_with_chars(&name_chars, &url_json) {
            return FolderFile::UrlSidecar;
        }
        proof {
            reveal_strlit("txt");
            reveal_strlit("json");
            assert("txt"@.len() == 3 && "json"@.len() == 4);
            assert(ext_of(name@) != "txt"@);
        }
        return FolderFile::Other;
    }
    FolderFile::Other
}

/// One fallback link record, read back from a `*.url.json` sidecar.
pub struct UrlEntry {
    /// The remote address the oversized file can be fetched from.
    pub url: String,
    /// A display name, when the record carries one.
    pub name: Option<String>,
}

/// The caption line for the `i`-th of `total` fallback links, numbered
/// `[ i/ total]` with each number right-aligned to two characters, then
/// either `[{name}]({url})` or the bare URL.
pub open spec fn url_line_spec(i: nat, total: nat, url: Seq<char>, name: Option<Seq<char>>) -> Seq<
    char,
> {
    "["@ + padded_dec(i, 2, ' ') + "/"@ + padded_dec(total, 2, ' ') + "] "@ + (match name {
        Some(n) => "["@ + n + "]("@ + url + ")"@,
        None => url,
    })
}

/// Builds one fallback link's caption line.
pub fn url_line(i: u64, total: u64, entry: &UrlEntry) -> (r: String)
    ensures
        r@ == url_line_spec(
            i as nat,
            total as nat,
            entry.url@,
            match entry.name {
                Some(n) => Some(n@),
                None => None,
            },
        ),
{
    let mut v = chars_vec("[");
    let num = padded_dec_chars(i, 2, ' ');
    extend_chars(&mut v, &num);
    let slash = chars_vec("/");
    extend_chars(&mut v, &slash);
    let tot = padded_dec_chars(total, 2, ' ');
    extend_chars(&mut v, &tot);
    let close = chars_vec("] ");
    extend_chars(&mut v, &close);
    let url_chars = chars_vec(entry.url.as_str());
    match &entry.name {
        Some(n) => {
            let open_b = chars_vec("[");
            extend_chars(&mut v, &open_b);
            let name_chars = chars_vec(n.as_str());
            extend_chars(&mut v, &name_chars);
            let mid = chars_vec("](");
            extend_chars(&mut v, &mid);
            extend_chars(&mut v, &url_chars);
            let close_p = chars_vec(")");
            extend_chars(&mut v, &close_p);
        },
        None => {
            extend_chars(&mut v, &url_chars);
        },
    }
    chars_to_string(&v)
}

/// `s` with every whitespace character removed; a title whose cleaned
/// form is empty contributes nothing to the caption.
pub open spec fn clean_spec(s: Seq<char>) -> Seq<char> {
    s.filter(|c: char| !is_ws_char(c))
}

/// Removes every whitespace character.
pub fn clean_text_field(text: &str) -> (r: String)
    ensures
        r@ == clean_spec(text@),
{
    broadcast use vstd::seq_lib::group_filter_ensures;

    let v = chars_vec(text);
    let mut out: Vec<char> = Vec::new();
    let mut i: usize = 0;
    while i < v.len()
        invariant
            i <= v@.len(),
            v@ == text@,
            out@ == text@.take(i as int).filter(|c: char| !is_ws_char(c)),
        decreases v.len() - i,
    {
        let c = v[i];
        proof {
            reveal(Seq::filter);
            let p = |c: char| !is_ws_char(c);
            let t = text@.take(i + 1);
            assert(t.drop_last() =~= text@.take(i as int));
            assert(t.last() == text@[i as int]);
            if p(t.last()) {
                assert(t.filter(p) == t.drop_last().filter(p).push(t.last()));
            } else {
                assert(t.filter(p) == t.drop_last().filter(p));
            }
        }
        if !is_whitespace_char(c) {
            out.push(c);
            proof {
                assert(out@ =~= text@.take(i + 1).filter(|c: char| !is_ws_char(c)));
            }
        } else {
            proof {
                assert(out@ =~= text@.take(i + 1).filter(|c: char| !is_ws_char(c)));
            }
        }
        i = i + 1;
    }
    proof {
        assert(text@.take(text@.len() as int) =~= text@);
    }
    chars_to_string(&out)
}

/// The lines of a caption joined with `'\n'`.
pub open spec fn joined_lines(lines: Seq<Seq<char>>) -> Seq<char>
    decreases lines.len(),
{
    if lines.len() == 0 {
        Seq::empty()
    } else if lines.len() == 1 {
        lines[0]
    } else {
        lines[0] + seq!['\n'] + joined_lines(lines.skip(1))
    }
}

/// The caption of a job folder before truncation: the title line (kept
/// only when its whitespace-cleaned form is non-empty), then the
/// fallback link lines joined with newlines.
pub open spec fn caption_spec(title: Option<Seq<char>>, lines: Seq<Seq<char>>) -> Seq<char> {
    (match title {
        Some(t) => if clean_spec(t).len() > 0 {
            t + seq!['\n']
        } else {
            Seq::empty()
        },
        None => Seq::empty(),
    }) + joined_lines(lines)
}

/// The caption truncated to the delivery collaborator's maximum message
/// length.
pub open spec fn message_spec(title: Option<Seq<char>>, lines: Seq<Seq<char>>) -> Seq<char> {
    let c = caption_spec(title, lines);
    if c.len() <= MAX_CAPTION_CHARS {
        c
    } else {
        c.take(MAX_CAPTION_CHARS as int)
    }
}

/// Builds the delivery caption from the title sidecar and the fallback
/// link lines, truncated to [`MAX_CAPTION_CHARS`] characters.
pub fn build_caption(title: &Option<String>, lines: &Vec<String>) -> (r: String)
    ensures
        r@ == message_spec(
            match *title {
                Some(t) => Some(t@),
                None => None,
            },
            lines.deep_view(),
        ),
{
    let mut v: Vec<char> = Vec::new();
    match title {
        Some(t) => {
            let cleaned = clean_text_field(t.as_str());
            if cleaned.as_str().unicode_len() > 0 {
                let t_chars = chars_vec(t.as_str());
                extend_chars(&mut v, &t_chars);
                v.push('\n');
            }
        },
        None => {},
    }
    let ghost head = v@;
    let newline = chars_vec("\n");
    proof {
        reveal_strlit("\n");
        assert(newline@ =~= seq!['\n']);
    }
    let mut i: usize = 0;
    while i < lines.len()
        invariant
            i <= lines@.len(),
            newline@ =~= seq!['\n'],
            v@ =~= head + joined_prefix(lines.deep_view(), i as int),
        decreases lines.len() - i,
    {
        if i > 0 {
            extend_chars(&mut v, &newline);
        }
        let line_chars = chars_vec(lines[i].as_str());
        proof {
            assert(lines.deep_view()[i as int] == lines@[i as int]@);
        }
        extend_chars(&mut v, &line_chars);
        proof {
            lemma_joined_prefix_step(lines.deep_view(), i as int);
        }
        i = i + 1;
    }
    proof {
        lemma_joined_prefix_full(lines.deep_view());
    }
    if v.len() > MAX_CAPTION_CHARS {
        let mut t: Vec<char> = Vec::new();
        let mut j: usize = 0;
        while j < MAX_CAPTION_CHARS
            invariant
                j <= MAX_CAPTION_CHARS <= v@.len(),
                t@ =~= v@.take(j as int),
            decreases MAX_CAPTION_CHARS - j,
        {
            t.push(v[j]);
            j = j + 1;
        }
        chars_to_string(&t)
    } else {
        chars_to_string(&v)
    }
}

/// The join of the first `k` lines, with the separators that
/// [`joined_lines`] would put between them.
pub open spec fn joined_prefix(lines: Seq<Seq<char>>, k: int) -> Seq<char>
    decreases k,
{
    if k <= 0 {
        Seq::empty()
    } else if k == 1 {
        lines[0]
    } else {
        joined_prefix(lines, k - 1) + seq!['\n'] + lines[k - 1]
    }
}

proof fn lemma_joined_prefix_step(lines: Seq<Seq<char>>, i: int)
    requires
        0 <= i < lines.len(),
    ensures
        i == 0 ==> joined_prefix(lines, 1) == joined_prefix(lines, 0) + lines[0],
        i > 0 ==> joined_prefix(lines, i + 1) == joined_prefix(lines, i) + seq!['\n'] + lines[i],
{
    if i == 0 {
        assert(joined_prefix(lines, 0) + lines[0] =~= lines[0]);
    }
}

/// Joining a whole prefix gives `joined_lines`.
proof fn lemma_joined_prefix_full(lines: Seq<Seq<char>>)
    ensures
        joined_prefix(lines, lines.len() as int) == joined_lines(lines),
    decreases lines.len(),
{
    lemma_joined_agree(lines, lines.len() as int);
    assert(lines.take(lines.len() as int) =~= lines);
}

proof fn lemma_joined_agree(lines: Seq<Seq<char>>, k: int)
    requires
        0 <= k <= lines.len(),
    ensures
        joined_prefix(lines, k) == joined_lines(lines.take(k)),
    decreases k,
{
    if k <= 0 {
    } else if k == 1 {
        assert(lines.take(1)[0] == lines[0]);
        assert(joined_lines(lines.take(1)) == lines[0]);
    } else {
        lemma_joined_agree(lines, k - 1);
        lemma_joined_snoc(lines.take(k));
        assert(lines.take(k).take(k - 1) =~= lines.take(k - 1));
        assert(lines.take(k)[k - 1] == lines[k - 1]);
    }
}

/// `joined_lines` of a non-singleton sequence splits at its last line.
proof fn lemma_joined_snoc(lines: Seq<Seq<char>>)
    requires
        lines.len() >= 2,
    ensures
        joined_lines(lines) == joined_lines(lines.take(lines.len() - 1)) + seq!['\n']
            + lines[lines.len() - 1],
    decreases lines.len(),
{
    if lines.len() == 2 {
        assert(lines.skip(1) =~= seq![lines[1]]);
        assert(joined_lines(lines.skip(1)) == lines[1]);
        assert(lines.take(1) =~= seq![lines[0]]);
        assert(joined_lines(lines.take(1)) == lines[0]);
    } else {
        lemma_joined_snoc(lines.skip(1));
        assert(lines.skip(1).take(lines.skip(1).len() - 1) =~= lines.take(lines.len() - 1).skip(
            1,
        ));
        assert(lines.skip(1)[lines.skip(1).len() - 1] == lines[lines.len() - 1]);
        assert(joined_lines(lines.take(lines.len() - 1)) == lines.take(lines.len() - 1)[0]
            + seq!['\n'] + joined_lines(lines.take(lines.len() - 1).skip(1)));
        assert(lines.take(lines.len() - 1)[0] == lines[0]);
    }
}


/// The sum of `sizes[lo..hi]`.
pub open spec fn range_sum(sizes: Seq<u64>, lo: int, hi: int) -> int
    decreases hi - lo,
{
    if lo >= hi {
        0
    } else {
        sizes[lo] + range_sum(sizes, lo + 1, hi)
    }
}

pub proof fn lemma_range_sum_nonneg(sizes: Seq<u64>, lo: int, hi: int)
    requires
        0 <= lo,
        hi <= sizes.len(),
    ensures
        range_sum(sizes, lo, hi) >= 0,
    decreases hi - lo,
{
    if lo < hi {
        lemma_range_sum_nonneg(sizes, lo + 1, hi);
    }
}

pub proof fn lemma_range_sum_snoc(sizes: Seq<u64>, lo: int, hi: int)
    requires
        0 <= lo <= hi < sizes.len(),
    ensures
        range_sum(sizes, lo, hi + 1) == range_sum(sizes, lo, hi) + sizes[hi],
    decreases hi - lo,
{
    if lo < hi {
        lemma_range_sum_snoc(sizes, lo + 1, hi);
        assert(range_sum(sizes, lo, hi + 1) == sizes[lo] + range_sum(sizes, lo + 1, hi + 1));
        assert(range_sum(sizes, lo, hi) == sizes[lo] + range_sum(sizes, lo + 1, hi));
    } else {
        assert(range_sum(sizes, hi + 1, hi + 1) == 0);
        assert(range_sum(sizes, hi, hi + 1) == sizes[hi] + range_sum(sizes, hi + 1, hi + 1));
    }
}

/// What a correct chunking of `sizes` looks like: the half-open index
/// ranges partition the files in order; no chunk is empty, none exceeds
/// the item cap, and none exceeds the byte cap unless it is a single
/// oversized file standing alone; and each boundary is greedy — the file
/// that starts a chunk could not have joined the one before it.
pub open spec fn chunk_plan_ok(
    sizes: Seq<u64>,
    max_items: int,
    max_bytes: int,
    chunks: Seq<(usize, usize)>,
) -> bool {
    &&& (chunks.len() == 0 <==> sizes.len() == 0)
    &&& chunks.len() > 0 ==> chunks[0].0 == 0 && chunks[chunks.len() - 1].1 == sizes.len()
    &&& forall|i: int| 0 <= i < chunks.len() ==> (#[trigger] chunks[i]).0 < chunks[i].1 <= sizes.len()
    &&& forall|i: int| 0 <= i < chunks.len() - 1 ==> (#[trigger] chunks[i]).1 == chunks[i + 1].0
    &&& forall|i: int| 0 <= i < chunks.len() ==> (#[trigger] chunks[i]).1 - chunks[i].0 <= max_items
    &&& forall|i: int|
        0 <= i < chunks.len() ==> (range_sum(sizes, (#[trigger] chunks[i]).0 as int, chunks[i].1 as int)
            <= max_bytes || chunks[i].1 - chunks[i].0 == 1)
    &&& forall|i: int|
        0 <= i < chunks.len() - 1 ==> ((#[trigger] chunks[i]).1 - chunks[i].0 == max_items
            || range_sum(sizes, chunks[i].0 as int, chunks[i].1 as int) + sizes[chunks[i].1 as int] > max_bytes)
}

/// Partitions files of the given sizes into delivery chunks: a running
/// chunk is closed exactly when the next file would push it over the
/// item cap or the byte cap.  A file larger than the byte cap stands
/// alone in its own chunk.
pub fn plan_chunks(sizes: &Vec<u64>, max_items: usize, max_bytes: u64) -> (r: Vec<(usize, usize)>)
    requires
        max_items >= 1,
    ensures
        chunk_plan_ok(sizes@, max_items as int, max_bytes as int, r@),
{
    let n = sizes.len();
    let mut chunks: Vec<(usize, usize)> = Vec::new();
    let mut start: usize = 0;
    let mut bytes: u64 = 0;
    let mut i: usize = 0;
    while i < n
        invariant
            max_items >= 1,
            start <= i <= n,
            n == sizes@.len(),
            i > 0 ==> start < i,
            bytes == range_sum(sizes@, start as int, i as int),
            i - start <= max_items,
            i - start >= 2 ==> bytes <= max_bytes,
            chunks@.len() == 0 ==> start == 0,
            chunks@.len() > 0 ==> chunks@[0].0 == 0 && chunks@[chunks@.len() - 1].1 == start,
            forall|j: int|
                0 <= j < chunks@.len() ==> (#[trigger] chunks@[j]).0 < chunks@[j].1 <= n,
            forall|j: int|
                0 <= j < chunks@.len() - 1 ==> (#[trigger] chunks@[j]).1 == chunks@[j + 1].0,
            forall|j: int|
                0 <= j < chunks@.len() ==> (#[trigger] chunks@[j]).1 - chunks@[j].0 <= max_items,
            forall|j: int|
                0 <= j < chunks@.len() ==> (range_sum(
                    sizes@,
                    (#[trigger] chunks@[j]).0 as int,
                    chunks@[j].1 as int,
                ) <= max_bytes || chunks@[j].1 - chunks@[j].0 == 1),
            forall|j: int|
                0 <= j < chunks@.len() ==> ((#[trigger] chunks@[j]).1 - chunks@[j].0 == max_items
                    || range_sum(sizes@, chunks@[j].0 as int, chunks@[j].1 as int) + sizes@[chunks@[j].1 as int]
                    > max_bytes),
        decreases n - i,
    {
        let size = sizes[i];
        proof {
            lemma_range_sum_nonneg(sizes@, start as int, i as int);
        }
        let would_exceed = (i - start) >= max_items || size > max_bytes || bytes > max_bytes
            - size;
        if would_exceed && i > start {
            chunks.push((start, i));
            start = i;
            bytes = 0;
        }
        proof {
            lemma_range_sum_snoc(sizes@, start as int, i as int);
        }
        bytes = bytes + size;
        i = i + 1;
    }
    if i > start {
        chunks.push((start, i));
    }
    chunks
}

/// The number of files over all chunks.
pub open spec fn chunks_file_count(chunks: Seq<(usize, usize)>) -> int
    decreases chunks.len(),
{
    if chunks.len() == 0 {
        0
    } else {
        (chunks[0].1 - chunks[0].0) + chunks_file_count(chunks.skip(1))
    }
}

proof fn lemma_contig_count(chunks: Seq<(usize, usize)>, a: int, b: int)
    requires
        chunks.len() > 0,
        chunks[0].0 == a,
        chunks[chunks.len() - 1].1 == b,
        forall|i: int| 0 <= i < chunks.len() ==> (#[trigger] chunks[i]).0 <= chunks[i].1,
        forall|i: int| 0 <= i < chunks.len() - 1 ==> (#[trigger] chunks[i]).1 == chunks[i + 1].0,
    ensures
        chunks_file_count(chunks) == b - a,
    decreases chunks.len(),
{
    if chunks.len() == 1 {
        assert(chunks_file_count(chunks.skip(1)) == 0);
        assert(chunks_file_count(chunks) == (chunks[0].1 - chunks[0].0) + chunks_file_count(
            chunks.skip(1),
        ));
    } else {
        let rest = chunks.skip(1);
        assert(forall|i: int| 0 <= i < rest.len() ==> rest[i] == chunks[i + 1]);
        assert(rest[rest.len() - 1].1 == b);
        assert(forall|i: int| 0 <= i < rest.len() - 1 ==> (#[trigger] rest[i]).1 == rest[i + 1].0);
        lemma_contig_count(rest, chunks[1].0 as int, b);
        assert(chunks[0].1 == chunks[1].0);
        assert(chunks_file_count(chunks) == (chunks[0].1 - chunks[0].0) + chunks_file_count(rest));
    }
}

/// No file is lost and none is duplicated: the chunk ranges of a correct
/// plan carry exactly as many files as the folder holds.
pub proof fn lemma_chunks_cover_every_file(
    sizes: Seq<u64>,
    max_items: int,
    max_bytes: int,
    chunks: Seq<(usize, usize)>,
)
    requires
        chunk_plan_ok(sizes, max_items, max_bytes, chunks),
    ensures
        chunks_file_count(chunks) == sizes.len(),
{
    if chunks.len() == 0 {
    } else {
        lemma_contig_count(chunks, 0, sizes.len() as int);
    }
}

/// One job folder's delivery plan.
pub struct DeliveryPlan {
    /// The chunk index ranges over the sorted media file list.
    pub chunks: Vec<(usize, usize)>,
    /// Which chunk carries the caption: always the first, and only when
    /// there is a caption and at least one chunk.
    pub caption_chunk: Option<usize>,
    /// Whether a single text-only message is sent instead of any chunk.
    pub text_only: bool,
}

/// Plans the delivery of one job folder from its media file sizes (in
/// sorted name order) and whether a non-empty caption exists.
///
/// A folder with no media but a caption sends exactly one text-only
/// message and no chunks; otherwise the caption rides on the first chunk
/// only.
pub fn plan_delivery(media_sizes: &Vec<u64>, has_caption: bool) -> (r: DeliveryPlan)
    ensures
        chunk_plan_ok(media_sizes@, MAX_CHUNK_FILES as int, MAX_CHUNK_BYTES as int, r.chunks@),
        r.text_only <==> (media_sizes@.len() == 0 && has_caption),
        r.caption_chunk == if has_caption && media_sizes@.len() > 0 {
            Some(0usize)
        } else {
            None::<usize>
        },
{
    let chunks = plan_chunks(media_sizes, MAX_CHUNK_FILES, MAX_CHUNK_BYTES);
    let text_only = media_sizes.len() == 0 && has_caption;
    let caption_chunk: Option<usize> = if has_caption && media_sizes.len() > 0 {
        Some(0)
    } else {
        None
    };
    DeliveryPlan { chunks, caption_chunk, text_only }
}


/// Lexicographic order on character sequences by code point: the order
/// the job folders' file names are delivered in (for UTF-8 text it
/// agrees with the byte-wise order a directory listing sorts by).
pub open spec fn lex_le(a: Seq<char>, b: Seq<char>) -> bool
    decreases a.len(),
{
    if a.len() == 0 {
        true
    } else if b.len() == 0 {
        false
    } else if (a[0] as u32) == (b[0] as u32) {
        lex_le(a.skip(1), b.skip(1))
    } else {
        (a[0] as u32) < (b[0] as u32)
    }
}

/// Any two sequences compare one way or the other.
pub proof fn lemma_lex_total(a: Seq<char>, b: Seq<char>)
    ensures
        lex_le(a, b) || lex_le(b, a),
    decreases a.len(),
{
    if a.len() > 0 && b.len() > 0 && (a[0] as u32) == (b[0] as u32) {
        lemma_lex_total(a.skip(1), b.skip(1));
    }
}

/// The order chains.
pub proof fn lemma_lex_trans(a: Seq<char>, b: Seq<char>, c: Seq<char>)
    requires
        lex_le(a, b),
        lex_le(b, c),
    ensures
        lex_le(a, c),
    decreases a.len(),
{
    if a.len() > 0 {
        if (a[0] as u32) == (b[0] as u32) && (b[0] as u32) == (c[0] as u32) {
            lemma_lex_trans(a.skip(1), b.skip(1), c.skip(1));
        }
    }
}

/// Character-wise comparison deciding [`lex_le`].
fn lex_le_chars(a: &Vec<char>, b: &Vec<char>) -> (r: bool)
    ensures
        r == lex_le(a@, b@),
{
    let n = if a.len() <= b.len() {
        a.len()
    } else {
        b.len()
    };
    let mut i: usize = 0;
    proof {
        assert(a@.skip(0) =~= a@);
        assert(b@.skip(0) =~= b@);
    }
    while i < n
        invariant
            i <= n,
            n <= a@.len() && n <= b@.len(),
            n == a@.len() || n == b@.len(),
            lex_le(a@, b@) == lex_le(a@.skip(i as int), b@.skip(i as int)),
        decreases n - i,
    {
        let ca = a[i];
        let cb = b[i];
        proof {
            assert(a@.skip(i as int)[0] == a@[i as int]);
            assert(b@.skip(i as int)[0] == b@[i as int]);
            assert(a@.skip(i as int).skip(1) =~= a@.skip(i + 1));
            assert(b@.skip(i as int).skip(1) =~= b@.skip(i + 1));
        }
        if (ca as u32) != (cb as u32) {
            return (ca as u32) < (cb as u32);
        }
        i = i + 1;
    }
    proof {
        if a@.len() <= b@.len() {
            assert(a@.skip(n as int) =~= Seq::<char>::empty());
        } else {
            assert(b@.skip(n as int) =~= Seq::<char>::empty());
            assert(a@.skip(n as int).len() > 0);
        }
    }
    a.len() <= b.len()
}

/// Compares two names in the order the chunks walk them.
fn string_le(a: &String, b: &String) -> (r: bool)
    ensures
        r == lex_le(a@, b@),
{
    let av = chars_vec(a.as_str());
    let bv = chars_vec(b.as_str());
    lex_le_chars(&av, &bv)
}

/// Sorts file names into the order the chunks walk them: ascending
/// lexicographic by code point.  No name is lost or invented: the
/// result holds exactly the input names.
pub fn sort_names(list: Vec<String>) -> (r: Vec<String>)
    ensures
        r@.len() == list@.len(),
        forall|a: int, b: int| 0 <= a < b < r@.len() ==> lex_le(#[trigger] r@[a]@, #[trigger] r@[b]@),
        r@.to_multiset() == list@.to_multiset(),
{
    broadcast use vstd::seq_lib::group_to_multiset_ensures;

    let mut v = list;
    let ghost orig = v@;
    if v.len() <= 1 {
        return v;
    }
    let mut i: usize = 1;
    while i < v.len()
        invariant
            1 <= i <= v@.len(),
            v@.len() == orig.len(),
            v@.to_multiset() == orig.to_multiset(),
            forall|a: int, b: int| 0 <= a < b < i ==> lex_le(#[trigger] v@[a]@, #[trigger] v@[b]@),
        decreases v.len() - i,
    {
        broadcast use vstd::seq_lib::group_to_multiset_ensures;

        let ghost pre = v@;
        let mut k: usize = 0;
        while k < i && string_le(&v[k], &v[i])
            invariant
                k <= i < v@.len(),
                v@ == pre,
                forall|a: int| 0 <= a < k ==> lex_le(#[trigger] v@[a]@, v@[i as int]@),
            decreases i - k,
        {
            k = k + 1;
        }
        proof {
            if k < i {
                lemma_lex_total(pre[k as int]@, pre[i as int]@);
            }
        }
        let x = v.remove(i);
        v.insert(k, x);
        proof {
            assert(pre.to_multiset().count(pre[i as int]) > 0);
            assert(v@.to_multiset() =~= pre.to_multiset());
            assert forall|a: int, b: int| 0 <= a < b < i + 1 implies lex_le(
                #[trigger] v@[a]@,
                #[trigger] v@[b]@,
            ) by {
                let ka = k as int;
                let ii = i as int;
                if a < ka && b < ka {
                    assert(v@[a] == pre[a] && v@[b] == pre[b]);
                } else if a < ka && b == ka {
                    assert(v@[a] == pre[a] && v@[b] == pre[ii]);
                } else if a < ka && b > ka {
                    assert(v@[a] == pre[a] && v@[b] == pre[b - 1]);
                } else if a == ka && b > ka {
                    assert(v@[a] == pre[ii] && v@[b] == pre[b - 1]);
                    assert(lex_le(pre[ii]@, pre[ka]@));
                    if b - 1 > ka {
                        assert(lex_le(pre[ka]@, pre[b - 1]@));
                        lemma_lex_trans(pre[ii]@, pre[ka]@, pre[b - 1]@);
                    }
                } else {
                    assert(a > ka && b > ka);
                    assert(v@[a] == pre[a - 1] && v@[b] == pre[b - 1]);
                }
            }
        }
        i = i + 1;
    }
    v
}

} // verus!
