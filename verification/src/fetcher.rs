//! Content fetcher planning: which files of a remote post are taken, under
//! which staged names, and when a fallback link record stands in for an
//! oversized download.  The network and file-system work around these
//! decisions stays outside the crate; every decision itself is here.

use vstd::prelude::*;
use vstd::string::StringExecFns;

use crate::text::chars_to_string;
use crate::text::chars_vec;
use crate::text::padded_dec;
use crate::text::padded_dec_chars;
use crate::urls::idx_of;
use crate::urls::lemma_idx_of_bound;
use crate::urls::lemma_idx_of_is;

verus! {

/// Files larger than this are not downloaded; a fallback link record is
/// written instead.
pub const MAX_FILE_SIZE: u64 = 50000000;

/// Characters that may not appear in a staged file name.
pub open spec fn is_hostile_char(c: char) -> bool {
    ||| c == '/'
    ||| c == '\\'
    ||| c == '?'
    ||| c == '%'
    ||| c == '*'
    ||| c == ':'
    ||| c == '|'
    ||| c == '"'
    ||| c == '<'
    ||| c == '>'
}

/// `s` with every path-hostile character replaced by `'_'`.
pub open spec fn sanitize_spec(s: Seq<char>) -> Seq<char> {
    s.map_values(|c: char| if is_hostile_char(c) { '_' } else { c })
}

fn is_hostile(c: char) -> (r: bool)
    ensures
        r == is_hostile_char(c),
{
    c == '/' || c == '\\' || c == '?' || c == '%' || c == '*' || c == ':' || c == '|' || c == '"'
        || c == '<' || c == '>'
}

/// Makes a file-system safe name: every path-hostile character becomes
/// `'_'`.
pub fn sanitize_filename(name: &str) -> (r: String)
    ensures
        r@ == sanitize_spec(name@),
{
    let v = chars_vec(name);
    let mut out: Vec<char> = Vec::new();
    let mut i: usize = 0;
    while i < v.len()
        invariant
            i <= v@.len(),
            v@ == name@,
            out@ =~= sanitize_spec(name@).take(i as int),
        decreases v.len() - i,
    {
        let c = v[i];
        if is_hostile(c) {
            out.push('_');
        } else {
            out.push(c);
        }
        i = i + 1;
    }
    proof {
        assert(out@ =~= sanitize_spec(name@));
    }
    chars_to_string(&out)
}

/// The ASCII-lowercased form of `c`.
pub open spec fn lower_char(c: char) -> char {
    if 'A' <= c <= 'Z' {
        ((c as u32) + 32) as char
    } else {
        c
    }
}

/// `s` with every ASCII capital letter lowercased.
pub open spec fn lower_spec(s: Seq<char>) -> Seq<char> {
    s.map_values(|c: char| lower_char(c))
}

pub fn lower_char_exec(c: char) -> (r: char)
    ensures
        r == lower_char(c),
{
    if 'A' <= c && c <= 'Z' {
        let u = c as u32;
        let l = (u + 32) as u8;
        l as char
    } else {
        c
    }
}

/// The final path component of `name`: the characters after the last
/// `'/'`, or all of `name` when it holds none.
pub open spec fn final_comp(name: Seq<char>) -> Seq<char> {
    name.skip(name.len() - idx_of(name.reverse(), '/'))
}

/// The extension of `name`, ASCII-lowercased: the characters of its final
/// path component after the last `'.'`.  A component without a dot, or
/// whose only dot starts it, has the empty extension, as
/// `std::path::Path::extension` sees it.
pub open spec fn ext_of(name: Seq<char>) -> Seq<char> {
    let c = final_comp(name);
    let k = idx_of(c.reverse(), '.');
    if k == c.len() || c.len() - k - 1 == 0 {
        Seq::empty()
    } else {
        lower_spec(c.skip(c.len() - k))
    }
}

/// The stem of `name`'s final path component: the component without its
/// extension and the dot before it.
pub open spec fn stem_of(name: Seq<char>) -> Seq<char> {
    let c = final_comp(name);
    let k = idx_of(c.reverse(), '.');
    if k == c.len() || c.len() - k - 1 == 0 {
        c
    } else {
        c.take(c.len() - k - 1)
    }
}

/// Copies `s` in reverse order.
fn reverse_chars(s: &Vec<char>) -> (r: Vec<char>)
    ensures
        r@ == s@.reverse(),
{
    let n = s.len();
    let mut r: Vec<char> = Vec::new();
    let mut i: usize = 0;
    while i < n
        invariant
            i <= n,
            n == s@.len(),
            r@.len() == i,
            forall|j: int| 0 <= j < i ==> r@[j] == s@[n - 1 - j],
        decreases n - i,
    {
        r.push(s[n - 1 - i]);
        i = i + 1;
    }
    proof {
        assert(r@ =~= s@.reverse());
    }
    r
}

/// The position of the first occurrence of `c` in `s`, or `s.len()`.
fn find_char(s: &Vec<char>, c: char) -> (k: usize)
    ensures
        k == idx_of(s@, c),
{
    let mut i: usize = 0;
    while i < s.len()
        invariant
            i <= s@.len(),
            forall|j: int| 0 <= j < i ==> s@[j] != c,
        decreases s.len() - i,
    {
        if s[i] == c {
            proof {
                lemma_idx_of_is(s@, c, i as int);
            }
            return i;
        }
        i = i + 1;
    }
    proof {
        lemma_idx_of_is(s@, c, s@.len() as int);
    }
    s.len()
}

/// The extension and stem of a file name's final path component.
pub fn split_extension(name: &str) -> (r: (Vec<char>, Vec<char>))
    ensures
        r.0@ == ext_of(name@),
        r.1@ == stem_of(name@),
{
    let v = chars_vec(name);
    let rev = reverse_chars(&v);
    let slash = find_char(&rev, '/');
    proof {
        lemma_idx_of_bound(v@.reverse(), '/');
    }
    let comp = crate::urls::slice_from(&v, v.len() - slash);
    proof {
        assert(comp@ == final_comp(name@));
    }
    let comp_rev = reverse_chars(&comp);
    let dot = find_char(&comp_rev, '.');
    proof {
        lemma_idx_of_bound(comp@.reverse(), '.');
    }
    if dot == comp.len() || comp.len() - dot - 1 == 0 {
        let mut e: Vec<char> = Vec::new();
        proof {
            assert(e@ =~= ext_of(name@));
        }
        (e, comp)
    } else {
        let raw = crate::urls::slice_from(&comp, comp.len() - dot);
        let mut ext: Vec<char> = Vec::new();
        let mut i: usize = 0;
        while i < raw.len()
            invariant
                i <= raw@.len(),
                ext@ =~= lower_spec(raw@).take(i as int),
            decreases raw.len() - i,
        {
            ext.push(lower_char_exec(raw[i]));
            i = i + 1;
        }
        let mut stem: Vec<char> = Vec::new();
        let mut j: usize = 0;
        let stem_len = comp.len() - dot - 1;
        while j < stem_len
            invariant
                j <= stem_len,
                stem_len == comp@.len() - idx_of(comp@.reverse(), '.') - 1,
                idx_of(comp@.reverse(), '.') < comp@.len(),
                stem@ =~= comp@.take(j as int),
            decreases stem_len - j,
        {
            stem.push(comp[j]);
            j = j + 1;
        }
        proof {
            assert(ext@ =~= ext_of(name@));
            assert(stem@ =~= stem_of(name@));
        }
        (ext, stem)
    }
}

/// The fixed set of media extensions the pipeline takes.
pub open spec fn allowed_ext(e: Seq<char>) -> bool {
    ||| e == "jpg"@
    ||| e == "jpeg"@
    ||| e == "png"@
    ||| e == "mp4"@
    ||| e == "mov"@
    ||| e == "gif"@
    ||| e == "webp"@
}

/// Membership in the allowed media extension set.
pub fn is_allowed_extension(ext: &Vec<char>) -> (r: bool)
    ensures
        r == allowed_ext(ext@),
{
    let jpg = chars_vec("jpg");
    let jpeg = chars_vec("jpeg");
    let png = chars_vec("png");
    let mp4 = chars_vec("mp4");
    let mov = chars_vec("mov");
    let gif = chars_vec("gif");
    let webp = chars_vec("webp");
    crate::urls::eq_chars(ext, &jpg) || crate::urls::eq_chars(ext, &jpeg) || crate::urls::eq_chars(
        ext,
        &png,
    ) || crate::urls::eq_chars(ext, &mp4) || crate::urls::eq_chars(ext, &mov)
        || crate::urls::eq_chars(ext, &gif) || crate::urls::eq_chars(ext, &webp)
}

/// The staged name of the `number`-th listed file: a three-digit
/// zero-padded sequence prefix, an underscore, and the sanitized name.
pub open spec fn staged_name_spec(number: nat, name: Seq<char>) -> Seq<char> {
    padded_dec(number, 3, '0') + "_"@ + sanitize_spec(name)
}

/// Builds the staged name `{number:0>3}_{sanitized}`.
pub fn staged_name(number: u64, name: &str) -> (r: String)
    ensures
        r@ == staged_name_spec(number as nat, name@),
{
    let mut v = padded_dec_chars(number, 3, '0');
    v.push('_');
    let sane = sanitize_filename(name);
    let sane_chars = chars_vec(sane.as_str());
    let mut i: usize = 0;
    while i < sane_chars.len()
        invariant
            i <= sane_chars@.len(),
            sane_chars@ == sanitize_spec(name@),
            v@ =~= padded_dec(number as nat, 3, '0') + seq!['_'] + sanitize_spec(name@).take(
                i as int,
            ),
        decreases sane_chars.len() - i,
    {
        v.push(sane_chars[i]);
        i = i + 1;
    }
    proof {
        reveal_strlit("_");
        assert("_"@ =~= seq!['_']);
        assert(v@ =~= staged_name_spec(number as nat, name@));
    }
    chars_to_string(&v)
}


/// One file of a remote post, as the metadata listing names it.
pub struct RemoteFile {
    /// The file's display name, extension included.
    pub name: String,
    /// The server-side path its bytes are fetched from.
    pub path: String,
}

impl RemoteFile {
    /// A field-for-field copy.
    pub fn duplicate(&self) -> (r: RemoteFile)
        ensures
            r == *self,
    {
        RemoteFile { name: self.name.clone(), path: self.path.clone() }
    }
}

/// The metadata of one remote post.
pub struct RemotePost {
    /// The post's title, when the author gave one.
    pub title: Option<String>,
    /// The post's body text.
    pub content: Option<String>,
    /// The post's primary file.
    pub file: Option<RemoteFile>,
    /// The post's further attachments.
    pub attachments: Vec<RemoteFile>,
}

/// The files of a post in listing order: the primary file first, then the
/// attachments.
pub fn listed_files(file: &Option<RemoteFile>, attachments: &Vec<RemoteFile>) -> (r: Vec<
    RemoteFile,
>)
    ensures
        r@ == match *file {
            Some(f) => seq![f] + attachments@,
            None => attachments@,
        },
{
    let mut r: Vec<RemoteFile> = Vec::new();
    match file {
        Some(f) => {
            r.push(f.duplicate());
        },
        None => {},
    }
    let ghost head = r@;
    let mut i: usize = 0;
    while i < attachments.len()
        invariant
            i <= attachments@.len(),
            r@ =~= head + attachments@.take(i as int),
        decreases attachments.len() - i,
    {
        r.push(attachments[i].duplicate());
        i = i + 1;
    }
    proof {
        assert(head + attachments@.take(attachments@.len() as int) =~= head + attachments@);
        if file is Some {
            assert(r@ =~= seq![file->0] + attachments@);
        } else {
            assert(r@ =~= attachments@);
        }
    }
    r
}

/// What the fetcher does with one listed file before any probe: reject it
/// for its extension, treat it as already staged, or go on to the
/// content-length probe.
#[derive(Clone, Copy, Debug, PartialEq, Eq, Structural)]
pub enum FileScreen {
    /// The extension is not in the allowed media set; the file is skipped.
    RejectExtension,
    /// A file of the staged name already exists; a previous run completed
    /// it, so it is skipped.
    AlreadyStaged,
    /// The file is wanted: probe its size next.
    NeedsProbe,
}

/// The screening decision for the `number`-th listed file named `name`,
/// given the staged names already present.
pub open spec fn screen_spec(name: Seq<char>, number: nat, existing: Seq<Seq<char>>) -> FileScreen {
    if !allowed_ext(ext_of(name)) {
        FileScreen::RejectExtension
    } else if existing.contains(staged_name_spec(number, name)) {
        FileScreen::AlreadyStaged
    } else {
        FileScreen::NeedsProbe
    }
}

/// True when some element of `v` reads `s`.
pub fn contains_string(v: &Vec<String>, s: &String) -> (r: bool)
    ensures
        r == v.deep_view().contains(s@),
{
    let mut i: usize = 0;
    while i < v.len()
        invariant
            i <= v@.len(),
            forall|j: int| 0 <= j < i ==> v.deep_view()[j] != s@,
        decreases v.len() - i,
    {
        proof {
            assert(v.deep_view()[i as int] == v@[i as int]@);
        }
        if v[i].eq(s) {
            return true;
        }
        i = i + 1;
    }
    proof {
        assert(forall|j: int|
            0 <= j < v.deep_view().len() ==> v.deep_view()[j] != s@);
    }
    false
}

/// Screens one listed file: its extension must be allowed, and a staged
/// name already present means the file was completed by an earlier run
/// and is not fetched again.
pub fn screen_file(name: &str, number: u64, existing: &Vec<String>) -> (r: FileScreen)
    ensures
        r == screen_spec(name@, number as nat, existing.deep_view()),
{
    let (ext, _stem) = split_extension(name);
    if !is_allowed_extension(&ext) {
        return FileScreen::RejectExtension;
    }
    let staged = staged_name(number, name);
    if contains_string(existing, &staged) {
        FileScreen::AlreadyStaged
    } else {
        FileScreen::NeedsProbe
    }
}

/// How a screened file's bytes are handled once its size is known.
#[derive(Clone, Copy, Debug, PartialEq, Eq, Structural)]
pub enum FileFetch {
    /// The file exceeds [`MAX_FILE_SIZE`]; a fallback link record is
    /// written instead of its bytes.
    Fallback,
    /// The bytes are downloaded to the staged name.
    Download,
}

/// Resolves the content-length probe: only a reported size above the
/// ceiling turns the download into a fallback record; an unknown size is
/// downloaded.
pub fn resolve_probe(content_len: Option<u64>) -> (r: FileFetch)
    ensures
        r == FileFetch::Fallback <==> (content_len matches Some(sz) && sz > MAX_FILE_SIZE),
        r == FileFetch::Download <==> !(content_len matches Some(sz) && sz > MAX_FILE_SIZE),
{
    match content_len {
        Some(sz) => {
            if sz > MAX_FILE_SIZE {
                FileFetch::Fallback
            } else {
                FileFetch::Download
            }
        },
        None => FileFetch::Download,
    }
}

/// The fetcher is idempotent over a resumed staging directory: a listed
/// file whose staged name is already present is never probed or
/// downloaded again, and nothing new is written for it.
pub proof fn lemma_refetch_skips_existing(name: Seq<char>, number: nat, existing: Seq<Seq<char>>)
    requires
        existing.contains(staged_name_spec(number, name)),
    ensures
        screen_spec(name, number, existing) != FileScreen::NeedsProbe,
{
}

/// The name of the fallback sidecar standing in for `name`: the sanitized
/// stem with `.url.json` appended.
pub open spec fn fallback_name_spec(name: Seq<char>) -> Seq<char> {
    stem_of(sanitize_spec(name)) + ".url.json"@
}

/// Builds the fallback sidecar name `{stem}.url.json`.
pub fn fallback_sidecar_name(name: &str) -> (r: String)
    ensures
        r@ == fallback_name_spec(name@),
{
    let sanitized = sanitize_filename(name);
    let (_ext, stem) = split_extension(sanitized.as_str());
    let mut v = stem;
    let suffix = chars_vec(".url.json");
    crate::text::extend_chars(&mut v, &suffix);
    chars_to_string(&v)
}

/// The display name recorded inside a fallback sidecar: the stem of
/// the sanitized file name, without its extension.
pub fn fallback_record_name(name: &str) -> (r: String)
    ensures
        r@ == stem_of(sanitize_spec(name@)),
{
    let sanitized = sanitize_filename(name);
    let (_ext, stem) = split_extension(sanitized.as_str());
    chars_to_string(&stem)
}

/// One text sidecar of a staging job.
pub struct SidecarFile {
    /// The file name inside the job directory.
    pub name: String,
    /// The text written to it.
    pub body: String,
}

/// The sidecars of a staging job, in the order they are written: author
/// name (when known), author page URL, post page URL, body text and title
/// (each when present).
pub open spec fn sidecars_spec(
    artist_name: Option<Seq<char>>,
    artist_url: Seq<char>,
    post_url: Seq<char>,
    content: Option<Seq<char>>,
    title: Option<Seq<char>>,
) -> Seq<(Seq<char>, Seq<char>)> {
    (match artist_name {
        Some(a) => seq![("artist_name.txt"@, a)],
        None => seq![],
    }) + seq![("artist_url.txt"@, artist_url), ("post_url.txt"@, post_url)] + (match content {
        Some(c) => seq![("post.txt"@, c)],
        None => seq![],
    }) + (match title {
        Some(t) => seq![("title.txt"@, t)],
        None => seq![],
    })
}

/// Plans the sidecar files of a staging job.  Absent fields are simply
/// not written; none of them is an error.
pub fn plan_sidecars(
    artist_name: &Option<String>,
    artist_url: &str,
    post_url: &str,
    content: &Option<String>,
    title: &Option<String>,
) -> (r: Vec<SidecarFile>)
    ensures
        ({
            let spec = sidecars_spec(
                match *artist_name {
                    Some(a) => Some(a@),
                    None => None,
                },
                artist_url@,
                post_url@,
                match *content {
                    Some(c) => Some(c@),
                    None => None,
                },
                match *title {
                    Some(t) => Some(t@),
                    None => None,
                },
            );
            &&& r@.len() == spec.len()
            &&& forall|i: int|
                0 <= i < r@.len() ==> r@[i].name@ == spec[i].0 && r@[i].body@ == spec[i].1
        }),
{
    let mut r: Vec<SidecarFile> = Vec::new();
    match artist_name {
        Some(a) => {
            r.push(SidecarFile { name: String::from_str("artist_name.txt"), body: a.clone() });
        },
        None => {},
    }
    r.push(
        SidecarFile { name: String::from_str("artist_url.txt"), body: artist_url.to_owned() },
    );
    r.push(SidecarFile { name: String::from_str("post_url.txt"), body: post_url.to_owned() });
    match content {
        Some(c) => {
            r.push(SidecarFile { name: String::from_str("post.txt"), body: c.clone() });
        },
        None => {},
    }
    match title {
        Some(t) => {
            r.push(SidecarFile { name: String::from_str("title.txt"), body: t.clone() });
        },
        None => {},
    }
    r
}

/// A post is published even with no usable files, as long as some text
/// came with it: a text-only post still becomes a job.
pub fn should_publish(has_files: bool, title: &Option<String>, content: &Option<String>) -> (r:
    bool)
    ensures
        r <==> (has_files || *title is Some || *content is Some),
{
    has_files || title.is_some() || content.is_some()
}

/// A character of a staging token: the hyphenated identifier form uses
/// lowercase hex digits and hyphens only, all path-safe.
pub open spec fn is_token_char(c: char) -> bool {
    ('0' <= c && c <= '9') || ('a' <= c && c <= 'f') || c == '-'
}

/// Relies on `uuid::Uuid::new_v4` and its hyphenated `Display` form: a
/// freshly generated random identifier, 36 lowercase-hex-and-hyphen
/// characters.  Nothing relates two calls: every call may return a
/// different value.
#[verifier::external_body]
fn fresh_token() -> (r: String)
    ensures
        r@.len() == 36,
        forall|i: int| 0 <= i < r@.len() ==> is_token_char(r@[i]),
{
    uuid::Uuid::new_v4().to_string()
}

/// A fresh staging job name with its temporary and final directory
/// paths.  The job is built under the temporary path and becomes visible
/// only by the single rename to the final path.
pub fn fresh_staging_paths() -> (r: (String, String, String))
    ensures
        r.0@.len() == 36,
        forall|i: int| 0 <= i < r.0@.len() ==> is_token_char(r.0@[i]),
        r.1@ == "./exchange/messages_tmp/"@ + r.0@,
        r.2@ == "./exchange/messages/"@ + r.0@,
{
    let token = fresh_token();
    let mut tmp = String::from_str("./exchange/messages_tmp/");
    tmp.append(token.as_str());
    let mut fin = String::from_str("./exchange/messages/");
    fin.append(token.as_str());
    (token, tmp, fin)
}

} // verus!
