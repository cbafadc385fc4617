//! The fallback link record: the small JSON sidecar written in place of
//! an oversized download, `{"name": ..., "url": ...}` in pretty-printed
//! form with the standard JSON string escapes.

use vstd::prelude::*;

use crate::text::chars_to_string;
use crate::text::chars_vec;
use crate::text::extend_chars;

verus! {

/// The lowercase hex digit for `d`.
pub open spec fn hex_digit(d: nat) -> char {
    if d == 0 {
        '0'
    } else if d == 1 {
        '1'
    } else if d == 2 {
        '2'
    } else if d == 3 {
        '3'
    } else if d == 4 {
        '4'
    } else if d == 5 {
        '5'
    } else if d == 6 {
        '6'
    } else if d == 7 {
        '7'
    } else if d == 8 {
        '8'
    } else if d == 9 {
        '9'
    } else if d == 10 {
        'a'
    } else if d == 11 {
        'b'
    } else if d == 12 {
        'c'
    } else if d == 13 {
        'd'
    } else if d == 14 {
        'e'
    } else {
        'f'
    }
}

/// How one character appears inside a JSON string literal: quotes and
/// backslashes are escaped, the named control characters use their short
/// escapes, other control characters use `\u00xx`, and everything else
/// stands for itself.
pub open spec fn esc_char(c: char) -> Seq<char> {
    if c == '"' {
        seq!['\\', '"']
    } else if c == '\\' {
        seq!['\\', '\\']
    } else if c == '\u{8}' {
        seq!['\\', 'b']
    } else if c == '\u{9}' {
        seq!['\\', 't']
    } else if c == '\u{a}' {
        seq!['\\', 'n']
    } else if c == '\u{c}' {
        seq!['\\', 'f']
    } else if c == '\u{d}' {
        seq!['\\', 'r']
    } else if (c as u32) < 32 {
        seq!['\\', 'u', '0', '0', hex_digit(((c as u32) / 16) as nat), hex_digit(
            ((c as u32) % 16) as nat,
        )]
    } else {
        seq![c]
    }
}

/// A whole string escaped for a JSON string literal.
pub open spec fn esc_str(s: Seq<char>) -> Seq<char>
    decreases s.len(),
{
    if s.len() == 0 {
        Seq::empty()
    } else {
        esc_char(s[0]) + esc_str(s.skip(1))
    }
}

proof fn lemma_esc_str_snoc(s: Seq<char>)
    requires
        s.len() > 0,
    ensures
        esc_str(s) == esc_str(s.take(s.len() - 1)) + esc_char(s[s.len() - 1]),
    decreases s.len(),
{
    if s.len() == 1 {
        assert(s.take(0) =~= Seq::<char>::empty());
        assert(esc_str(s.skip(1)) == Seq::<char>::empty());
        assert(esc_str(s) =~= esc_char(s[0]) + Seq::<char>::empty());
        assert(esc_str(s.take(0)) + esc_char(s[0]) =~= esc_char(s[0]));
    } else {
        lemma_esc_str_snoc(s.skip(1));
        assert(s.skip(1).take(s.skip(1).len() - 1) =~= s.take(s.len() - 1).skip(1));
        assert(s.skip(1)[s.skip(1).len() - 1] == s[s.len() - 1]);
        assert(esc_str(s.take(s.len() - 1)) == esc_char(s[0]) + esc_str(
            s.take(s.len() - 1).skip(1),
        ));
        assert((esc_char(s[0]) + (esc_str(s.take(s.len() - 1).skip(1)) + esc_char(
            s[s.len() - 1],
        ))) =~= (esc_char(s[0]) + esc_str(s.take(s.len() - 1).skip(1))) + esc_char(
            s[s.len() - 1],
        ));
    }
}

fn hex_digit_exec(d: u32) -> (r: char)
    requires
        d < 16,
    ensures
        r == hex_digit(d as nat),
{
    if d == 0 {
        '0'
    } else if d == 1 {
        '1'
    } else if d == 2 {
        '2'
    } else if d == 3 {
        '3'
    } else if d == 4 {
        '4'
    } else if d == 5 {
        '5'
    } else if d == 6 {
        '6'
    } else if d == 7 {
        '7'
    } else if d == 8 {
        '8'
    } else if d == 9 {
        '9'
    } else if d == 10 {
        'a'
    } else if d == 11 {
        'b'
    } else if d == 12 {
        'c'
    } else if d == 13 {
        'd'
    } else if d == 14 {
        'e'
    } else {
        'f'
    }
}

/// Appends the JSON escape of one character.
fn push_esc_char(out: &mut Vec<char>, c: char)
    ensures
        final(out)@ == old(out)@ + esc_char(c),
{
    if c == '"' {
        out.push('\\');
        out.push('"');
    } else if c == '\\' {
        out.push('\\');
        out.push('\\');
    } else if c == '\u{8}' {
        out.push('\\');
        out.push('b');
    } else if c == '\u{9}' {
        out.push('\\');
        out.push('t');
    } else if c == '\u{a}' {
        out.push('\\');
        out.push('n');
    } else if c == '\u{c}' {
        out.push('\\');
        out.push('f');
    } else if c == '\u{d}' {
        out.push('\\');
        out.push('r');
    } else {
        let u = c as u32;
        if u < 32 {
            out.push('\\');
            out.push('u');
            out.push('0');
            out.push('0');
            out.push(hex_digit_exec(u / 16));
            out.push(hex_digit_exec(u % 16));
        } else {
            out.push(c);
        }
    }
    proof {
        assert(final(out)@ =~= old(out)@ + esc_char(c));
    }
}

/// Appends the JSON escape of a whole string.
fn push_esc_str(out: &mut Vec<char>, s: &Vec<char>)
    ensures
        final(out)@ == old(out)@ + esc_str(s@),
{
    let mut i: usize = 0;
    while i < s.len()
        invariant
            i <= s@.len(),
            out@ == old(out)@ + esc_str(s@.take(i as int)),
        decreases s.len() - i,
    {
        proof {
            let t = s@.take(i + 1);
            lemma_esc_str_snoc(t);
            assert(t.take(t.len() - 1) =~= s@.take(i as int));
            assert(t[t.len() - 1] == s@[i as int]);
        }
        push_esc_char(out, s[i]);
        i = i + 1;
    }
    proof {
        assert(s@.take(s@.len() as int) =~= s@);
    }
}

/// The exact text of a fallback record for `url` and `name`:
/// a pretty-printed JSON object whose keys stand in sorted order.
pub open spec fn fallback_json_spec(url: Seq<char>, name: Seq<char>) -> Seq<char> {
    "{\n  \"name\": \""@ + esc_str(name) + "\",\n  \"url\": \""@ + esc_str(url) + "\"\n}"@
}

/// Writes the fallback record text for an oversized file: its remote
/// address under `"url"`, its display name under `"name"`.
pub fn render_fallback_record(url: &str, name: &str) -> (r: String)
    ensures
        r@ == fallback_json_spec(url@, name@),
{
    let mut v = chars_vec("{\n  \"name\": \"");
    let name_chars = chars_vec(name);
    push_esc_str(&mut v, &name_chars);
    let mid = chars_vec("\",\n  \"url\": \"");
    extend_chars(&mut v, &mid);
    let url_chars = chars_vec(url);
    push_esc_str(&mut v, &url_chars);
    let tail = chars_vec("\"\n}");
    extend_chars(&mut v, &tail);
    chars_to_string(&v)
}

/// The numeric value of a lowercase hex digit, or 16 for any other
/// character.
pub open spec fn hex_val(c: char) -> nat {
    if c == '0' {
        0
    } else if c == '1' {
        1
    } else if c == '2' {
        2
    } else if c == '3' {
        3
    } else if c == '4' {
        4
    } else if c == '5' {
        5
    } else if c == '6' {
        6
    } else if c == '7' {
        7
    } else if c == '8' {
        8
    } else if c == '9' {
        9
    } else if c == 'a' {
        10
    } else if c == 'b' {
        11
    } else if c == 'c' {
        12
    } else if c == 'd' {
        13
    } else if c == 'e' {
        14
    } else if c == 'f' {
        15
    } else {
        16
    }
}

/// Reads a JSON string literal body back: the inverse of [`esc_str`].
/// A lone backslash, a bad escape, a bare quote or a raw control
/// character makes the text invalid, and only the canonical escapes
/// that [`esc_char`] writes are accepted: a named control character
/// must use its short form, and `\u00xx` only encodes the rest of the
/// control range.
pub open spec fn unesc(s: Seq<char>) -> Option<Seq<char>>
    decreases s.len(),
{
    if s.len() == 0 {
        Some(Seq::empty())
    } else if s[0] == '\\' {
        if s.len() < 2 {
            None
        } else if s[1] == '"' || s[1] == '\\' || s[1] == 'b' || s[1] == 't' || s[1] == 'n' || s[1]
            == 'f' || s[1] == 'r' {
            let c = if s[1] == '"' {
                '"'
            } else if s[1] == '\\' {
                '\\'
            } else if s[1] == 'b' {
                '\u{8}'
            } else if s[1] == 't' {
                '\u{9}'
            } else if s[1] == 'n' {
                '\u{a}'
            } else if s[1] == 'f' {
                '\u{c}'
            } else {
                '\u{d}'
            };
            match unesc(s.skip(2)) {
                Some(r) => Some(seq![c] + r),
                None => None,
            }
        } else if s[1] == 'u' {
            let v = 16 * hex_val(s[4]) + hex_val(s[5]);
            if s.len() < 6 || s[2] != '0' || s[3] != '0' || hex_val(s[4]) >= 16 || hex_val(s[5])
                >= 16 || v >= 32 || v == 8 || v == 9 || v == 10 || v == 12 || v == 13 {
                None
            } else {
                let c = (v as u8) as char;
                match unesc(s.skip(6)) {
                    Some(r) => Some(seq![c] + r),
                    None => None,
                }
            }
        } else {
            None
        }
    } else if s[0] == '"' || (s[0] as u32) < 32 {
        None
    } else {
        match unesc(s.skip(1)) {
            Some(r) => Some(seq![s[0]] + r),
            None => None,
        }
    }
}

/// One escaped character followed by valid text reads back as that
/// character in front of the rest.
proof fn lemma_unesc_esc_char(c: char, t: Seq<char>, r: Seq<char>)
    requires
        unesc(t) == Some(r),
    ensures
        unesc(esc_char(c) + t) == Some(seq![c] + r),
{
    let s = esc_char(c) + t;
    if c == '"' || c == '\\' || c == '\u{8}' || c == '\u{9}' || c == '\u{a}' || c == '\u{c}' || c
        == '\u{d}' {
        assert(s.skip(2) =~= t);
    } else if (c as u32) < 32 {
        assert(s.skip(6) =~= t);
        assert(s[4] == hex_digit(((c as u32) / 16) as nat));
        assert(s[5] == hex_digit(((c as u32) % 16) as nat));
        assert(hex_val(s[4]) == (c as u32) / 16);
        assert(hex_val(s[5]) == (c as u32) % 16);
        assert(((16 * hex_val(s[4]) + hex_val(s[5])) as u8) as char == c);
    } else {
        assert(s.skip(1) =~= t);
        assert(s[0] == c);
    }
}

/// Escaping loses nothing: every string reads back from its escaped
/// form unchanged.
pub proof fn lemma_escape_roundtrip(s: Seq<char>)
    ensures
        unesc(esc_str(s)) == Some(s),
    decreases s.len(),
{
    if s.len() == 0 {
        assert(esc_str(s) =~= Seq::<char>::empty());
    } else {
        lemma_escape_roundtrip(s.skip(1));
        lemma_unesc_esc_char(s[0], esc_str(s.skip(1)), s.skip(1));
        assert(seq![s[0]] + s.skip(1) =~= s);
    }
}

/// Escaping is injective: two strings with one escaped form are one
/// string.
pub proof fn lemma_escape_injective(a: Seq<char>, b: Seq<char>)
    requires
        esc_str(a) == esc_str(b),
    ensures
        a == b,
{
    lemma_escape_roundtrip(a);
    lemma_escape_roundtrip(b);
}

} // verus!

verus! {

/// Canonicity: a text that reads back as `s` is exactly the escape of
/// `s` — valid escaped text has one source.
pub proof fn lemma_unesc_canonical(r: Seq<char>, s: Seq<char>)
    requires
        unesc(r) == Some(s),
    ensures
        esc_str(s) == r,
    decreases r.len(),
{
    if r.len() == 0 {
        assert(s =~= Seq::<char>::empty());
        assert(esc_str(s) =~= r);
    } else if r[0] == '\\' {
        if r[1] == '"' || r[1] == '\\' || r[1] == 'b' || r[1] == 't' || r[1] == 'n' || r[1] == 'f'
            || r[1] == 'r' {
            let c = if r[1] == '"' {
                '"'
            } else if r[1] == '\\' {
                '\\'
            } else if r[1] == 'b' {
                '\u{8}'
            } else if r[1] == 't' {
                '\u{9}'
            } else if r[1] == 'n' {
                '\u{a}'
            } else if r[1] == 'f' {
                '\u{c}'
            } else {
                '\u{d}'
            };
            let s2 = unesc(r.skip(2))->Some_0;
            assert(s == seq![c] + s2);
            lemma_unesc_canonical(r.skip(2), s2);
            assert(s[0] == c && s.skip(1) =~= s2);
            assert(esc_char(c) =~= r.take(2));
            assert(esc_str(s) =~= r);
        } else {
            let v = 16 * hex_val(r[4]) + hex_val(r[5]);
            let c = (v as u8) as char;
            let s2 = unesc(r.skip(6))->Some_0;
            assert(s == seq![c] + s2);
            lemma_unesc_canonical(r.skip(6), s2);
            assert(s[0] == c && s.skip(1) =~= s2);
            assert(c as u32 == v);
            assert(hex_digit(((c as u32) / 16) as nat) == r[4] && hex_digit(
                ((c as u32) % 16) as nat,
            ) == r[5]);
            assert(esc_char(c) =~= r.take(6));
            assert(esc_str(s) =~= r);
        }
    } else {
        let s2 = unesc(r.skip(1))->Some_0;
        assert(s == seq![r[0]] + s2);
        lemma_unesc_canonical(r.skip(1), s2);
        assert(s[0] == r[0] && s.skip(1) =~= s2);
        assert(esc_char(r[0]) =~= r.take(1));
        assert(esc_str(s) =~= r);
    }
}

/// The position of the first quote not consumed by an escape pair, or
/// nothing when the text ends first (also on a trailing lone
/// backslash).
pub open spec fn scan_quote(s: Seq<char>) -> Option<int>
    decreases s.len(),
{
    if s.len() == 0 {
        None
    } else if s[0] == '"' {
        Some(0)
    } else if s[0] == '\\' {
        if s.len() < 2 {
            None
        } else {
            match scan_quote(s.skip(2)) {
                Some(k) => Some(k + 2),
                None => None,
            }
        }
    } else {
        match scan_quote(s.skip(1)) {
            Some(k) => Some(k + 1),
            None => None,
        }
    }
}

/// No hex digit terminates a string literal or opens an escape.
proof fn lemma_hex_digit_plain(d: nat)
    ensures
        hex_digit(d) != '"',
        hex_digit(d) != '\\',
{
}

/// The scanner walks over a whole escaped string and stops exactly at
/// the quote that follows it.
pub proof fn lemma_scan_over_escaped(name: Seq<char>, tail: Seq<char>)
    requires
        tail.len() > 0,
        tail[0] == '"',
    ensures
        scan_quote(esc_str(name) + tail) == Some(esc_str(name).len() as int),
    decreases name.len(),
{
    if name.len() == 0 {
        assert(esc_str(name) + tail =~= tail);
    } else {
        let c = name[0];
        let rest = esc_str(name.skip(1));
        lemma_scan_over_escaped(name.skip(1), tail);
        let s = esc_str(name) + tail;
        assert(s =~= esc_char(c) + (rest + tail));
        if c == '"' || c == '\\' || c == '\u{8}' || c == '\u{9}' || c == '\u{a}' || c == '\u{c}'
            || c == '\u{d}' {
            assert(s[0] == '\\');
            assert(s.skip(2) =~= rest + tail);
            assert(scan_quote(s.skip(2)) == Some(rest.len() as int));
            assert(scan_quote(s) == Some((rest.len() + 2) as int));
            assert(esc_str(name).len() == 2 + rest.len());
        } else if (c as u32) < 32 {
            assert(s[0] == '\\');
            let h1 = hex_digit(((c as u32) / 16) as nat);
            let h2 = hex_digit(((c as u32) % 16) as nat);
            lemma_hex_digit_plain(((c as u32) / 16) as nat);
            lemma_hex_digit_plain(((c as u32) % 16) as nat);
            let x0 = s.skip(2);
            let x1 = x0.skip(1);
            let x2 = x1.skip(1);
            let x3 = x2.skip(1);
            let x4 = x3.skip(1);
            assert(x0 =~= seq!['0', '0', h1, h2] + (rest + tail));
            assert(x1 =~= seq!['0', h1, h2] + (rest + tail));
            assert(x2 =~= seq![h1, h2] + (rest + tail));
            assert(x3 =~= seq![h2] + (rest + tail));
            assert(x4 =~= rest + tail);
            assert(scan_quote(x4) == Some(rest.len() as int));
            assert(x3[0] == h2 && x3[0] != '"' && x3[0] != '\\');
            assert(scan_quote(x3) == Some((rest.len() + 1) as int));
            assert(x2[0] == h1 && x2[0] != '"' && x2[0] != '\\');
            assert(scan_quote(x2) == Some((rest.len() + 2) as int));
            assert(x1[0] == '0');
            assert(scan_quote(x1) == Some((rest.len() + 3) as int));
            assert(x0[0] == '0');
            assert(scan_quote(x0) == Some((rest.len() + 4) as int));
            assert(scan_quote(s) == Some((rest.len() + 6) as int));
            assert(esc_str(name).len() == 6 + rest.len());
        } else {
            assert(s[0] == c && c != '"' && c != '\\');
            assert(s.skip(1) =~= rest + tail);
            assert(scan_quote(s.skip(1)) == Some(rest.len() as int));
            assert(scan_quote(s) == Some((rest.len() + 1) as int));
            assert(esc_str(name).len() == 1 + rest.len());
        }
    }
}

} // verus!

verus! {

fn hex_val_exec(c: char) -> (r: u32)
    ensures
        r == hex_val(c),
{
    if c == '0' {
        0
    } else if c == '1' {
        1
    } else if c == '2' {
        2
    } else if c == '3' {
        3
    } else if c == '4' {
        4
    } else if c == '5' {
        5
    } else if c == '6' {
        6
    } else if c == '7' {
        7
    } else if c == '8' {
        8
    } else if c == '9' {
        9
    } else if c == 'a' {
        10
    } else if c == 'b' {
        11
    } else if c == 'c' {
        12
    } else if c == 'd' {
        13
    } else if c == 'e' {
        14
    } else if c == 'f' {
        15
    } else {
        16
    }
}

/// Finds the first quote at or after `from` that no escape consumes.
fn scan_quote_from(s: &Vec<char>, from: usize) -> (r: Option<usize>)
    requires
        from <= s@.len(),
    ensures
        match r {
            Some(k) => from <= k < s@.len() && scan_quote(s@.skip(from as int)) == Some(
                k - from as int,
            ),
            None => scan_quote(s@.skip(from as int)) is None,
        },
    decreases s@.len() - from,
{
    if from == s.len() {
        proof {
            assert(s@.skip(from as int) =~= Seq::<char>::empty());
        }
        return None;
    }
    let c = s[from];
    proof {
        assert(s@.skip(from as int)[0] == s@[from as int]);
    }
    if c == '"' {
        return Some(from);
    }
    if c == '\\' {
        if from + 1 == s.len() {
            return None;
        }
        proof {
            assert(s@.skip(from as int).skip(2) =~= s@.skip(from + 2));
        }
        match scan_quote_from(s, from + 2) {
            Some(k) => Some(k),
            None => None,
        }
    } else {
        proof {
            assert(s@.skip(from as int).skip(1) =~= s@.skip(from + 1));
        }
        match scan_quote_from(s, from + 1) {
            Some(k) => Some(k),
            None => None,
        }
    }
}

/// Reads the canonical escapes from position `from` to the end of `s`.
fn unesc_from(s: &Vec<char>, from: usize) -> (r: Option<Vec<char>>)
    requires
        from <= s@.len(),
    ensures
        match r {
            Some(t) => unesc(s@.skip(from as int)) == Some(t@),
            None => unesc(s@.skip(from as int)) is None,
        },
    decreases s@.len() - from,
{
    if from == s.len() {
        proof {
            assert(s@.skip(from as int) =~= Seq::<char>::empty());
        }
        return Some(Vec::new());
    }
    let ghost su = s@.skip(from as int);
    let c = s[from];
    proof {
        assert(su[0] == s@[from as int]);
    }
    if c == '\\' {
        if from + 1 == s.len() {
            return None;
        }
        let e = s[from + 1];
        proof {
            assert(su[1] == s@[from + 1]);
        }
        if e == '"' || e == '\\' || e == 'b' || e == 't' || e == 'n' || e == 'f' || e == 'r' {
            let c2: char = if e == '"' {
                '"'
            } else if e == '\\' {
                '\\'
            } else if e == 'b' {
                '\u{8}'
            } else if e == 't' {
                '\u{9}'
            } else if e == 'n' {
                '\u{a}'
            } else if e == 'f' {
                '\u{c}'
            } else {
                '\u{d}'
            };
            proof {
                assert(su.skip(2) =~= s@.skip(from + 2));
            }
            match unesc_from(s, from + 2) {
                Some(t) => {
                    let mut t2 = t;
                    t2.insert(0, c2);
                    proof {
                        assert(t2@ =~= seq![c2] + unesc(s@.skip(from + 2))->Some_0);
                    }
                    Some(t2)
                },
                None => None,
            }
        } else if e == 'u' {
            if s.len() - from < 6 {
                proof {
                    if su.len() >= 6 {
                        assert(false);
                    }
                }
                return None;
            }
            proof {
                assert(su[2] == s@[from + 2] && su[3] == s@[from + 3] && su[4] == s@[from + 4]
                    && su[5] == s@[from + 5]);
            }
            if s[from + 2] != '0' || s[from + 3] != '0' {
                return None;
            }
            let h1 = hex_val_exec(s[from + 4]);
            let h2 = hex_val_exec(s[from + 5]);
            if h1 >= 16 || h2 >= 16 {
                return None;
            }
            let v = 16 * h1 + h2;
            if v >= 32 || v == 8 || v == 9 || v == 10 || v == 12 || v == 13 {
                return None;
            }
            let c2 = (v as u8) as char;
            proof {
                assert(su.skip(6) =~= s@.skip(from + 6));
            }
            match unesc_from(s, from + 6) {
                Some(t) => {
                    let mut t2 = t;
                    t2.insert(0, c2);
                    proof {
                        assert(t2@ =~= seq![c2] + unesc(s@.skip(from + 6))->Some_0);
                    }
                    Some(t2)
                },
                None => None,
            }
        } else {
            None
        }
    } else if c == '"' {
        None
    } else {
        let u = c as u32;
        if u < 32 {
            return None;
        }
        proof {
            assert(su.skip(1) =~= s@.skip(from + 1));
        }
        match unesc_from(s, from + 1) {
            Some(t) => {
                let mut t2 = t;
                t2.insert(0, c);
                proof {
                    assert(t2@ =~= seq![c] + unesc(s@.skip(from + 1))->Some_0);
                }
                Some(t2)
            },
            None => None,
        }
    }
}

} // verus!

verus! {

/// How a rendered fallback record decomposes: the fixed object frame
/// around the two escaped fields, with the quote scanner stopping
/// exactly at each field's closing quote.
proof fn lemma_render_shape(t: Seq<char>, url: Seq<char>, name: Seq<char>)
    requires
        t == fallback_json_spec(url, name),
    ensures
        t.len() >= 13 && t.take(13) == "{\n  \"name\": \""@,
        scan_quote(t.skip(13)) == Some(esc_str(name).len() as int),
        t.skip(13).take(esc_str(name).len() as int) == esc_str(name),
        ({
            let u2 = t.skip(13).skip(esc_str(name).len() as int);
            &&& u2.len() >= 13 && u2.take(13) == "\",\n  \"url\": \""@
            &&& scan_quote(u2.skip(13)) == Some(esc_str(url).len() as int)
            &&& u2.skip(13).take(esc_str(url).len() as int) == esc_str(url)
            &&& u2.skip(13).skip(esc_str(url).len() as int) == "\"\n}"@
        }),
{
    reveal_strlit("{\n  \"name\": \"");
    reveal_strlit("\",\n  \"url\": \"");
    reveal_strlit("\"\n}");
    let lit1 = "{\n  \"name\": \""@;
    let lit2 = "\",\n  \"url\": \""@;
    let lit3 = "\"\n}"@;
    assert(lit1.len() == 13 && lit2.len() == 13 && lit3.len() == 3);
    let en = esc_str(name);
    let eu = esc_str(url);
    assert(t =~= lit1 + en + (lit2 + eu + lit3));
    assert(t.take(13) =~= lit1);
    assert(t.skip(13) =~= en + (lit2 + eu + lit3));
    assert((lit2 + eu + lit3)[0] == '"');
    lemma_scan_over_escaped(name, lit2 + eu + lit3);
    assert(t.skip(13).take(en.len() as int) =~= en);
    let u2 = t.skip(13).skip(en.len() as int);
    assert(u2 =~= lit2 + eu + lit3);
    assert(u2.take(13) =~= lit2);
    assert(u2.skip(13) =~= eu + lit3);
    assert(lit3[0] == '"');
    lemma_scan_over_escaped(url, lit3);
    assert(u2.skip(13).take(eu.len() as int) =~= eu);
    assert(u2.skip(13).skip(eu.len() as int) =~= lit3);
}

/// The two fields read back from a fallback record.
pub struct FallbackFields {
    /// The recorded remote address.
    pub url: String,
    /// The recorded display name.
    pub name: String,
}

/// Reads a fallback record, accepting exactly the texts that
/// [`render_fallback_record`] writes: a parse returns the one pair of
/// fields whose rendering is this text, and a rejection means no pair
/// renders to it.
pub fn parse_fallback_record(text: &str) -> (r: Option<FallbackFields>)
    ensures
        r matches Some(f) ==> text@ == fallback_json_spec(f.url@, f.name@),
        r is None ==> forall|url: Seq<char>, name: Seq<char>|
            text@ != fallback_json_spec(url, name),
{
    let v = chars_vec(text);
    let lit1 = chars_vec("{\n  \"name\": \"");
    let lit2 = chars_vec("\",\n  \"url\": \"");
    let lit3 = chars_vec("\"\n}");
    proof {
        reveal_strlit("{\n  \"name\": \"");
        reveal_strlit("\",\n  \"url\": \"");
        reveal_strlit("\"\n}");
        assert(lit1@.len() == 13 && lit2@.len() == 13 && lit3@.len() == 3);
    }
    if !crate::urls::starts_with_chars(&v, &lit1) {
        proof {
            assert forall|url: Seq<char>, name: Seq<char>| text@ != fallback_json_spec(
                url,
                name,
            ) by {
                if text@ == fallback_json_spec(url, name) {
                    lemma_render_shape(text@, url, name);
                }
            }
        }
        return None;
    }
    let k1 = match scan_quote_from(&v, 13) {
        Some(k) => k,
        None => {
            proof {
                assert forall|url: Seq<char>, name: Seq<char>| text@ != fallback_json_spec(
                    url,
                    name,
                ) by {
                    if text@ == fallback_json_spec(url, name) {
                        lemma_render_shape(text@, url, name);
                    }
                }
            }
            return None;
        },
    };
    let region1 = crate::urls::slice_from(&v, 13);
    let mut region1 = region1;
    region1.truncate(k1 - 13);
    proof {
        assert(region1@ =~= v@.skip(13).take(k1 - 13 as int));
    }
    let name_chars = match unesc_from(&region1, 0) {
        Some(t) => t,
        None => {
            proof {
                assert(region1@.skip(0) =~= region1@);
                assert forall|url: Seq<char>, name: Seq<char>| text@ != fallback_json_spec(
                    url,
                    name,
                ) by {
                    if text@ == fallback_json_spec(url, name) {
                        lemma_render_shape(text@, url, name);
                        assert(k1 - 13 == esc_str(name).len());
                        assert(region1@ =~= esc_str(name));
                        lemma_escape_roundtrip(name);
                    }
                }
            }
            return None;
        },
    };
    let suffix2 = crate::urls::slice_from(&v, k1);
    if !crate::urls::starts_with_chars(&suffix2, &lit2) {
        proof {
            assert forall|url: Seq<char>, name: Seq<char>| text@ != fallback_json_spec(
                url,
                name,
            ) by {
                if text@ == fallback_json_spec(url, name) {
                    lemma_render_shape(text@, url, name);
                    assert(k1 - 13 == esc_str(name).len());
                    assert(suffix2@ =~= text@.skip(13).skip(esc_str(name).len() as int));
                    assert(suffix2@.take(13) == lit2@);
                }
            }
        }
        return None;
    }
    // The quote found by the scan has the 13-character middle literal
    // after it, so stepping past that literal stays inside.
    let n = v.len();
    proof {
        assert(v@.skip(k1 as int).len() >= 13);
        assert(k1 + 13 <= n);
    }
    let k2 = match scan_quote_from(&v, k1 + 13) {
        Some(k) => k,
        None => {
            proof {
                assert forall|url: Seq<char>, name: Seq<char>| text@ != fallback_json_spec(
                    url,
                    name,
                ) by {
                    if text@ == fallback_json_spec(url, name) {
                        lemma_render_shape(text@, url, name);
                        assert(k1 - 13 == esc_str(name).len());
                        let u2 = text@.skip(13).skip(esc_str(name).len() as int);
                        assert(u2.skip(13) =~= text@.skip(k1 + 13));
                        assert(scan_quote(text@.skip(k1 + 13)) == Some(
                            esc_str(url).len() as int,
                        ));
                    }
                }
            }
            return None;
        },
    };
    let region2 = crate::urls::slice_from(&v, k1 + 13);
    let mut region2 = region2;
    region2.truncate(k2 - (k1 + 13));
    proof {
        assert(region2@ =~= v@.skip(k1 + 13).take(k2 - (k1 + 13) as int));
    }
    let url_chars = match unesc_from(&region2, 0) {
        Some(t) => t,
        None => {
            proof {
                assert(region2@.skip(0) =~= region2@);
                assert forall|url: Seq<char>, name: Seq<char>| text@ != fallback_json_spec(
                    url,
                    name,
                ) by {
                    if text@ == fallback_json_spec(url, name) {
                        lemma_render_shape(text@, url, name);
                        assert(k1 - 13 == esc_str(name).len());
                        let u2 = text@.skip(13).skip(esc_str(name).len() as int);
                        assert(u2.skip(13) =~= text@.skip(k1 + 13));
                        assert(k2 - (k1 + 13) == esc_str(url).len());
                        assert(region2@ =~= esc_str(url));
                        lemma_escape_roundtrip(url);
                    }
                }
            }
            return None;
        },
    };
    let tail = crate::urls::slice_from(&v, k2);
    if !crate::urls::eq_chars(&tail, &lit3) {
        proof {
            assert forall|url: Seq<char>, name: Seq<char>| text@ != fallback_json_spec(
                url,
                name,
            ) by {
                if text@ == fallback_json_spec(url, name) {
                    lemma_render_shape(text@, url, name);
                    assert(k1 - 13 == esc_str(name).len());
                    let u2 = text@.skip(13).skip(esc_str(name).len() as int);
                    assert(u2.skip(13) =~= text@.skip(k1 + 13));
                    assert(k2 - (k1 + 13) == esc_str(url).len());
                    assert(tail@ =~= u2.skip(13).skip(esc_str(url).len() as int));
                }
            }
        }
        return None;
    }
    proof {
        assert(region1@.skip(0) =~= region1@);
        assert(region2@.skip(0) =~= region2@);
        lemma_unesc_canonical(region1@, name_chars@);
        lemma_unesc_canonical(region2@, url_chars@);
        assert(text@ =~= lit1@ + region1@ + lit2@ + region2@ + lit3@) by {
            assert(v@.skip(k1 as int).take(13) =~= lit2@);
        }
        assert(text@ =~= fallback_json_spec(url_chars@, name_chars@));
    }
    Some(
        FallbackFields {
            url: chars_to_string(&url_chars),
            name: chars_to_string(&name_chars),
        },
    )
}

} // verus!
