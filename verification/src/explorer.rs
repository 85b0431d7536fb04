//! Telling which open file-manager window already shows a folder, so that the folder is brought
//! to the front instead of opened once more.
use vstd::prelude::*;
use vstd::utf8::{valid_utf8, decode_utf8, encode_utf8, encode_scalar, has_width_1_encoding, leading_byte_width_1};
use crate::template::{is_sep, trim_end_seps};
use crate::text::{chars_of, string_of, lowercase, to_lowercase, starts_with_chars, is_ascii_text, ascii_lower};

verus! {

/// `s` without a leading `\\?\` (the form `canonicalize` gives on Windows).
pub open spec fn strip_verbatim(s: Seq<char>) -> Seq<char> {
    let p = seq!['\\', '\\', '?', '\\'];
    if p.len() <= s.len() && s.take(4) == p {
        s.skip(4)
    } else {
        s
    }
}

/// A path in the form in which two spellings of one folder compare equal: without `\\?\`,
/// without separators at the end, lower-cased.
pub open spec fn comparable_form(s: Seq<char>) -> Seq<char> {
    lowercase(trim_end_seps(strip_verbatim(s)))
}

/// Two spellings of one folder compare equal: the `\\?\` prefix and separators at the end
/// make no difference (for a path that does not itself start with `\\?\`, and one long
/// enough that a separator added at its end cannot complete that prefix).
pub proof fn lemma_comparable_ignores_prefix_and_trailing(p: Seq<char>, sep: char)
    requires
        is_sep(sep),
    ensures
        !(p.len() >= 4 && p.take(4) == seq!['\\', '\\', '?', '\\'])
            ==> comparable_form(seq!['\\', '\\', '?', '\\'] + p) == comparable_form(p),
        p.len() >= 4 ==> comparable_form(p.push(sep)) == comparable_form(p),
{
    let v = seq!['\\', '\\', '?', '\\'];
    assert((v + p).take(4) =~= v);
    assert((v + p).skip(4) =~= p);
    if p.len() >= 4 {
        assert(p.push(sep).take(4) =~= p.take(4));
        if p.take(4) == v {
            assert(p.push(sep).skip(4) =~= p.skip(4).push(sep));
            assert(p.skip(4).push(sep).drop_last() =~= p.skip(4));
        } else {
            assert(p.push(sep).drop_last() =~= p);
        }
    }
}

/// The form of `path` used to compare it with another.
pub fn comparable(path: &str) -> (r: String)
    ensures
        r@ == comparable_form(path@),
        is_ascii_text(path@) ==> r@ == trim_end_seps(strip_verbatim(path@)).map_values(
            |c: char| ascii_lower(c),
        ),
{
    let cs = chars_of(path);
    let mut p: Vec<char> = Vec::new();
    p.push('\\');
    p.push('\\');
    p.push('?');
    p.push('\\');
    let start: usize = if starts_with_chars(&cs, &p) { 4 } else { 0 };
    assert(p@ =~= seq!['\\', '\\', '?', '\\']);
    let mut end = cs.len();
    let ghost st = strip_verbatim(cs@);
    assert(st =~= cs@.subrange(start as int, cs@.len() as int));
    assert(st.take(st.len() as int) =~= st);
    while end > start && (cs[end - 1] == '\\' || cs[end - 1] == '/')
        invariant
            start <= end <= cs.len(),
            st == cs@.subrange(start as int, cs@.len() as int),
            trim_end_seps(st.take(end - start)) == trim_end_seps(st),
        decreases end,
    {
        assert(st.take(end - start - 1) =~= st.take(end - start).drop_last());
        end -= 1;
    }
    let mut kept: Vec<char> = Vec::new();
    let mut i = start;
    while i < end
        invariant
            start <= i <= end <= cs.len(),
            kept@ == cs@.subrange(start as int, i as int),
        decreases end - i,
    {
        kept.push(cs[i]);
        i += 1;
    }
    assert(kept@ =~= st.take(end - start));
    assert(trim_end_seps(kept@) == kept@);
    assert(is_ascii_text(path@) ==> is_ascii_text(kept@)) by {
        if is_ascii_text(path@) {
            assert forall|k: int| 0 <= k < kept@.len() implies (#[trigger] kept@[k] as u32) < 128 by {
                assert(kept@[k] == cs@[start + k]);
            }
        }
    }
    let s = string_of(&kept);
    to_lowercase(s.as_str())
}

/// Whether `c` is a digit in base 16.
pub open spec fn is_hex(c: char) -> bool {
    ('0' <= c <= '9') || ('a' <= c <= 'f') || ('A' <= c <= 'F')
}

pub open spec fn hex_value(c: char) -> int {
    if '0' <= c <= '9' {
        (c as u32) - ('0' as u32)
    } else if 'a' <= c <= 'f' {
        (c as u32) - ('a' as u32) + 10
    } else {
        (c as u32) - ('A' as u32) + 10
    }
}

/// What `u8::from_str_radix(s, 16)` gives for a string of at most two characters: an optional
/// `+` followed by one or two hexadecimal digits.
pub open spec fn radix16(s: Seq<char>) -> Option<u8> {
    if s.len() == 1 && is_hex(s[0]) {
        Some(hex_value(s[0]) as u8)
    } else if s.len() == 2 && s[0] == '+' && is_hex(s[1]) {
        Some(hex_value(s[1]) as u8)
    } else if s.len() == 2 && is_hex(s[0]) && is_hex(s[1]) {
        Some((16 * hex_value(s[0]) + hex_value(s[1])) as u8)
    } else {
        None
    }
}

fn hex_digit(c: char) -> (r: Option<u8>)
    ensures
        r is Some <==> is_hex(c),
        r matches Some(v) ==> v == hex_value(c),
{
    if '0' <= c && c <= '9' {
        Some(((c as u32) - ('0' as u32)) as u8)
    } else if 'a' <= c && c <= 'f' {
        Some(((c as u32) - ('a' as u32) + 10) as u8)
    } else if 'A' <= c && c <= 'F' {
        Some(((c as u32) - ('A' as u32) + 10) as u8)
    } else {
        None
    }
}

/// Reads a string of at most two characters as `u8::from_str_radix(s, 16)` does: an optional `+`
/// and then one or two hexadecimal digits.
fn parse_hex_byte(s: &str) -> (r: Option<u8>)
    requires
        s@.len() <= 2,
    ensures
        r == radix16(s@),
{
    let cs = chars_of(s);
    if cs.len() == 1 {
        hex_digit(cs[0])
    } else if cs.len() == 2 {
        if cs[0] == '+' {
            hex_digit(cs[1])
        } else {
            match (hex_digit(cs[0]), hex_digit(cs[1])) {
                (Some(h), Some(l)) => Some(16 * h + l),
                _ => None,
            }
        }
    } else {
        None
    }
}

/// std `str::from_utf8`. Trusted: the bytes give a string exactly when they are valid UTF-8,
/// and then the string is their decoding.
#[verifier::external_body]
fn str_from_utf8(b: &[u8]) -> (r: Option<&str>)
    ensures
        r is Some <==> valid_utf8(b@),
        r matches Some(s) ==> s@ == decode_utf8(b@),
{
    std::str::from_utf8(b).ok()
}

/// std `String::from_utf8`. Trusted: the bytes give a string exactly when they are valid
/// UTF-8, and then the string is their decoding.
#[verifier::external_body]
fn string_from_utf8(b: Vec<u8>) -> (r: Option<String>)
    ensures
        r is Some <==> valid_utf8(b@),
        r matches Some(s) ==> s@ == decode_utf8(b@),
{
    String::from_utf8(b).ok()
}

pub open spec fn prepend(b: u8, r: Option<Seq<u8>>) -> Option<Seq<u8>> {
    match r {
        Some(s) => Some(seq![b] + s),
        None => None,
    }
}

/// Percent-decoding of the bytes of a `file:` URL, `/` turned into `\`. A `%` with two more
/// bytes after it that are not valid UTF-8 makes the whole decoding fail; a `%` followed by
/// something that is not a byte in base 16 is kept as it is.
pub open spec fn pct_decode(b: Seq<u8>) -> Option<Seq<u8>>
    decreases b.len(),
{
    if b.len() == 0 {
        Some(Seq::empty())
    } else if b[0] == 0x25u8 && b.len() > 2 {
        let pair = b.subrange(1, 3);
        if !valid_utf8(pair) {
            None
        } else {
            match radix16(decode_utf8(pair)) {
                Some(v) => prepend(v, pct_decode(b.skip(3))),
                None => prepend(b[0], pct_decode(b.skip(1))),
            }
        }
    } else {
        prepend(if b[0] == 0x2fu8 { 0x5cu8 } else { b[0] }, pct_decode(b.skip(1)))
    }
}

/// The folder path a `file:///` URL names, if it names one.
pub open spec fn url_path(url: Seq<char>) -> Option<Seq<char>> {
    let p = "file:///"@;
    if p.len() <= url.len() && url.take(p.len() as int) == p {
        match pct_decode(encode_utf8(url.skip(p.len() as int))) {
            Some(out) => if valid_utf8(out) { Some(decode_utf8(out)) } else { None },
            None => None,
        }
    } else {
        None
    }
}

pub open spec fn opt_view(r: Option<String>) -> Option<Seq<char>> {
    match r {
        Some(s) => Some(s@),
        None => None,
    }
}

/// Turns a `file:///C:/dir/%E8%AA%BF%E6%9F%BB` URL back into the path `C:\dir\調査`; `None` for
/// any other kind of location (a control panel, say).
pub fn url_to_path(url: &str) -> (r: Option<String>)
    ensures
        opt_view(r) == url_path(url@),
{
    proof {
        reveal_strlit("file:///");
    }
    let cs = chars_of(url);
    let prefix = chars_of("file:///");
    if !starts_with_chars(&cs, &prefix) {
        return None;
    }
    let mut rest_chars: Vec<char> = Vec::new();
    let mut k = prefix.len();
    while k < cs.len()
        invariant
            prefix.len() <= k <= cs.len(),
            rest_chars@ == cs@.subrange(prefix@.len() as int, k as int),
        decreases cs.len() - k,
    {
        rest_chars.push(cs[k]);
        k += 1;
    }
    let rest = string_of(&rest_chars);
    let bytes = rest.as_str().as_bytes();
    let ghost b = bytes@;
    assert(b == encode_utf8(url@.skip(8)));
    let mut out: Vec<u8> = Vec::new();
    let mut i: usize = 0;
    assert(b.skip(0) =~= b);
    assert(url@.take(8) == "file:///"@) by {
        assert(prefix@ == "file:///"@);
    }
    assert(url_path(url@) == (match pct_decode(b) {
        Some(o) => if valid_utf8(o) { Some(decode_utf8(o)) } else { None },
        None => None,
    }));
    proof {
        if pct_decode(b) is Some {
            assert(Seq::<u8>::empty() + pct_decode(b)->0 =~= pct_decode(b)->0);
        }
    }
    while i < bytes.len()
        invariant
            i <= bytes.len(),
            b == bytes@,
            url_path(url@) == (match pct_decode(b) {
                Some(o) => if valid_utf8(o) { Some(decode_utf8(o)) } else { None },
                None => None,
            }),
            pct_decode(b) == (match pct_decode(b.skip(i as int)) {
                Some(r) => Some(out@ + r),
                None => None,
            }),
        decreases bytes.len() - i,
    {
        let ghost t = b.skip(i as int);
        if bytes[i] == 0x25u8 && bytes.len() - i > 2 {
            let mut pair: Vec<u8> = Vec::new();
            pair.push(bytes[i + 1]);
            pair.push(bytes[i + 2]);
            assert(pair@ =~= t.subrange(1, 3));
            match str_from_utf8(pair.as_slice()) {
                None => {
                    assert(pct_decode(t) is None);
                    return None;
                },
                Some(hex) => {
                    proof {
                        vstd::utf8::decode_utf8_encode_utf8(pair@);
                    }
                    assert(hex@.len() <= 2) by {
                        lemma_decode_len(pair@);
                    }
                    match parse_hex_byte(hex) {
                        Some(v) => {
                            assert(t.skip(3) =~= b.skip(i + 3));
                            assert(out@.push(v) + pct_decode(b.skip(i + 3))->0 =~= out@ + (seq![v] + pct_decode(b.skip(i + 3))->0));
                            out.push(v);
                            i += 3;
                            continue;
                        },
                        None => {},
                    }
                },
            }
            assert(t.skip(1) =~= b.skip(i + 1));
        } else {
            assert(t.skip(1) =~= b.skip(i + 1));
        }
        let c = if bytes[i] == 0x2fu8 { 0x5cu8 } else { bytes[i] };
        out.push(c);
        proof {
            if pct_decode(b.skip(i + 1)) is Some {
                assert(out@ + pct_decode(b.skip(i + 1))->0 =~= (out@.drop_last()) + (seq![c] + pct_decode(b.skip(i + 1))->0));
            }
        }
        i += 1;
    }
    assert(b.skip(i as int) =~= Seq::<u8>::empty());
    assert(out@ + Seq::<u8>::empty() =~= out@);
    string_from_utf8(out)
}

/// The byte a `file:` URL's separator becomes in a path: `/` turns into `\`.
pub open spec fn path_byte(b: u8) -> u8 {
    if b == 0x2fu8 { 0x5cu8 } else { b }
}

/// The character a `file:` URL's separator becomes in a path: `/` turns into `\`.
pub open spec fn path_char(c: char) -> char {
    if c == '/' { '\\' } else { c }
}

pub open spec fn glue(pre: Seq<u8>, r: Option<Seq<u8>>) -> Option<Seq<u8>> {
    match r {
        Some(s) => Some(pre + s),
        None => None,
    }
}

proof fn lemma_high_bytes(x: u8)
    ensures
        0xC0u8 | x >= 0x80,
        0xE0u8 | x >= 0x80,
        0xF0u8 | x >= 0x80,
        0x80u8 | x >= 0x80,
{
    assert(0xC0u8 | x >= 0x80) by (bit_vector);
    assert(0xE0u8 | x >= 0x80) by (bit_vector);
    assert(0xF0u8 | x >= 0x80) by (bit_vector);
    assert(0x80u8 | x >= 0x80) by (bit_vector);
}

/// The UTF-8 bytes of a character other than `%` hold no `%`, and mapping `/` to `\` on them is
/// the encoding of the character so mapped.
proof fn lemma_scalar_bytes(c: char)
    requires
        c != '%',
    ensures
        forall|k: int| 0 <= k < encode_scalar(c as u32).len() ==> #[trigger] encode_scalar(c as u32)[k] != 0x25u8,
        encode_scalar(c as u32).map_values(|b: u8| path_byte(b)) == encode_scalar(path_char(c) as u32),
{
    let u = c as u32;
    let e = encode_scalar(u);
    if has_width_1_encoding(u) {
        assert(leading_byte_width_1(u) == u as u8) by (bit_vector)
            requires
                u <= 0x7f,
        ;
        assert(e =~= seq![u as u8]);
        if c == '/' {
            assert(('\\' as u32) == 0x5c);
            assert(leading_byte_width_1(0x5c) == 0x5cu8) by (bit_vector);
            assert(e.map_values(|b: u8| path_byte(b)) =~= encode_scalar(path_char(c) as u32));
        } else {
            assert(e.map_values(|b: u8| path_byte(b)) =~= e);
        }
    } else {
        lemma_high_bytes(((u >> 6) & 0x1F) as u8);
        lemma_high_bytes(((u >> 12) & 0x0F) as u8);
        lemma_high_bytes(((u >> 18) & 0x7) as u8);
        lemma_high_bytes((u & 0x3F) as u8);
        lemma_high_bytes(((u >> 6) & 0x3F) as u8);
        lemma_high_bytes(((u >> 12) & 0x3F) as u8);
        assert forall|k: int| 0 <= k < e.len() implies #[trigger] e[k] >= 0x80 by {}
        assert(e.map_values(|b: u8| path_byte(b)) =~= e);
    }
}

/// Percent-decoding bytes that hold no `%` only turns `/` into `\`.
proof fn lemma_decode_plain_bytes(b1: Seq<u8>, b2: Seq<u8>)
    requires
        forall|k: int| 0 <= k < b1.len() ==> #[trigger] b1[k] != 0x25u8,
    ensures
        pct_decode(b1 + b2) == glue(b1.map_values(|b: u8| path_byte(b)), pct_decode(b2)),
    decreases b1.len(),
{
    if b1.len() == 0 {
        assert(b1 + b2 =~= b2);
        assert(b1.map_values(|b: u8| path_byte(b)) + pct_decode(b2)->0 =~= pct_decode(b2)->0);
    } else {
        let rest = b1.skip(1);
        assert forall|k: int| 0 <= k < rest.len() implies #[trigger] rest[k] != 0x25u8 by {
            assert(rest[k] == b1[k + 1]);
        }
        lemma_decode_plain_bytes(rest, b2);
        assert((b1 + b2).skip(1) =~= rest + b2);
        assert((b1 + b2)[0] == b1[0]);
        let m = b1.map_values(|b: u8| path_byte(b));
        assert(m =~= seq![path_byte(b1[0])] + rest.map_values(|b: u8| path_byte(b)));
        if pct_decode(rest + b2) is Some {
            assert(seq![path_byte(b1[0])] + (rest.map_values(|b: u8| path_byte(b)) + pct_decode(b2)->0)
                =~= m + pct_decode(b2)->0);
        }
    }
}

/// The UTF-8 bytes of a text without `%` percent-decode to the bytes of the text with `/` turned
/// into `\`.
proof fn lemma_decode_plain_text(t: Seq<char>)
    requires
        forall|k: int| 0 <= k < t.len() ==> #[trigger] t[k] != '%',
    ensures
        pct_decode(encode_utf8(t)) == Some(encode_utf8(t.map_values(|c: char| path_char(c)))),
    decreases t.len(),
{
    if t.len() == 0 {
        assert(t.map_values(|c: char| path_char(c)) =~= Seq::<char>::empty());
    } else {
        let rest = t.drop_first();
        assert forall|k: int| 0 <= k < rest.len() implies #[trigger] rest[k] != '%' by {
            assert(rest[k] == t[k + 1]);
        }
        lemma_decode_plain_text(rest);
        lemma_scalar_bytes(t[0]);
        lemma_decode_plain_bytes(encode_scalar(t[0] as u32), encode_utf8(rest));
        let m = t.map_values(|c: char| path_char(c));
        assert(m[0] == path_char(t[0]));
        assert(m.drop_first() =~= rest.map_values(|c: char| path_char(c)));
    }
}

/// A `file:///` URL without `%` names the path that follows the scheme with each `/` turned into
/// `\`; a location that is not a `file:///` URL names no path.
pub proof fn lemma_plain_file_url(rest: Seq<char>, other: Seq<char>)
    requires
        forall|k: int| 0 <= k < rest.len() ==> #[trigger] rest[k] != '%',
    ensures
        url_path("file:///"@ + rest) == Some(rest.map_values(|c: char| path_char(c))),
        !("file:///"@.len() <= other.len() && other.take(8) == "file:///"@) ==> url_path(other) is None,
{
    reveal_strlit("file:///");
    let url = "file:///"@ + rest;
    assert(url.take(8) =~= "file:///"@);
    assert(url.skip(8) =~= rest);
    lemma_decode_plain_text(rest);
    let m = rest.map_values(|c: char| path_char(c));
    vstd::utf8::encode_utf8_valid_utf8(m);
    vstd::utf8::encode_utf8_decode_utf8(m);
}

/// Decoding UTF-8 never yields more characters than there were bytes.
pub proof fn lemma_decode_len(b: Seq<u8>)
    requires
        valid_utf8(b),
    ensures
        decode_utf8(b).len() <= b.len(),
    decreases b.len(),
{
    if b.len() > 0 {
        let rest = vstd::utf8::pop_first_scalar(b);
        assert(rest.len() < b.len()) by {
            assert(vstd::utf8::length_of_first_scalar(b) >= 1);
        }
        lemma_decode_len(rest);
    }
}

/// Whether a window whose location is `url` shows the folder `target`.
pub open spec fn shows(url: Option<String>, target: Seq<char>) -> bool {
    url matches Some(u) && (url_path(u@) matches Some(p) && comparable_form(p) == comparable_form(target))
}

/// Among the open file-manager windows, given by their locations in the order the shell lists
/// them (`None` where a location could not be read), the first that shows the folder `target`;
/// the caller brings that window to the front, and opens a new one when there is none.
pub fn focus_existing_window(target: &str, window_urls: &Vec<Option<String>>) -> (r: Option<usize>)
    ensures
        r matches Some(i) ==> i < window_urls@.len() && shows(window_urls@[i as int], target@) && forall|j: int| 0 <= j < i ==> !shows(#[trigger] window_urls@[j], target@),
        r is None ==> forall|j: int| 0 <= j < window_urls@.len() ==> !shows(#[trigger] window_urls@[j], target@),
{
    let wanted = comparable(target);
    let mut i: usize = 0;
    while i < window_urls.len()
        invariant
            i <= window_urls@.len(),
            wanted@ == comparable_form(target@),
            forall|j: int| 0 <= j < i ==> !shows(#[trigger] window_urls@[j], target@),
        decreases window_urls.len() - i,
    {
        match &window_urls[i] {
            Some(u) => match url_to_path(u.as_str()) {
                Some(p) => {
                    let c = comparable(p.as_str());
                    if c == wanted {
                        return Some(i);
                    }
                },
                None => {},
            },
            None => {},
        }
        i += 1;
    }
    None
}

} // verus!
