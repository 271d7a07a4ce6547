//! File names, human-readable sizes and times, and the other small helpers of
//! the download engine.
use vstd::prelude::*;

use vstd::utf8::{
    decode_utf8, encode_scalar, encode_utf8, has_width_1_encoding, last_continuation_byte,
    leading_byte_width_1, leading_byte_width_2, leading_byte_width_3, leading_byte_width_4,
    second_last_continuation_byte, third_last_continuation_byte, valid_utf8,
};

use crate::sys::{
    decode_lossy, file_name_of, last_dot, name_extension, name_stem, opt_view, parent_of, parse_url, path_exists,
    path_extension, path_file_name, path_file_stem, path_is_dir, path_is_file, path_parent,
    url_parse, utf8_lossy,
};
use crate::text::{
    byte_len, char_width, char_width_exec, chars_of, dec, dec2, is_ws, lemma_byte_len_concat,
    contains_exec, contains_seq, lower_ascii, lower_ascii_vec, owned, push_all, push_char,
    push_dec, push_dec2, split_on, split_vec, string_of, trim, trim_chars, trim_end, trim_start,
    views,
};

verus! {

// ---------------------------------------------------------------------------
// sanitize_filename
// ---------------------------------------------------------------------------

/// Characters that may not appear in a file name and become `_`.
pub open spec fn is_forbidden(c: char) -> bool {
    ||| c == '/'
    ||| c == '\\'
    ||| c == '\0'
    ||| c == ':'
    ||| c == '*'
    ||| c == '?'
    ||| c == '"'
    ||| c == '<'
    ||| c == '>'
    ||| c == '|'
}

/// `char::is_control`: the Unicode `Cc` category.
pub open spec fn is_control(c: char) -> bool {
    (c as u32) <= 0x1f || (0x7f <= (c as u32) && (c as u32) <= 0x9f)
}

pub open spec fn clean_char(c: char) -> char {
    if is_forbidden(c) || is_control(c) {
        '_'
    } else {
        c
    }
}

/// `s` without its leading `/` and `\` characters.
pub open spec fn strip_slashes(s: Seq<char>) -> Seq<char>
    decreases s.len(),
{
    if s.len() > 0 && (s[0] == '/' || s[0] == '\\') {
        strip_slashes(s.drop_first())
    } else {
        s
    }
}

/// The name after trimming, dropping leading slashes and replacing unsafe characters.
pub open spec fn cleaned_name(name: Seq<char>) -> Seq<char> {
    strip_slashes(trim(name)).map_values(|c: char| clean_char(c))
}

/// How many leading characters of `s` fit in `budget` bytes of UTF-8.
pub open spec fn fit_count(s: Seq<char>, budget: nat) -> nat
    decreases s.len(),
{
    if s.len() == 0 || char_width(s[0]) > budget {
        0
    } else {
        1 + fit_count(s.drop_first(), (budget - char_width(s[0])) as nat)
    }
}

/// The longest prefix of `s` that fits in `budget` bytes.
pub open spec fn take_bytes(s: Seq<char>, budget: nat) -> Seq<char> {
    s.take(fit_count(s, budget) as int)
}

/// Cutting the cleaned name to 200 bytes (`String::truncate(200)`) lands on a
/// character boundary; on other names the cut panics.
pub open spec fn sanitize_ok(name: Seq<char>) -> bool {
    let m = cleaned_name(name);
    byte_len(m) <= 200 || byte_len(take_bytes(m, 200)) == 200
}

pub open spec fn fallback_name() -> Seq<char> {
    seq!['d', 'o', 'w', 'n', 'l', 'o', 'a', 'd', '.', 'b', 'i', 'n']
}

/// What `sanitize_filename` returns for `name`.
pub open spec fn sanitize_spec(name: Seq<char>) -> Seq<char> {
    let m = cleaned_name(name);
    let t = if byte_len(m) > 200 {
        take_bytes(m, 200)
    } else {
        m
    };
    if t.len() == 0 {
        fallback_name()
    } else {
        t
    }
}

proof fn lemma_fit_count_bound(s: Seq<char>, budget: nat)
    ensures
        fit_count(s, budget) <= s.len(),
    decreases s.len(),
{
    if s.len() > 0 && char_width(s[0]) <= budget {
        lemma_fit_count_bound(s.drop_first(), (budget - char_width(s[0])) as nat);
    }
}

/// The characters of `name` with all the cleaning applied, and whether the
/// 200-byte cut lands on a boundary, together with the cut result.
fn sanitize_core(name: &str) -> (r: Option<String>)
    ensures
        r is Some <==> sanitize_ok(name@),
        r matches Some(s) ==> s@ == sanitize_spec(name@),
{
    let v = chars_of(name);
    let t = trim_chars(&v);
    // strip leading slashes
    let mut i: usize = 0;
    assert(t@.subrange(0, t.len() as int) == t@);
    while i < t.len() && (t[i] == '/' || t[i] == '\\')
        invariant
            i <= t.len(),
            strip_slashes(t@) == strip_slashes(t@.subrange(i as int, t.len() as int)),
        decreases t.len() - i,
    {
        assert(t@.subrange(i as int, t.len() as int).drop_first() == t@.subrange(
            i + 1,
            t.len() as int,
        ));
        i += 1;
    }
    let ghost stripped = t@.subrange(i as int, t.len() as int);
    assert(strip_slashes(t@) == stripped);
    // clean
    let mut m: Vec<char> = Vec::new();
    let mut k: usize = i;
    while k < t.len()
        invariant
            i <= k <= t.len(),
            stripped == t@.subrange(i as int, t.len() as int),
            m@ == t@.subrange(i as int, k as int).map_values(|c: char| clean_char(c)),
        decreases t.len() - k,
    {
        let c = t[k];
        let is_bad = c == '/' || c == '\\' || c == '\0' || c == ':' || c == '*' || c == '?' || c
            == '"' || c == '<' || c == '>' || c == '|' || (c as u32) <= 0x1f || (0x7f <= (
        c as u32) && (c as u32) <= 0x9f);
        if is_bad {
            m.push('_');
        } else {
            m.push(c);
        }
        assert(t@.subrange(i as int, k + 1) == t@.subrange(i as int, k as int).push(c));
        assert(m@ == t@.subrange(i as int, k + 1).map_values(|c: char| clean_char(c)));
        k += 1;
    }
    assert(m@ == cleaned_name(name@));
    // byte budget
    let mut used: u64 = 0;
    let mut j: usize = 0;
    let mut stopped = false;
    assert(m@.skip(0) == m@);
    while j < m.len() && !stopped
        invariant
            j <= m.len(),
            used <= 200,
            used == byte_len(m@.take(j as int)),
            fit_count(m@, 200) == j + fit_count(m@.skip(j as int), (200 - used) as nat),
            stopped ==> fit_count(m@.skip(j as int), (200 - used) as nat) == 0,
        decreases m.len() - j + (if stopped { 0int } else { 1int }),
    {
        let w = char_width_exec(m[j]);
        assert(m@.skip(j as int)[0] == m@[j as int]);
        if w > 200 - used {
            stopped = true;
        } else {
            assert(m@.skip(j as int).drop_first() == m@.skip(j + 1));
            assert(m@.take(j + 1).drop_last() == m@.take(j as int));
            used = used + w;
            j += 1;
        }
    }
    let ghost taken = take_bytes(m@, 200);
    assert(fit_count(m@, 200) == j);
    assert(taken == m@.take(j as int));
    let cut: Vec<char>;
    if j < m.len() {
        // the cleaned name is longer than what fits in 200 bytes
        proof {
            lemma_byte_len_concat(m@.take(j as int), m@.skip(j as int));
            assert(m@.take(j as int) + m@.skip(j as int) == m@);
            assert(m@.skip(j as int) == seq![m@[j as int]] + m@.skip(j + 1));
            lemma_byte_len_concat(seq![m@[j as int]], m@.skip(j + 1));
            assert(byte_len(seq![m@[j as int]]) == char_width(m@[j as int])) by {
                assert(seq![m@[j as int]].drop_last() == Seq::<char>::empty());
                assert(byte_len(Seq::<char>::empty()) == 0);
                assert(seq![m@[j as int]].last() == m@[j as int]);
            }
        }
        if used != 200 {
            return None;
        }
        let mut out: Vec<char> = Vec::new();
        let mut q: usize = 0;
        while q < j
            invariant
                q <= j <= m.len(),
                out@ == m@.take(q as int),
            decreases j - q,
        {
            out.push(m[q]);
            assert(m@.take(q + 1) == m@.take(q as int).push(m@[q as int]));
            q += 1;
        }
        cut = out;
    } else {
        assert(m@.take(j as int) == m@);
        cut = m;
    }
    assert(cut@ == (if byte_len(cleaned_name(name@)) > 200 {
        take_bytes(cleaned_name(name@), 200)
    } else {
        cleaned_name(name@)
    }));
    if cut.len() == 0 {
        Some(fallback_string())
    } else {
        Some(string_of(&cut))
    }
}

/// Turns `name` into a safe file name: trimmed, without leading slashes, with
/// path separators, reserved and control characters replaced by `_`, cut to
/// 200 bytes, and `download.bin` when nothing is left.
pub fn sanitize_filename(name: &str) -> (r: String)
    requires
        sanitize_ok(name@),
    ensures
        r@ == sanitize_spec(name@),
{
    match sanitize_core(name) {
        Some(s) => s,
        None => {
            assert(false);
            String::new()
        },
    }
}

/// `sanitize_filename` where it returns, and `None` on the names where the
/// 200-byte cut would split a character.
pub fn sanitize_filename_checked(name: &str) -> (r: Option<String>)
    ensures
        r is Some <==> sanitize_ok(name@),
        r matches Some(s) ==> s@ == sanitize_spec(name@),
{
    sanitize_core(name)
}

/// A name made of ASCII characters takes one byte per character.
pub proof fn lemma_byte_len_ascii(s: Seq<char>)
    requires
        forall|i: int| 0 <= i < s.len() ==> (#[trigger] s[i] as u32) < 0x80,
    ensures
        byte_len(s) == s.len(),
    decreases s.len(),
{
    if s.len() > 0 {
        assert forall|i: int| 0 <= i < s.drop_last().len() implies (#[trigger] s.drop_last()[i]
            as u32) < 0x80 by {
            assert(s.drop_last()[i] == s[i]);
        }
        lemma_byte_len_ascii(s.drop_last());
        assert(s.last() == s[s.len() - 1]);
    }
}

/// Every sanitized name is safe to use as a file name: it is not empty, holds no
/// path separator, reserved or control character, and takes at most 200 bytes.
pub proof fn lemma_sanitized_name_is_safe(name: Seq<char>)
    requires
        sanitize_ok(name),
    ensures
        sanitize_spec(name).len() > 0,
        forall|i: int|
            0 <= i < sanitize_spec(name).len() ==> !is_forbidden(#[trigger] sanitize_spec(name)[i])
                && !is_control(sanitize_spec(name)[i]),
        byte_len(sanitize_spec(name)) <= 200,
{
    let m = cleaned_name(name);
    let r = sanitize_spec(name);
    lemma_fit_count_bound(m, 200);
    assert forall|i: int| 0 <= i < m.len() implies !is_forbidden(#[trigger] m[i]) && !is_control(
        m[i],
    ) by {}
    if byte_len(m) > 200 {
        assert(forall|i: int| 0 <= i < take_bytes(m, 200).len() ==> take_bytes(m, 200)[i] == m[i]);
    }
    if r == fallback_name() {
        assert forall|i: int| 0 <= i < r.len() implies (#[trigger] r[i] as u32) < 0x80 by {}
        lemma_byte_len_ascii(r);
    }
}

/// Sanitizing is stable: a sanitized name that neither begins nor ends with
/// whitespace comes back unchanged when sanitized again. (A name such as
/// `"/ a"` sanitizes to `" a"`, whose leading space a second pass trims.)
pub proof fn lemma_sanitize_idempotent(name: Seq<char>)
    requires
        sanitize_ok(name),
        sanitize_spec(name).len() > 0,
        !is_ws(sanitize_spec(name)[0]),
        !is_ws(sanitize_spec(name).last()),
    ensures
        sanitize_ok(sanitize_spec(name)),
        sanitize_spec(sanitize_spec(name)) == sanitize_spec(name),
{
    let r = sanitize_spec(name);
    lemma_sanitized_name_is_safe(name);
    assert(trim_start(r) == r);
    assert(trim_end(r) == r);
    assert(trim(r) == r);
    assert(!is_forbidden(r[0]));
    assert(strip_slashes(r) == r);
    assert(r.map_values(|c: char| clean_char(c)) == r);
    assert(cleaned_name(r) == r);
}

/// Replacing characters by `_` never makes a name longer in bytes.
proof fn lemma_byte_len_clean(t: Seq<char>)
    ensures
        byte_len(t.map_values(|c: char| clean_char(c))) <= byte_len(t),
    decreases t.len(),
{
    if t.len() > 0 {
        let m = t.map_values(|c: char| clean_char(c));
        assert(m.drop_last() == t.drop_last().map_values(|c: char| clean_char(c)));
        lemma_byte_len_clean(t.drop_last());
        assert(m.last() == clean_char(t.last()));
    }
}

/// The first character's bytes and the rest's add up to the whole.
proof fn lemma_byte_len_first(s: Seq<char>)
    requires
        s.len() > 0,
    ensures
        byte_len(s) == char_width(s[0]) + byte_len(s.drop_first()),
{
    lemma_byte_len_concat(seq![s[0]], s.drop_first());
    assert(seq![s[0]] + s.drop_first() == s);
    assert(seq![s[0]].drop_last() == Seq::<char>::empty());
    assert(seq![s[0]].last() == s[0]);
    assert(byte_len(Seq::<char>::empty()) == 0);
    assert(byte_len(seq![s[0]]) == char_width(s[0]));
}

/// A name that fits the budget is kept whole.
proof fn lemma_fit_all(s: Seq<char>, budget: nat)
    requires
        byte_len(s) <= budget,
    ensures
        fit_count(s, budget) == s.len(),
    decreases s.len(),
{
    if s.len() > 0 {
        lemma_byte_len_first(s);
        lemma_fit_all(s.drop_first(), (budget - char_width(s[0])) as nat);
    }
}

/// In an ASCII name every character takes one byte, so the cut keeps
/// `min(len, budget)` characters.
proof fn lemma_fit_ascii(s: Seq<char>, budget: nat)
    requires
        forall|i: int| 0 <= i < s.len() ==> (#[trigger] s[i] as u32) < 0x80,
    ensures
        fit_count(s, budget) == if s.len() < budget {
            s.len()
        } else {
            budget
        },
    decreases s.len(),
{
    if s.len() > 0 && budget > 0 {
        assert forall|i: int| 0 <= i < s.drop_first().len() implies (#[trigger] s.drop_first()[i]
            as u32) < 0x80 by {
            assert(s.drop_first()[i] == s[i + 1]);
        }
        assert((s[0] as u32) < 0x80);
        lemma_fit_ascii(s.drop_first(), (budget - 1) as nat);
    }
}

/// The sanitize law on the names it is safe for: when the trimmed name
/// without leading slashes is ASCII or at most 200 bytes, the 200-byte cut
/// lands on a character boundary, and the result is the cleaned name cut to
/// 200 bytes, or `download.bin` when nothing is left.
pub proof fn lemma_sanitize_ascii_or_short(name: Seq<char>)
    requires
        (forall|i: int|
            0 <= i < strip_slashes(trim(name)).len() ==> (#[trigger] strip_slashes(trim(name))[i]
                as u32) < 0x80) || byte_len(strip_slashes(trim(name))) <= 200,
    ensures
        sanitize_ok(name),
        sanitize_spec(name) == (if cleaned_name(name).len() == 0 {
            fallback_name()
        } else {
            take_bytes(cleaned_name(name), 200)
        }),
{
    let t = strip_slashes(trim(name));
    let m = cleaned_name(name);
    lemma_byte_len_clean(t);
    lemma_fit_count_bound(m, 200);
    if byte_len(t) <= 200 {
        lemma_fit_all(m, 200);
        assert(take_bytes(m, 200) == m);
    } else {
        assert forall|i: int| 0 <= i < m.len() implies (#[trigger] m[i] as u32) < 0x80 by {
            assert((t[i] as u32) < 0x80);
        }
        lemma_byte_len_ascii(m);
        lemma_fit_ascii(m, 200);
        let cut = take_bytes(m, 200);
        assert forall|i: int| 0 <= i < cut.len() implies (#[trigger] cut[i] as u32) < 0x80 by {
            assert(cut[i] == m[i]);
        }
        lemma_byte_len_ascii(cut);
        if byte_len(m) <= 200 {
            assert(cut.len() == m.len());
            assert(cut == m);
        }
    }
}

// ---------------------------------------------------------------------------
// Percent-decoding and file names from URLs
// ---------------------------------------------------------------------------

/// The value of an ASCII hex digit.
pub open spec fn hex_value(b: u8) -> Option<u8> {
    if 48 <= b <= 57 {
        Some((b - 48) as u8)
    } else if 97 <= b <= 102 {
        Some((b - 97 + 10) as u8)
    } else if 65 <= b <= 70 {
        Some((b - 65 + 10) as u8)
    } else {
        None
    }
}

pub fn from_hex(b: u8) -> (r: Option<u8>)
    ensures
        r == hex_value(b),
{
    if 48 <= b && b <= 57 {
        Some(b - 48)
    } else if 97 <= b && b <= 102 {
        Some(b - 97 + 10)
    } else if 65 <= b && b <= 70 {
        Some(b - 65 + 10)
    } else {
        None
    }
}

/// The bytes after replacing each `%XY` (two hex digits) by the byte `0xXY`;
/// a `%` not followed by two hex digits stays as it is.
pub open spec fn percent_decode_bytes(b: Seq<u8>) -> Seq<u8>
    decreases b.len(),
{
    if b.len() == 0 {
        Seq::empty()
    } else if b[0] == 37 && 2 < b.len() && hex_value(b[1]) is Some && hex_value(b[2]) is Some {
        seq![(hex_value(b[1])->0 * 16 + hex_value(b[2])->0) as u8] + percent_decode_bytes(
            b.skip(3),
        )
    } else {
        seq![b[0]] + percent_decode_bytes(b.skip(1))
    }
}

/// Reading bytes as UTF-8 the way `String::from_utf8_lossy` does: valid UTF-8
/// decodes unchanged, a single non-ASCII byte gives U+FFFD, and other invalid
/// bytes give what `utf8_lossy` names.
pub open spec fn lossy_decode(b: Seq<u8>) -> Seq<char> {
    if valid_utf8(b) {
        decode_utf8(b)
    } else if b.len() == 1 && b[0] >= 0x80 {
        seq!['\u{FFFD}']
    } else {
        utf8_lossy(b)
    }
}

/// What `percent_decode` returns for `s`: the decoded bytes read as UTF-8,
/// invalid sequences replaced.
pub open spec fn percent_decode_spec(s: Seq<char>) -> Seq<char> {
    lossy_decode(percent_decode_bytes(encode_utf8(s)))
}

/// Bytes without a `%` pass through percent-decoding unchanged.
proof fn lemma_percent_decode_bytes_plain(b: Seq<u8>)
    requires
        forall|i: int| 0 <= i < b.len() ==> #[trigger] b[i] != 37,
    ensures
        percent_decode_bytes(b) == b,
    decreases b.len(),
{
    if b.len() > 0 {
        assert forall|i: int| 0 <= i < b.skip(1).len() implies #[trigger] b.skip(1)[i] != 37 by {
            assert(b.skip(1)[i] == b[i + 1]);
        }
        lemma_percent_decode_bytes_plain(b.skip(1));
        assert(seq![b[0]] + b.skip(1) == b);
    }
}

/// The UTF-8 encoding of a character other than `%` holds no `%` byte.
proof fn lemma_scalar_no_percent(c: char)
    requires
        c != '%',
    ensures
        forall|i: int|
            0 <= i < encode_scalar(c as u32).len() ==> #[trigger] encode_scalar(c as u32)[i] != 37,
{
    let v = c as u32;
    vstd::utf8::char_is_scalar(c);
    assert(v != 37);
    if has_width_1_encoding(v) {
        assert(leading_byte_width_1(v) != 37) by (bit_vector)
            requires
                v <= 0x7f,
                v != 37,
        ;
    } else {
        assert(leading_byte_width_2(v) != 37) by (bit_vector);
        assert(leading_byte_width_3(v) != 37) by (bit_vector);
        assert(leading_byte_width_4(v) != 37) by (bit_vector);
        assert(last_continuation_byte(v) != 37) by (bit_vector);
        assert(second_last_continuation_byte(v) != 37) by (bit_vector);
        assert(third_last_continuation_byte(v) != 37) by (bit_vector);
    }
}

/// The UTF-8 encoding of text without `%` holds no `%` byte.
proof fn lemma_encode_no_percent(s: Seq<char>)
    requires
        !s.contains('%'),
    ensures
        forall|i: int| 0 <= i < encode_utf8(s).len() ==> #[trigger] encode_utf8(s)[i] != 37,
    decreases s.len(),
{
    if s.len() > 0 {
        assert(s[0] != '%');
        lemma_scalar_no_percent(s[0]);
        assert(!s.drop_first().contains('%')) by {
            if s.drop_first().contains('%') {
                let k = choose|k: int| 0 <= k < s.drop_first().len() && s.drop_first()[k] == '%';
                assert(s[k + 1] == '%');
            }
        }
        lemma_encode_no_percent(s.drop_first());
        let a = encode_scalar(s[0] as u32);
        let b = encode_utf8(s.drop_first());
        assert(encode_utf8(s) == a + b);
        assert forall|i: int| 0 <= i < encode_utf8(s).len() implies #[trigger] encode_utf8(s)[i]
            != 37 by {
            if i < a.len() {
                assert(encode_utf8(s)[i] == a[i]);
            } else {
                assert(encode_utf8(s)[i] == b[i - a.len()]);
            }
        }
    }
}

/// Text without `%` comes out of percent-decoding unchanged.
pub proof fn lemma_percent_decode_plain(s: Seq<char>)
    requires
        !s.contains('%'),
    ensures
        percent_decode_spec(s) == s,
{
    lemma_encode_no_percent(s);
    lemma_percent_decode_bytes_plain(encode_utf8(s));
    vstd::utf8::encode_utf8_valid_utf8(s);
    vstd::utf8::encode_utf8_decode_utf8(s);
}

pub fn percent_decode(s: &str) -> (r: String)
    ensures
        r@ == percent_decode_spec(s@),
        !s@.contains('%') ==> r@ == s@,
{
    let bytes = s.as_bytes();
    let mut out: Vec<u8> = Vec::new();
    let mut i: usize = 0;
    assert(bytes@.skip(0) == bytes@);
    while i < bytes.len()
        invariant
            i <= bytes.len(),
            bytes@ == encode_utf8(s@),
            out@ + percent_decode_bytes(bytes@.skip(i as int)) == percent_decode_bytes(bytes@),
        decreases bytes.len() - i,
    {
        let ghost rest = bytes@.skip(i as int);
        assert(rest[0] == bytes@[i as int]);
        if bytes[i] == 37 && bytes.len() - i > 2 {
            assert(rest[1] == bytes@[i + 1]);
            assert(rest[2] == bytes@[i + 2]);
            match (from_hex(bytes[i + 1]), from_hex(bytes[i + 2])) {
                (Some(h), Some(l)) => {
                    let v: u8 = h * 16 + l;
                    assert(rest.skip(3) == bytes@.skip(i + 3));
                    out.push(v);
                    assert(out@ + percent_decode_bytes(bytes@.skip(i + 3)) == percent_decode_bytes(
                        bytes@,
                    ));
                    i += 3;
                    continue ;
                },
                _ => {},
            }
        }
        assert(rest.skip(1) == bytes@.skip(i + 1));
        out.push(bytes[i]);
        assert(out@ + percent_decode_bytes(bytes@.skip(i + 1)) == percent_decode_bytes(bytes@));
        i += 1;
    }
    assert(out@ + Seq::<u8>::empty() == out@);
    proof {
        if !s@.contains('%') {
            lemma_percent_decode_plain(s@);
        }
    }
    decode_lossy(&out)
}

/// The last non-empty piece of `segs`.
pub open spec fn last_nonempty(segs: Seq<Seq<char>>) -> Option<Seq<char>>
    decreases segs.len(),
{
    if segs.len() == 0 {
        None
    } else if segs.last().len() > 0 {
        Some(segs.last())
    } else {
        last_nonempty(segs.drop_last())
    }
}

/// The last non-empty path segment of `url` (`Url::path_segments` splits the
/// path after its leading `/` at each `/`; URLs whose path does not start with
/// `/` have no segments).
pub open spec fn url_last_segment(url: Seq<char>) -> Option<Seq<char>> {
    match url_parse(url) {
        Ok(parts) => path_last_segment(parts.1),
        Err(_) => None,
    }
}

/// The last non-empty segment of a parsed URL's path (none when the path
/// does not start with `/`).
pub open spec fn path_last_segment(path: Seq<char>) -> Option<Seq<char>> {
    if path.len() > 0 && path[0] == '/' {
        last_nonempty(split_on(path.drop_first(), '/'))
    } else {
        None
    }
}

/// Naming the file after the parsed path does not hit the panicking cut in
/// `sanitize_filename`.
pub open spec fn filename_from_path_ok(path: Seq<char>) -> bool {
    match path_last_segment(path) {
        Some(seg) => sanitize_ok(percent_decode_spec(seg)),
        None => true,
    }
}

/// The file name for a parsed URL path: the sanitized, percent-decoded last
/// segment, or `download.bin` when there is none or it is `.` or `..`.
pub open spec fn filename_from_path_spec(path: Seq<char>) -> Seq<char> {
    match path_last_segment(path) {
        Some(seg) => {
            let n = sanitize_spec(percent_decode_spec(seg));
            if n.len() > 0 && n != seq!['.'] && n != seq!['.', '.'] {
                n
            } else {
                fallback_name()
            }
        },
        None => fallback_name(),
    }
}

/// `filename_from_url` does not hit the panicking cut in `sanitize_filename`.
pub open spec fn filename_from_url_ok(url: Seq<char>) -> bool {
    match url_last_segment(url) {
        Some(seg) => sanitize_ok(percent_decode_spec(seg)),
        None => true,
    }
}

/// What `filename_from_url` returns: the sanitized, percent-decoded last path
/// segment, or `download.bin` when there is none or it is `.` or `..`.
pub open spec fn filename_from_url_spec(url: Seq<char>) -> Seq<char> {
    match url_last_segment(url) {
        Some(seg) => {
            let n = sanitize_spec(percent_decode_spec(seg));
            if n.len() > 0 && n != seq!['.'] && n != seq!['.', '.'] {
                n
            } else {
                fallback_name()
            }
        },
        None => fallback_name(),
    }
}

fn fallback_string() -> (s: String)
    ensures
        s@ == fallback_name(),
{
    proof {
        reveal_strlit("download.bin");
    }
    owned("download.bin")
}

/// The last non-empty segment of a parsed path, as `path_last_segment` says.
fn last_segment_of_path(path_str: &str) -> (r: Option<String>)
    ensures
        match r {
            Some(s) => path_last_segment(path_str@) == Some(s@),
            None => path_last_segment(path_str@) is None,
        },
{
    let path = chars_of(path_str);
    if path.len() == 0 || path[0] != '/' {
        return None;
    }
    let rest = crate::text::subvec(&path, 1, path.len());
    assert(rest@ == path@.drop_first());
    let segs = split_vec(&rest, '/');
    let ghost sv = views(segs@);
    assert(path_last_segment(path_str@) == last_nonempty(sv));
    let mut k: usize = segs.len();
    assert(sv.take(k as int) == sv);
    while k > 0
        invariant
            k <= segs.len(),
            sv == views(segs@),
            path_last_segment(path_str@) == last_nonempty(sv),
            last_nonempty(sv) == last_nonempty(sv.take(k as int)),
        decreases k,
    {
        let ghost pre = sv.take(k as int);
        assert(sv[k - 1] == segs@[k - 1]@);
        assert(pre.last() == segs@[k - 1]@);
        assert(pre.drop_last() == sv.take(k - 1));
        if segs[k - 1].len() > 0 {
            return Some(string_of(&segs[k - 1]));
        }
        k -= 1;
    }
    None
}

fn is_dot_name(s: &String) -> (b: bool)
    ensures
        b == (s@ == seq!['.'] || s@ == seq!['.', '.']),
{
    let v = chars_of(s.as_str());
    if v.len() == 1 {
        let b = v[0] == '.';
        assert(b ==> v@ == seq!['.']);
        b
    } else if v.len() == 2 {
        let b = v[0] == '.' && v[1] == '.';
        assert(b ==> v@ == seq!['.', '.']);
        b
    } else {
        false
    }
}

/// The file name for a URL's parsed path (what `Url::path` gives): the
/// sanitized, percent-decoded last segment, or `download.bin`; `None` where
/// sanitizing would cut inside a character.
pub fn filename_from_path(path: &str) -> (r: Option<String>)
    ensures
        r is Some <==> filename_from_path_ok(path@),
        r matches Some(s) ==> s@ == filename_from_path_spec(path@),
{
    match last_segment_of_path(path) {
        None => Some(fallback_string()),
        Some(seg) => {
            let decoded = percent_decode(seg.as_str());
            match sanitize_filename_checked(decoded.as_str()) {
                None => None,
                Some(name) => {
                    let nv = chars_of(name.as_str());
                    if nv.len() > 0 && !is_dot_name(&name) {
                        Some(name)
                    } else {
                        Some(fallback_string())
                    }
                },
            }
        },
    }
}

fn filename_from_url_core(url: &str) -> (r: Option<String>)
    ensures
        r is Some <==> filename_from_url_ok(url@),
        r matches Some(s) ==> s@ == filename_from_url_spec(url@),
{
    match parse_url(url) {
        Err(_) => Some(fallback_string()),
        Ok(parts) => filename_from_path(parts.path.as_str()),
    }
}

/// The file name a download of `url` is saved under.
pub fn filename_from_url(url: &str) -> (r: String)
    requires
        filename_from_url_ok(url@),
    ensures
        r@ == filename_from_url_spec(url@),
{
    match filename_from_url_core(url) {
        Some(s) => s,
        None => {
            assert(false);
            String::new()
        },
    }
}

/// `filename_from_url` where it returns, and `None` on the URLs whose last
/// segment would make `sanitize_filename` cut inside a character.
pub fn filename_from_url_checked(url: &str) -> (r: Option<String>)
    ensures
        r is Some <==> filename_from_url_ok(url@),
        r matches Some(s) ==> s@ == filename_from_url_spec(url@),
{
    filename_from_url_core(url)
}

/// A file name taken from a URL is always a safe, non-empty name, and never
/// `.` or `..`.
pub proof fn lemma_url_filename_is_safe(url: Seq<char>)
    requires
        filename_from_url_ok(url),
    ensures
        filename_from_url_spec(url).len() > 0,
        filename_from_url_spec(url) != seq!['.'],
        filename_from_url_spec(url) != seq!['.', '.'],
        forall|i: int|
            0 <= i < filename_from_url_spec(url).len() ==> !is_forbidden(
                #[trigger] filename_from_url_spec(url)[i],
            ) && !is_control(filename_from_url_spec(url)[i]),
{
    let f = fallback_name();
    assert(f != seq!['.']) by {
        assert(f.len() != 1);
    }
    assert(f != seq!['.', '.']) by {
        assert(f.len() != 2);
    }
    match url_last_segment(url) {
        Some(seg) => {
            lemma_sanitized_name_is_safe(percent_decode_spec(seg));
        },
        None => {},
    }
}

// ---------------------------------------------------------------------------
// Sizes and durations for humans
// ---------------------------------------------------------------------------

pub open spec fn p2(k: nat) -> nat
    decreases k,
{
    if k == 0 {
        1
    } else {
        2 * p2((k - 1) as nat)
    }
}

pub open spec fn p1024(i: nat) -> nat
    decreases i,
{
    if i == 0 {
        1
    } else {
        1024 * p1024((i - 1) as nat)
    }
}

/// The smallest `k` from `from` up to 11 with `n < 2^(53 + k)`: the spacing
/// of doubles near `n` is `2^k`.
pub open spec fn round_exp(n: nat, k: nat) -> nat
    decreases (if k < 11 {
        11 - k
    } else {
        0
    }),
{
    if k >= 11 || n < 9007199254740992 * p2(k) {
        k
    } else {
        round_exp(n, k + 1)
    }
}

/// `n as f64`: the double nearest to `n`, ties to the even significand.
pub open spec fn nearest_double(n: nat) -> nat {
    let u = p2(round_exp(n, 0));
    let q = n / u;
    let rem = n % u;
    if 2 * rem > u || (2 * rem == u && q % 2 == 1) {
        (q + 1) * u
    } else {
        q * u
    }
}

/// How many times the size loop divides by 1024: while the value is at least
/// 1024 and the unit is below TiB.
pub open spec fn unit_index(r: nat, i: nat) -> nat
    decreases (if i < 4 {
        4 - i
    } else {
        0
    }),
{
    if i < 4 && r >= p1024(i + 1) {
        unit_index(r, i + 1)
    } else {
        i
    }
}

/// `r / d` in hundredths, rounded to nearest with ties to even, as `{:.2}`
/// prints the exact value of a double.
pub open spec fn hundredths(r: nat, d: nat) -> nat {
    let q = (r * 100) / d;
    let rem = (r * 100) % d;
    if 2 * rem > d || (2 * rem == d && q % 2 == 1) {
        q + 1
    } else {
        q
    }
}

pub open spec fn unit_name(i: nat) -> Seq<char> {
    if i == 0 {
        seq!['B']
    } else if i == 1 {
        seq!['K', 'i', 'B']
    } else if i == 2 {
        seq!['M', 'i', 'B']
    } else if i == 3 {
        seq!['G', 'i', 'B']
    } else {
        seq!['T', 'i', 'B']
    }
}

/// What `human_bytes(n)` prints: `"<n> B"` below 1 KiB, else the size in the
/// largest binary unit up to TiB with two decimals, e.g. `"2.00 KiB"`.
pub open spec fn human_bytes_spec(n: u64) -> Seq<char> {
    let r = nearest_double(n as nat);
    let i = unit_index(r, 0);
    if i == 0 {
        dec(n as nat) + seq![' '] + unit_name(0)
    } else {
        let h = hundredths(r, p1024(i));
        dec(h / 100) + seq!['.'] + dec2(h % 100) + seq![' '] + unit_name(i)
    }
}

fn push_unit(s: &mut String, i: u64)
    requires
        i <= 4,
    ensures
        final(s)@ == old(s)@ + unit_name(i as nat),
{
    if i == 0 {
        push_char(s, 'B');
    } else {
        if i == 1 {
            push_char(s, 'K');
        } else if i == 2 {
            push_char(s, 'M');
        } else if i == 3 {
            push_char(s, 'G');
        } else {
            push_char(s, 'T');
        }
        push_char(s, 'i');
        push_char(s, 'B');
    }
}

proof fn lemma_round_bounds(n: nat, u: nat, q: nat, rem: nat)
    by (nonlinear_arith)
    requires
        n < 0x1_0000_0000_0000_0000,
        1 <= u <= 2048,
        q == n / u,
        rem == n % u,
    ensures
        q * u <= n,
        (q + 1) * u <= n + u,
        q * u + rem == n,
{
}

proof fn lemma_hundredths_bound(r: nat, d: nat, q2: nat)
    by (nonlinear_arith)
    requires
        r <= 0x1_0000_0000_0000_0800,
        d >= 1024,
        q2 == (r * 100) / d,
    ensures
        q2 <= r * 100 / 1024,
        (q2 + 1) / 100 < 0x1_0000_0000_0000_0000,
{
    assert(q2 * d <= r * 100);
    assert(q2 * 1024 <= q2 * d);
}

pub fn human_bytes(n: u64) -> (r: String)
    ensures
        r@ == human_bytes_spec(n),
{
    let n128: u128 = n as u128;
    let mut k: u64 = 0;
    let mut u: u128 = 1;
    while k < 11 && n128 >= 9007199254740992 * u
        invariant
            k <= 11,
            u == p2(k as nat),
            1 <= u <= 2048,
            n128 == n,
            round_exp(n as nat, 0) == round_exp(n as nat, k as nat),
        decreases 11 - k,
    {
        assert(p2((k + 1) as nat) == 2 * p2(k as nat));
        k += 1;
        u = u * 2;
        assert(u <= 2048) by {
            assert(p2(11) == 2048) by {
                reveal_with_fuel(p2, 12);
            }
            lemma_p2_mono(k as nat, 11);
        }
    }
    assert(round_exp(n as nat, k as nat) == k);
    let q = n128 / u;
    let rem = n128 % u;
    proof {
        lemma_round_bounds(n as nat, u as nat, q as nat, rem as nat);
    }
    let r: u128 = if 2 * rem > u || (2 * rem == u && q % 2 == 1) {
        (q + 1) * u
    } else {
        q * u
    };
    assert(r == nearest_double(n as nat));
    assert(r <= 0x1_0000_0000_0000_0800);
    let mut i: u64 = 0;
    let mut d: u128 = 1;
    while i < 4 && r >= d * 1024
        invariant
            i <= 4,
            d == p1024(i as nat),
            d <= 1099511627776,
            unit_index(r as nat, 0) == unit_index(r as nat, i as nat),
        decreases 4 - i,
    {
        assert(p1024((i + 1) as nat) == 1024 * p1024(i as nat));
        i += 1;
        d = d * 1024;
        assert(d <= 1099511627776) by {
            assert(p1024(4) == 1099511627776) by {
                reveal_with_fuel(p1024, 5);
            }
            lemma_p1024_mono(i as nat, 4);
        }
    }
    assert(unit_index(r as nat, i as nat) == i) by {
        if i < 4 {
            assert(p1024((i + 1) as nat) == 1024 * p1024(i as nat));
        }
    }
    let mut s = String::new();
    if i == 0 {
        push_dec(&mut s, n);
        push_char(&mut s, ' ');
        push_unit(&mut s, 0);
        assert(s@ == Seq::<char>::empty() + dec(n as nat) + seq![' '] + unit_name(0));
    } else {
        assert(d >= 1024) by {
            lemma_p1024_mono(1, i as nat);
        }
        let scaled: u128 = r * 100;
        let q2 = scaled / d;
        let rem2 = scaled % d;
        proof {
            lemma_hundredths_bound(r as nat, d as nat, q2 as nat);
        }
        let h: u128 = if 2 * rem2 > d || (2 * rem2 == d && q2 % 2 == 1) {
            q2 + 1
        } else {
            q2
        };
        assert(h == hundredths(r as nat, d as nat));
        let whole: u64 = (h / 100) as u64;
        let frac: u64 = (h % 100) as u64;
        push_dec(&mut s, whole);
        push_char(&mut s, '.');
        push_dec2(&mut s, frac);
        push_char(&mut s, ' ');
        push_unit(&mut s, i);
        assert(s@ == Seq::<char>::empty() + dec((h / 100) as nat) + seq!['.'] + dec2(
            (h % 100) as nat,
        ) + seq![' '] + unit_name(i as nat));
    }
    s
}

proof fn lemma_p2_mono(a: nat, b: nat)
    requires
        a <= b,
    ensures
        p2(a) <= p2(b),
    decreases b - a,
{
    if a < b {
        lemma_p2_mono(a, (b - 1) as nat);
    }
}

proof fn lemma_p1024_mono(a: nat, b: nat)
    requires
        a <= b,
    ensures
        1 <= p1024(a) <= p1024(b),
    decreases b,
{
    if b > 0 {
        if a < b {
            lemma_p1024_mono(a, (b - 1) as nat);
        } else {
            lemma_p1024_mono((a - 1) as nat, (b - 1) as nat);
        }
    }
}

/// What `format_eta` prints: `—` when unknown, else `m:ss`, or `h:mm:ss` from an hour on.
pub open spec fn format_eta_spec(secs: Option<u64>) -> Seq<char> {
    match secs {
        None => seq!['\u{2014}'],
        Some(s) => if s < 60 {
            seq!['0', ':'] + dec2(s as nat)
        } else if s < 3600 {
            dec((s / 60) as nat) + seq![':'] + dec2((s % 60) as nat)
        } else {
            dec((s / 3600) as nat) + seq![':'] + dec2(((s % 3600) / 60) as nat) + seq![':'] + dec2(
                (s % 60) as nat,
            )
        },
    }
}

pub fn format_eta(secs: Option<u64>) -> (r: String)
    ensures
        r@ == format_eta_spec(secs),
{
    let mut out = String::new();
    match secs {
        None => {
            push_char(&mut out, '\u{2014}');
        },
        Some(s) => {
            if s < 60 {
                push_char(&mut out, '0');
                push_char(&mut out, ':');
                push_dec2(&mut out, s);
            } else if s < 3600 {
                push_dec(&mut out, s / 60);
                push_char(&mut out, ':');
                push_dec2(&mut out, s % 60);
            } else {
                push_dec(&mut out, s / 3600);
                push_char(&mut out, ':');
                push_dec2(&mut out, (s % 3600) / 60);
                push_char(&mut out, ':');
                push_dec2(&mut out, s % 60);
            }
        },
    }
    out
}


// ---------------------------------------------------------------------------
// Distrohopper wisdom
// ---------------------------------------------------------------------------

/// One step of the 32-bit FNV-1a hash.
pub open spec fn fnv_step(h: u32, b: u8) -> u32 {
    ((h ^ (b as u32)) as u32).wrapping_mul(16777619)
}

/// The 32-bit FNV-1a hash of `bytes`, continuing from `h`.
pub open spec fn fnv_from(h: u32, bytes: Seq<u8>) -> u32
    decreases bytes.len(),
{
    if bytes.len() == 0 {
        h
    } else {
        fnv_from(fnv_step(h, bytes[0]), bytes.drop_first())
    }
}

/// The 32-bit FNV-1a hash of `bytes`.
pub open spec fn fnv1a(bytes: Seq<u8>) -> u32 {
    fnv_from(2166136261, bytes)
}

/// The line of wisdom with the given index.
pub open spec fn distro_line(i: nat) -> Seq<char> {
    if i == 0 {
        "distrohopper mode: mainline ISO → Ventoy. identity is a temporary filesystem."@
    } else if i == 1 {
        "another ISO for the stick of infinite reboots. the hopper never settles."@
    } else if i == 2 {
        "downloading directly to Ventoy — skipping the 'save to Downloads then forget' epoch."@
    } else if i == 3 {
        "tip: your current distro has 48 hours to impress you."@
    } else if i == 4 {
        "Ventoy doesn't judge. it just accumulates your personality disorders as .iso files."@
    } else if i == 5 {
        "mainline only? bold of you to pretend you won't also grab a GNOME rebuild at 3am."@
    } else if i == 6 {
        "one stick to hop them all. eject when the rice gets cold."@
    } else if i == 7 {
        "ISO landing on Ventoy. tomorrow's you can argue with today's you in the boot menu."@
    } else if i == 8 {
        "multi-conn into Ventoy: the only commitment issues that improve your uptime."@
    } else {
        "welcome back. the stick remembers every distro you swore was 'the one'."@
    }
}

fn distro_line_exec(i: u32) -> (r: &'static str)
    requires
        i < 10,
    ensures
        r@ == distro_line(i as nat),
{
    if i == 0 {
        "distrohopper mode: mainline ISO → Ventoy. identity is a temporary filesystem."
    } else if i == 1 {
        "another ISO for the stick of infinite reboots. the hopper never settles."
    } else if i == 2 {
        "downloading directly to Ventoy — skipping the 'save to Downloads then forget' epoch."
    } else if i == 3 {
        "tip: your current distro has 48 hours to impress you."
    } else if i == 4 {
        "Ventoy doesn't judge. it just accumulates your personality disorders as .iso files."
    } else if i == 5 {
        "mainline only? bold of you to pretend you won't also grab a GNOME rebuild at 3am."
    } else if i == 6 {
        "one stick to hop them all. eject when the rice gets cold."
    } else if i == 7 {
        "ISO landing on Ventoy. tomorrow's you can argue with today's you in the boot menu."
    } else if i == 8 {
        "multi-conn into Ventoy: the only commitment issues that improve your uptime."
    } else {
        "welcome back. the stick remembers every distro you swore was 'the one'."
    }
}

/// A line of distrohopper wisdom, picked by the FNV-1a hash of the UTF-8
/// bytes of `context`, so the same context always gets the same line.
pub fn distrohopper_line(context: &str) -> (r: &'static str)
    ensures
        r@ == distro_line((fnv1a(encode_utf8(context@)) % 10) as nat),
{
    let bytes = context.as_bytes();
    let mut h: u32 = 2166136261;
    let mut i: usize = 0;
    assert(bytes@.skip(0) == bytes@);
    while i < bytes.len()
        invariant
            i <= bytes.len(),
            bytes@ == encode_utf8(context@),
            fnv1a(bytes@) == fnv_from(h, bytes@.skip(i as int)),
        decreases bytes.len() - i,
    {
        assert(bytes@.skip(i as int)[0] == bytes@[i as int]);
        assert(bytes@.skip(i as int).drop_first() == bytes@.skip(i + 1));
        h = (h ^ (bytes[i] as u32)).wrapping_mul(16777619);
        i += 1;
    }
    distro_line_exec(h % 10)
}


// ---------------------------------------------------------------------------
// Paths
// ---------------------------------------------------------------------------

/// `base.join(rel)` under Unix path rules: an absolute `rel` replaces `base`;
/// otherwise `rel` is appended, with a `/` in between unless `base` is empty
/// or already ends in `/`.
pub open spec fn join_spec(base: Seq<char>, rel: Seq<char>) -> Seq<char> {
    if rel.len() > 0 && rel[0] == '/' {
        rel
    } else if base.len() == 0 || base.last() == '/' {
        base + rel
    } else {
        base + seq!['/'] + rel
    }
}

pub fn path_join(base: &str, rel: &str) -> (r: String)
    ensures
        r@ == join_spec(base@, rel@),
{
    let b = chars_of(base);
    let rv = chars_of(rel);
    if rv.len() > 0 && rv[0] == '/' {
        return owned(rel);
    }
    let mut out = owned(base);
    if !(b.len() == 0 || b[b.len() - 1] == '/') {
        push_char(&mut out, '/');
    }
    push_all(&mut out, rel);
    out
}

/// The default download directory: `XDG_DOWNLOAD_DIR` when it is set and not
/// empty, else the platform's download directory, else `Downloads` in the
/// home directory (or in `.` when there is no home).
pub open spec fn download_dir_spec(
    xdg: Option<Seq<char>>,
    os_dir: Option<Seq<char>>,
    home: Option<Seq<char>>,
) -> Seq<char> {
    match xdg {
        Some(x) if x.len() > 0 => x,
        _ => match os_dir {
            Some(d) => d,
            None => join_spec(
                match home {
                    Some(h) => h,
                    None => seq!['.'],
                },
                "Downloads"@,
            ),
        },
    }
}

pub fn download_dir_from(xdg: Option<String>, os_dir: Option<String>, home: Option<String>) -> (r:
    String)
    ensures
        r@ == download_dir_spec(opt_view(xdg), opt_view(os_dir), opt_view(home)),
{
    match xdg {
        Some(x) => {
            if !x.as_str().is_empty() {
                return x;
            }
        },
        None => {},
    }
    match os_dir {
        Some(d) => d,
        None => {
            let base = match home {
                Some(h) => h,
                None => {
                    proof {
                        reveal_strlit(".");
                    }
                    owned(".")
                },
            };
            path_join(base.as_str(), "Downloads")
        },
    }
}

/// A media directory (videos or music): the platform's one, else `sub` in the
/// home directory, else the download directory `fallback`.
pub open spec fn media_dir_spec(
    os_dir: Option<Seq<char>>,
    home: Option<Seq<char>>,
    sub: Seq<char>,
    fallback: Seq<char>,
) -> Seq<char> {
    match os_dir {
        Some(d) => d,
        None => match home {
            Some(h) => join_spec(h, sub),
            None => fallback,
        },
    }
}

pub fn media_dir_from(os_dir: Option<String>, home: Option<String>, sub: &str, fallback: String) -> (r:
    String)
    ensures
        r@ == media_dir_spec(opt_view(os_dir), opt_view(home), sub@, fallback@),
{
    match os_dir {
        Some(d) => d,
        None => match home {
            Some(h) => path_join(h.as_str(), sub),
            None => fallback,
        },
    }
}

/// The label a progress report shows for a file: the path's file name, or
/// `default` when it has none.
pub fn file_label(path: &str, default: &str) -> (r: String)
    ensures
        r@ == (match path_file_name(path@) {
            Some(n) => n,
            None => default@,
        }),
{
    match file_name_of(path) {
        Some(n) => n,
        None => owned(default),
    }
}

/// The index of the last `.` in `v`, if there is one.
fn last_dot_exec(v: &Vec<char>) -> (r: Option<usize>)
    ensures
        match r {
            None => last_dot(v@) == -1,
            Some(d) => last_dot(v@) == d && d < v.len(),
        },
{
    let mut last: Option<usize> = None;
    let mut i: usize = 0;
    assert(v@.take(0) == Seq::<char>::empty());
    while i < v.len()
        invariant
            i <= v.len(),
            match last {
                None => last_dot(v@.take(i as int)) == -1,
                Some(d) => last_dot(v@.take(i as int)) == d && d < i,
            },
        decreases v.len() - i,
    {
        assert(v@.take(i + 1).drop_last() == v@.take(i as int));
        assert(v@.take(i + 1).last() == v@[i as int]);
        if v[i] == '.' {
            last = Some(i);
        }
        i += 1;
    }
    assert(v@.take(v.len() as int) == v@);
    last
}

/// The stem of the path's file name (what `Path::file_stem` gives), worked
/// out from the file name as `name_stem` says.
pub(crate) fn file_stem_of(p: &str) -> (r: Option<String>)
    ensures
        opt_view(r) == path_file_stem(p@),
{
    match file_name_of(p) {
        None => None,
        Some(n) => {
            let v = chars_of(n.as_str());
            match last_dot_exec(&v) {
                Some(d) => {
                    if d == 0 {
                        Some(n)
                    } else {
                        let r = crate::text::string_of_range(&v, 0, d);
                        assert(v@.subrange(0, d as int) == v@.take(d as int));
                        Some(r)
                    }
                },
                None => Some(n),
            }
        },
    }
}

/// The extension of the path's file name (what `Path::extension` gives),
/// worked out from the file name as `name_extension` says.
pub(crate) fn extension_of(p: &str) -> (r: Option<String>)
    ensures
        opt_view(r) == path_extension(p@),
{
    match file_name_of(p) {
        None => None,
        Some(n) => {
            let v = chars_of(n.as_str());
            match last_dot_exec(&v) {
                Some(d) => {
                    if d == 0 {
                        None
                    } else {
                        let r = crate::text::string_of_range(&v, d + 1, v.len());
                        assert(v@.subrange(d + 1, v.len() as int) == v@.skip(d + 1));
                        Some(r)
                    }
                },
                None => None,
            }
        },
    }
}

/// The parts that `unique_path` builds its alternatives from: the stem (or
/// `download`), the extension with its dot (or nothing), and the parent (or `.`).
pub open spec fn stem_or_default(path: Seq<char>) -> Seq<char> {
    match path_file_stem(path) {
        Some(s) => s,
        None => seq!['d', 'o', 'w', 'n', 'l', 'o', 'a', 'd'],
    }
}

pub open spec fn dot_extension(path: Seq<char>) -> Seq<char> {
    match path_extension(path) {
        Some(e) => seq!['.'] + e,
        None => Seq::empty(),
    }
}

pub open spec fn parent_or_dot(path: Seq<char>) -> Seq<char> {
    match path_parent(path) {
        Some(p) => p,
        None => seq!['.'],
    }
}

/// Alternative `k` for `path`: `path` itself for 0, `<stem>-<k><ext>` beside it
/// for 1 to 999, and `<stem>-dup<ext>` from 1000 on.
pub open spec fn unique_candidate_spec(path: Seq<char>, k: nat) -> Seq<char> {
    if k == 0 {
        path
    } else if k < 1000 {
        join_spec(
            parent_or_dot(path),
            stem_or_default(path) + seq!['-'] + dec(k) + dot_extension(path),
        )
    } else {
        join_spec(
            parent_or_dot(path),
            stem_or_default(path) + seq!['-', 'd', 'u', 'p'] + dot_extension(path),
        )
    }
}

pub fn unique_candidate(path: &str, k: u32) -> (r: String)
    ensures
        r@ == unique_candidate_spec(path@, k as nat),
{
    if k == 0 {
        return owned(path);
    }
    proof {
        reveal_strlit("download");
        reveal_strlit(".");
        reveal_strlit("-dup");
    }
    let stem = match file_stem_of(path) {
        Some(s) => s,
        None => owned("download"),
    };
    assert(stem@ == stem_or_default(path@));
    let parent = match parent_of(path) {
        Some(p) => p,
        None => owned("."),
    };
    assert(parent@ == parent_or_dot(path@));
    let mut name = owned(stem.as_str());
    if k < 1000 {
        push_char(&mut name, '-');
        push_dec(&mut name, k as u64);
        assert(name@ == stem_or_default(path@) + seq!['-'] + dec(k as nat));
    } else {
        push_all(&mut name, "-dup");
        assert(name@ == stem_or_default(path@) + seq!['-', 'd', 'u', 'p']);
    }
    let ghost before = name@;
    match extension_of(path) {
        Some(e) => {
            push_char(&mut name, '.');
            push_all(&mut name, e.as_str());
            assert(name@ == before + dot_extension(path@));
        },
        None => {
            assert(name@ == before + dot_extension(path@));
        },
    }
    path_join(parent.as_str(), name.as_str())
}

/// The index of the first `false` in `taken` (the first candidate found
/// free), or `taken.len()` when every candidate asked about is taken.
pub open spec fn first_free_spec(taken: Seq<bool>) -> nat
    decreases taken.len(),
{
    if taken.len() == 0 || !taken[0] {
        0
    } else {
        1 + first_free_spec(taken.drop_first())
    }
}

/// The first candidate found free, from the answers `taken[k]` to "is
/// candidate `k` already there?".
pub fn first_free(taken: &Vec<bool>) -> (k: usize)
    ensures
        k == first_free_spec(taken@),
        k <= taken.len(),
        k < taken.len() ==> !taken@[k as int],
        forall|j: int| 0 <= j < k ==> #[trigger] taken@[j],
{
    let mut i: usize = 0;
    assert(taken@.skip(0) == taken@);
    while i < taken.len() && taken[i]
        invariant
            i <= taken.len(),
            first_free_spec(taken@) == i + first_free_spec(taken@.skip(i as int)),
            forall|j: int| 0 <= j < i ==> #[trigger] taken@[j],
        decreases taken.len() - i,
    {
        assert(taken@.skip(i as int)[0] == taken@[i as int]);
        assert(taken@.skip(i as int).drop_first() == taken@.skip(i + 1));
        i += 1;
    }
    if i < taken.len() {
        assert(taken@.skip(i as int)[0] == taken@[i as int]);
    }
    i
}

/// Answers gathered by asking about candidates `0, 1, ...` in order, stopping
/// at the first free one or after `limit` questions: every answer but the last
/// says "taken", and the questions stop before `limit` only at a free one.
pub open spec fn asked_until_free(taken: Seq<bool>, limit: nat) -> bool {
    &&& taken.len() <= limit
    &&& (taken.len() == limit || (taken.len() > 0 && !taken.last()))
    &&& forall|j: int| 0 <= j < taken.len() - 1 ==> #[trigger] taken[j]
}

/// What answers gathered in that order give: every candidate before the one
/// `first_free` picks was answered taken; the one picked was answered free,
/// unless all `limit` candidates were taken and the pick is `limit` itself.
pub proof fn lemma_first_free_after_asking(taken: Seq<bool>, limit: nat)
    requires
        asked_until_free(taken, limit),
    ensures
        first_free_spec(taken) <= limit,
        forall|j: int| 0 <= j < first_free_spec(taken) ==> #[trigger] taken[j],
        first_free_spec(taken) < limit ==> first_free_spec(taken) < taken.len() && !taken[first_free_spec(
            taken,
        ) as int],
        first_free_spec(taken) == limit ==> taken.len() == limit && forall|j: int|
            0 <= j < limit ==> #[trigger] taken[j],
    decreases taken.len(),
{
    lemma_first_free_props(taken);
    if first_free_spec(taken) == taken.len() && taken.len() > 0 && !taken.last() {
        assert(!taken[taken.len() - 1]);
    }
}

proof fn lemma_first_free_props(taken: Seq<bool>)
    ensures
        first_free_spec(taken) <= taken.len(),
        forall|j: int| 0 <= j < first_free_spec(taken) ==> #[trigger] taken[j],
        first_free_spec(taken) < taken.len() ==> !taken[first_free_spec(taken) as int],
    decreases taken.len(),
{
    if taken.len() > 0 && taken[0] {
        let rest = taken.drop_first();
        lemma_first_free_props(rest);
        assert forall|j: int| 0 <= j < first_free_spec(taken) implies #[trigger] taken[j] by {
            if j > 0 {
                assert(taken[j] == rest[j - 1]);
            }
        }
        if first_free_spec(taken) < taken.len() {
            assert(taken[first_free_spec(taken) as int] == rest[first_free_spec(rest) as int]);
        }
    }
}

/// Asks the disk, in order, whether candidates `0, 1, ...` exist (those of
/// `unique_candidate` for `path`, or of `media_candidate` for the given
/// directory, title and extension), stopping at the first that does not or
/// after `limit` questions. The answers are the disk's; the contract states
/// the order they were asked in.
pub(crate) fn existence_answers(path: &str, media: Option<(&str, &str, &str)>, limit: u32) -> (taken: Vec<bool>)
    ensures
        asked_until_free(taken@, limit as nat),
{
    let mut taken: Vec<bool> = Vec::new();
    let mut n: u32 = 0;
    let mut done = false;
    while !done && n < limit
        invariant
            n <= limit,
            !done ==> taken@.len() == n && forall|j: int| 0 <= j < n ==> #[trigger] taken@[j],
            done ==> asked_until_free(taken@, limit as nat),
        decreases limit - n, (if done { 0int } else { 1int }),
    {
        let c = match media {
            None => unique_candidate(path, n),
            Some((dir, title, ext)) => crate::media::media_candidate(dir, title, ext, n),
        };
        let t = path_exists(c.as_str());
        taken.push(t);
        if t {
            n += 1;
        } else {
            done = true;
            assert(taken@.last() == false);
        }
    }
    taken
}

/// Picks a path that does not exist yet: `path` itself if it is free, else the
/// first free `<stem>-<n><ext>` beside it for `n` from 1 to 999, else
/// `<stem>-dup<ext>`. The disk answers which candidates exist (asked in that
/// order, stopping at the first free one); `first_free` picks from its answers.
pub fn unique_path(path: &str) -> (r: String)
    ensures
        exists|taken: Seq<bool>|
            #[trigger] asked_until_free(taken, 1000) && r@ == unique_candidate_spec(
                path@,
                first_free_spec(taken),
            ),
        exists|taken: Seq<bool>|
            taken.len() <= 1000 && r@ == unique_candidate_spec(path@, first_free_spec(taken)),
        exists|k: nat| k <= 1000 && r@ == unique_candidate_spec(path@, k),
{
    let taken = existence_answers(path, None, 1000);
    let k = first_free(&taken);
    let r = unique_candidate(path, k as u32);
    assert(r@ == unique_candidate_spec(path@, first_free_spec(taken@)));
    r
}

/// Whether a directory looks like a mounted Ventoy stick: its name contains
/// `ventoy` in any ASCII case (then the answer is yes), or it holds a
/// `ventoy`/`Ventoy` directory or a `ventoy.json` file (which the disk decides).
pub fn looks_like_ventoy(path: &str) -> (r: bool)
    ensures
        contains_seq(
            lower_ascii(
                match path_file_name(path@) {
                    Some(n) => n,
                    None => Seq::empty(),
                },
            ),
            "ventoy"@,
        ) ==> r,
{
    let name = match file_name_of(path) {
        Some(n) => chars_of(n.as_str()),
        None => Vec::new(),
    };
    let lower = lower_ascii_vec(&name);
    let pat = chars_of("ventoy");
    if contains_exec(&lower, &pat) {
        return true;
    }
    let d1 = path_join(path, "ventoy");
    let d2 = path_join(path, "Ventoy");
    let f = path_join(path, "ventoy.json");
    path_is_dir(d1.as_str()) || path_is_dir(d2.as_str()) || path_is_file(f.as_str())
}

} // verus!
