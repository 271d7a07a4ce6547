//! What the command line decides: reading a pasted link, telling URLs apart,
//! which URLs to fetch, where files go, and what a plain download is saved as.
use vstd::prelude::*;

use crate::media::MediaMode;
use crate::resume::opt_str_view;
use crate::text::{
    byte_len, byte_len_capped, chars_of, contains_exec, contains_seq, owned, push_all, push_char,
    split_on, split_vec, starts_with, string_of, subvec, trim, trim_chars, vec_starts_with,
    views,
};
use crate::util::{fallback_name, sanitize_filename_checked, sanitize_ok, sanitize_spec};

verus! {

/// Quote-like characters that pasted links often come wrapped in.
pub open spec fn is_wrapper_char(c: char) -> bool {
    c == '"' || c == '\'' || c == '<' || c == '>'
}

pub open spec fn strip_wrappers_start(s: Seq<char>) -> Seq<char>
    decreases s.len(),
{
    if s.len() > 0 && is_wrapper_char(s[0]) {
        strip_wrappers_start(s.drop_first())
    } else {
        s
    }
}

pub open spec fn strip_wrappers_end(s: Seq<char>) -> Seq<char>
    decreases s.len(),
{
    if s.len() > 0 && is_wrapper_char(s.last()) {
        strip_wrappers_end(s.drop_last())
    } else {
        s
    }
}

/// The first non-blank line of `text`, trimmed (empty when there is none).
pub open spec fn first_nonblank_line(lines: Seq<Seq<char>>) -> Seq<char>
    decreases lines.len(),
{
    if lines.len() == 0 {
        Seq::empty()
    } else if trim(lines[0]).len() > 0 {
        trim(lines[0])
    } else {
        first_nonblank_line(lines.drop_first())
    }
}

/// What `normalize_paste` makes of pasted text: its first non-blank line,
/// trimmed, without wrapping quotes or angle brackets, trimmed again.
pub open spec fn normalize_paste_spec(text: Seq<char>) -> Seq<char> {
    trim(strip_wrappers_end(strip_wrappers_start(first_nonblank_line(split_on(text, '\n')))))
}

fn first_nonblank_exec(lines: &Vec<Vec<char>>) -> (r: Vec<char>)
    ensures
        r@ == first_nonblank_line(views(lines@)),
{
    let ghost lv = views(lines@);
    let mut i: usize = 0;
    assert(lv.skip(0) == lv);
    while i < lines.len()
        invariant
            i <= lines.len(),
            lv == views(lines@),
            first_nonblank_line(lv) == first_nonblank_line(lv.skip(i as int)),
        decreases lines.len() - i,
    {
        assert(lv.skip(i as int)[0] == lines@[i as int]@);
        assert(lv.skip(i as int).drop_first() == lv.skip(i + 1));
        let t = trim_chars(&lines[i]);
        if t.len() > 0 {
            return t;
        }
        i += 1;
    }
    assert(lv.skip(i as int).len() == 0);
    Vec::new()
}

pub fn normalize_paste(text: &str) -> (r: String)
    ensures
        r@ == normalize_paste_spec(text@),
{
    let v = chars_of(text);
    let lines = split_vec(&v, '\n');
    let line = first_nonblank_exec(&lines);
    assert(line@ == first_nonblank_line(split_on(text@, '\n')));
    // strip wrapper characters at both ends
    let mut a: usize = 0;
    assert(line@.subrange(0, line.len() as int) == line@);
    while a < line.len() && (line[a] == '"' || line[a] == '\'' || line[a] == '<' || line[a]
        == '>')
        invariant
            a <= line.len(),
            strip_wrappers_start(line@) == strip_wrappers_start(
                line@.subrange(a as int, line.len() as int),
            ),
        decreases line.len() - a,
    {
        assert(line@.subrange(a as int, line.len() as int).drop_first() == line@.subrange(
            a + 1,
            line.len() as int,
        ));
        a += 1;
    }
    let mut b: usize = line.len();
    while b > a && (line[b - 1] == '"' || line[b - 1] == '\'' || line[b - 1] == '<' || line[b
        - 1] == '>')
        invariant
            a <= b <= line.len(),
            strip_wrappers_start(line@) == line@.subrange(a as int, line.len() as int),
            strip_wrappers_end(line@.subrange(a as int, line.len() as int)) == strip_wrappers_end(
                line@.subrange(a as int, b as int),
            ),
        decreases b,
    {
        assert(line@.subrange(a as int, b as int).drop_last() == line@.subrange(
            a as int,
            b - 1,
        ));
        b -= 1;
    }
    let inner = subvec(&line, a, b);
    let out = trim_chars(&inner);
    string_of(&out)
}

/// What `looks_like_url` accepts: after trimming, an `http://`, `https://` or
/// `www.` start, or a dot, no space and more than 4 bytes.
pub open spec fn looks_like_url_spec(s: Seq<char>) -> bool {
    let t = trim(s);
    ||| starts_with(t, "http://"@)
    ||| starts_with(t, "https://"@)
    ||| starts_with(t, "www."@)
    ||| (contains_seq(t, seq!['.']) && !contains_seq(t, seq![' ']) && byte_len(t) > 4)
}

pub fn looks_like_url(s: &str) -> (r: bool)
    ensures
        r == looks_like_url_spec(s@),
{
    let v = chars_of(s);
    let t = trim_chars(&v);
    let http = chars_of("http://");
    let https = chars_of("https://");
    let www = chars_of("www.");
    if vec_starts_with(&t, &http) || vec_starts_with(&t, &https) || vec_starts_with(&t, &www) {
        return true;
    }
    let mut dot: Vec<char> = Vec::new();
    dot.push('.');
    let mut space: Vec<char> = Vec::new();
    space.push(' ');
    contains_exec(&t, &dot) && !contains_exec(&t, &space) && byte_len_capped(&t, 4) > 4
}

/// `https://` put before a link that starts with `www.`.
pub open spec fn promote_www(n: Seq<char>) -> Seq<char> {
    if starts_with(n, "www."@) {
        "https://"@ + n
    } else {
        n
    }
}

fn promote_www_exec(n: &String) -> (r: String)
    ensures
        r@ == promote_www(n@),
{
    let v = chars_of(n.as_str());
    let www = chars_of("www.");
    if vec_starts_with(&v, &www) {
        let mut s = owned("https://");
        push_all(&mut s, n.as_str());
        s
    } else {
        n.clone()
    }
}

/// The link in clipboard text: the normalized paste when it looks like a URL
/// (with `https://` added before `www.`), else nothing. `None` in, `None` out.
pub fn clipboard_url(text: Option<String>) -> (r: Option<String>)
    ensures
        opt_str_view(r) == (match text {
            Some(t) => {
                let n = normalize_paste_spec(t@);
                if looks_like_url_spec(n) {
                    Some(promote_www(n))
                } else {
                    None
                }
            },
            None => None,
        }),
{
    match text {
        None => None,
        Some(t) => {
            let n = normalize_paste(t.as_str());
            if looks_like_url(n.as_str()) {
                Some(promote_www_exec(&n))
            } else {
                None
            }
        },
    }
}

pub open spec fn str_views(v: Seq<String>) -> Seq<Seq<char>> {
    v.map_values(|s: String| s@)
}

/// The arguments that are not blank.
pub open spec fn nonblank(urls: Seq<Seq<char>>) -> Seq<Seq<char>> {
    urls.filter(|u: Seq<char>| trim(u).len() > 0)
}

/// The clipboard is consulted only when no argument is a URL candidate and it
/// is not switched off.
pub fn needs_clipboard(urls: &Vec<String>, no_clipboard: bool) -> (r: bool)
    ensures
        r == (nonblank(str_views(urls@)).len() == 0 && !no_clipboard),
{
    let kept = retain_nonblank(urls);
    kept.len() == 0 && !no_clipboard
}

fn retain_nonblank(urls: &Vec<String>) -> (r: Vec<String>)
    ensures
        str_views(r@) == nonblank(str_views(urls@)),
{
    let ghost uv = str_views(urls@);
    let mut out: Vec<String> = Vec::new();
    let mut i: usize = 0;
    while i < urls.len()
        invariant
            i <= urls.len(),
            uv == str_views(urls@),
            str_views(out@) == nonblank(uv.take(i as int)),
        decreases urls.len() - i,
    {
        assert(uv.take(i + 1).drop_last() == uv.take(i as int));
        assert(uv.take(i + 1).last() == urls@[i as int]@);
        reveal_with_fuel(Seq::filter, 1);
        let v = chars_of(urls[i].as_str());
        let t = trim_chars(&v);
        let ghost before = str_views(out@);
        if t.len() > 0 {
            out.push(urls[i].clone());
            assert(str_views(out@) == before.push(urls@[i as int]@));
        }
        i += 1;
    }
    assert(uv.take(urls.len() as int) == uv);
    out
}

/// The URLs to fetch: the non-blank arguments, else the clipboard's link when
/// it may be used; each normalized, with `https://` before `www.`, keeping
/// those that look like URLs.
pub open spec fn resolve_urls_spec(
    urls: Seq<Seq<char>>,
    no_clipboard: bool,
    clipboard: Option<Seq<char>>,
) -> Seq<Seq<char>> {
    let kept = nonblank(urls);
    let all = if kept.len() == 0 && !no_clipboard {
        match clipboard {
            Some(c) => kept.push(c),
            None => kept,
        }
    } else {
        kept
    };
    all.map_values(|u: Seq<char>| promote_www(normalize_paste_spec(u))).filter(
        |u: Seq<char>| looks_like_url_spec(u),
    )
}

pub fn resolve_urls(urls: Vec<String>, no_clipboard: bool, clipboard: Option<String>) -> (r: Vec<
    String,
>)
    ensures
        str_views(r@) == resolve_urls_spec(
            str_views(urls@),
            no_clipboard,
            opt_str_view(clipboard),
        ),
{
    let mut all = retain_nonblank(&urls);
    if all.len() == 0 && !no_clipboard {
        match clipboard {
            Some(c) => {
                let ghost before = str_views(all@);
                all.push(c);
                assert(str_views(all@) == before.push(c@));
            },
            None => {},
        }
    }
    let ghost av = str_views(all@);
    let ghost mapped = av.map_values(|u: Seq<char>| promote_www(normalize_paste_spec(u)));
    let mut out: Vec<String> = Vec::new();
    let mut i: usize = 0;
    while i < all.len()
        invariant
            i <= all.len(),
            av == str_views(all@),
            mapped == av.map_values(|u: Seq<char>| promote_www(normalize_paste_spec(u))),
            str_views(out@) == mapped.take(i as int).filter(|u: Seq<char>| looks_like_url_spec(u)),
        decreases all.len() - i,
    {
        assert(mapped.take(i + 1).drop_last() == mapped.take(i as int));
        let n = normalize_paste(all[i].as_str());
        let p = promote_www_exec(&n);
        assert(p@ == mapped[i as int]);
        assert(mapped.take(i + 1).last() == mapped[i as int]);
        reveal_with_fuel(Seq::filter, 1);
        let ghost before = str_views(out@);
        if looks_like_url(p.as_str()) {
            out.push(p);
            assert(str_views(out@) == before.push(mapped[i as int]));
        }
        i += 1;
    }
    assert(mapped.take(all.len() as int) == mapped);
    out
}

/// Where downloads go.
#[derive(Debug)]
pub enum DestDir {
    /// The directory given on the command line.
    Given(String),
    /// The first Ventoy mount found.
    Ventoy,
    /// The music directory (audio extraction).
    Music,
    /// The video directory (streams).
    Videos,
    /// The download directory.
    Downloads,
}

/// The directory for the TUI: the one given, else the Ventoy mount when asked
/// for, else the download directory.
pub fn resolve_file_dir(dir: Option<String>, ventoy: bool) -> (r: DestDir)
    ensures
        match dir {
            Some(d) => r matches DestDir::Given(g) && g@ == d@,
            None => if ventoy {
                r is Ventoy
            } else {
                r is Downloads
            },
        },
{
    match dir {
        Some(d) => DestDir::Given(d),
        None => if ventoy {
            DestDir::Ventoy
        } else {
            DestDir::Downloads
        },
    }
}

/// The directory for command-line downloads: Ventoy when asked for, else the
/// one given, else music for audio, videos for streams, downloads otherwise.
pub fn choose_dest_dir(ventoy: bool, dir: Option<String>, audio: bool, media: bool) -> (r: DestDir)
    ensures
        ventoy ==> r is Ventoy,
        !ventoy ==> match dir {
            Some(d) => r matches DestDir::Given(g) && g@ == d@,
            None => if audio {
                r is Music
            } else if media {
                r is Videos
            } else {
                r is Downloads
            },
        },
{
    if ventoy {
        DestDir::Ventoy
    } else {
        match dir {
            Some(d) => DestDir::Given(d),
            None => if audio {
                DestDir::Music
            } else if media {
                DestDir::Videos
            } else {
                DestDir::Downloads
            },
        }
    }
}

/// The media mode of a command-line job: audio extraction, else video up to `quality`.
pub fn media_mode(audio: bool, quality: u32) -> (r: MediaMode)
    ensures
        r == (if audio {
            MediaMode::Audio
        } else {
            MediaMode::Video { max_height: quality }
        }),
{
    if audio {
        MediaMode::Audio
    } else {
        MediaMode::Video { max_height: quality }
    }
}

/// The name a plain download from the command line is saved under: the last
/// `/`-piece of the URL, sanitized, cut at the first `?`, or `download.bin`
/// when that leaves nothing.
pub open spec fn http_dest_name_spec(url: Seq<char>) -> Seq<char> {
    let name = sanitize_spec(split_on(url, '/').last());
    let first = split_on(name, '?')[0];
    if first.len() == 0 {
        fallback_name()
    } else {
        first
    }
}

/// `http_dest_name` does not hit the panicking cut of `sanitize_filename`.
pub open spec fn http_dest_name_ok(url: Seq<char>) -> bool {
    sanitize_ok(split_on(url, '/').last())
}

/// The saved name of a plain download, as `http_dest_name_spec` says; `None`
/// where sanitizing would cut inside a character.
pub fn http_dest_name(url: &str) -> (r: Option<String>)
    ensures
        r is Some <==> http_dest_name_ok(url@),
        r matches Some(n) ==> n@ == http_dest_name_spec(url@),
{
    let v = chars_of(url);
    let pieces = split_vec(&v, '/');
    assert(views(pieces@).last() == pieces@[pieces.len() - 1]@);
    let last = string_of(&pieces[pieces.len() - 1]);
    let name = match sanitize_filename_checked(last.as_str()) {
        Some(n) => n,
        None => {
            return None;
        },
    };
    let nv = chars_of(name.as_str());
    let parts = split_vec(&nv, '?');
    assert(views(parts@)[0] == parts@[0]@);
    if parts[0].len() == 0 {
        let mut s = owned("download.bin");
        proof {
            reveal_strlit("download.bin");
        }
        assert(s@ == fallback_name());
        Some(s)
    } else {
        Some(string_of(&parts[0]))
    }
}

/// `s` cut to at most `max` characters, ending in `…` when it was cut.
pub open spec fn truncate_spec(s: Seq<char>, max: nat) -> Seq<char> {
    if s.len() <= max {
        s
    } else {
        s.take(if max >= 1 {
            max - 1
        } else {
            0
        }) + seq!['\u{2026}']
    }
}

pub fn truncate(s: &str, max: usize) -> (r: String)
    ensures
        r@ == truncate_spec(s@, max as nat),
{
    let v = chars_of(s);
    if v.len() <= max {
        return owned(s);
    }
    let keep = if max >= 1 {
        max - 1
    } else {
        0
    };
    let mut out = crate::text::string_of_range(&v, 0, keep);
    assert(v@.subrange(0, keep as int) == v@.take(keep as int));
    push_char(&mut out, '\u{2026}');
    out
}

} // verus!
