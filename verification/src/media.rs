//! The stream pipeline's decisions: which links go through yt-dlp, what format
//! it is asked for, which stream URLs its answer holds, and how the parts are
//! named and put together. Running yt-dlp and ffmpeg stays outside the library.
use vstd::prelude::*;

use crate::resume::opt_str_view;
use crate::sys::{opt_view, path_exists, path_extension, path_is_file};
use crate::text::{
    after_last, after_last_exec, chars_of, contains_exec, contains_seq, dec, find_seq,
    first_occurrence, lower_ascii, lower_ascii_vec, owned, push_all, push_char, push_dec, split_on,
    split_vec, string_of, subvec, take_until, take_until_exec, trim, trim_chars, vec_eq, views,
};
use crate::util::{extension_of, first_free_spec, join_spec, path_join, sanitize_filename_checked, sanitize_ok, sanitize_spec};

verus! {

/// Default video quality height.
pub const DEFAULT_QUALITY: u32 = 720;

#[derive(Debug, Clone, Copy, PartialEq, Eq, Structural)]
pub enum MediaMode {
    /// Best video up to this height plus best audio, merged to mp4.
    Video { max_height: u32 },
    /// Audio extracted to mp3.
    Audio,
}

#[derive(Debug)]
pub struct MediaJob {
    pub url: String,
    pub title: String,
    pub mode: MediaMode,
    pub dest_dir: String,
}

#[derive(Debug, Clone, Copy, PartialEq, Eq, Structural)]
pub enum StreamKind {
    Video,
    Audio,
    Combined,
}

#[derive(Debug)]
pub struct StreamPart {
    pub url: String,
    pub kind: StreamKind,
    pub ext: String,
}

#[derive(Debug)]
pub struct ResolvedMedia {
    pub title: String,
    pub streams: Vec<StreamPart>,
    pub mode: MediaMode,
}

pub struct StreamPartView {
    pub url: Seq<char>,
    pub kind: StreamKind,
    pub ext: Seq<char>,
}

impl View for StreamPart {
    type V = StreamPartView;

    open spec fn view(&self) -> StreamPartView {
        StreamPartView { url: self.url@, kind: self.kind, ext: self.ext@ }
    }
}

pub open spec fn part_views(v: Seq<StreamPart>) -> Seq<StreamPartView> {
    v.map_values(|p: StreamPart| p@)
}

/// Hosts that almost always need yt-dlp rather than a plain download.
pub open spec fn stream_host(i: int) -> Seq<char> {
    if i == 0 {
        "youtube.com"@
    } else if i == 1 {
        "youtu.be"@
    } else if i == 2 {
        "youtube-nocookie.com"@
    } else if i == 3 {
        "vimeo.com"@
    } else if i == 4 {
        "twitch.tv"@
    } else if i == 5 {
        "tiktok.com"@
    } else if i == 6 {
        "twitter.com"@
    } else if i == 7 {
        "x.com"@
    } else if i == 8 {
        "reddit.com"@
    } else if i == 9 {
        "redd.it"@
    } else if i == 10 {
        "instagram.com"@
    } else if i == 11 {
        "facebook.com"@
    } else if i == 12 {
        "fb.watch"@
    } else if i == 13 {
        "bilibili.com"@
    } else if i == 14 {
        "soundcloud.com"@
    } else if i == 15 {
        "bandcamp.com"@
    } else if i == 16 {
        "dailymotion.com"@
    } else if i == 17 {
        "nicovideo.jp"@
    } else if i == 18 {
        "streamable.com"@
    } else if i == 19 {
        "rumble.com"@
    } else if i == 20 {
        "odysee.com"@
    } else {
        "music.youtube.com"@
    }
}

pub const STREAM_HOST_COUNT: usize = 22;

fn stream_host_exec(i: usize) -> (r: &'static str)
    requires
        i < STREAM_HOST_COUNT,
    ensures
        r@ == stream_host(i as int),
{
    if i == 0 {
        "youtube.com"
    } else if i == 1 {
        "youtu.be"
    } else if i == 2 {
        "youtube-nocookie.com"
    } else if i == 3 {
        "vimeo.com"
    } else if i == 4 {
        "twitch.tv"
    } else if i == 5 {
        "tiktok.com"
    } else if i == 6 {
        "twitter.com"
    } else if i == 7 {
        "x.com"
    } else if i == 8 {
        "reddit.com"
    } else if i == 9 {
        "redd.it"
    } else if i == 10 {
        "instagram.com"
    } else if i == 11 {
        "facebook.com"
    } else if i == 12 {
        "fb.watch"
    } else if i == 13 {
        "bilibili.com"
    } else if i == 14 {
        "soundcloud.com"
    } else if i == 15 {
        "bandcamp.com"
    } else if i == 16 {
        "dailymotion.com"
    } else if i == 17 {
        "nicovideo.jp"
    } else if i == 18 {
        "streamable.com"
    } else if i == 19 {
        "rumble.com"
    } else if i == 20 {
        "odysee.com"
    } else {
        "music.youtube.com"
    }
}

/// The URL without its scheme: what follows the first `://` (all of it when
/// there is none, as in `youtube.com/watch`).
pub open spec fn url_rest(url: Seq<char>) -> Seq<char> {
    match first_occurrence(url, "://"@) {
        Some(i) => url.skip(i + 3),
        None => url,
    }
}

/// The host a URL names: its authority (up to the first `/`, `?` or `#`),
/// without user information (up to the last `@`) or port (from the first `:`).
pub open spec fn url_host(url: Seq<char>) -> Seq<char> {
    take_until(after_last(take_until(url_rest(url), seq!['/', '?', '#']), '@'), seq![':'])
}

/// A host is `h` itself or a subdomain of it (ends in `.` followed by `h`).
pub open spec fn host_matches(host: Seq<char>, h: Seq<char>) -> bool {
    host == h || (host.len() > h.len() && host.skip(host.len() - h.len() - 1) == seq!['.'] + h)
}

/// The URL's host, in ASCII lowercase, is one of the stream hosts or a subdomain of one.
pub open spec fn is_stream_host_url(url: Seq<char>) -> bool {
    exists|i: int|
        0 <= i < STREAM_HOST_COUNT && host_matches(url_host(lower_ascii(url)), #[trigger] stream_host(i))
}

fn url_host_exec(url: &Vec<char>) -> (r: Vec<char>)
    ensures
        r@ == url_host(url@),
{
    proof {
        reveal_strlit("://");
    }
    let sep = chars_of("://");
    let rest = match find_seq(url, &sep) {
        Some(i) => {
            proof {
                crate::text::lemma_first_occurrence_is(url@, sep@, i as int);
            }
            assert(i + 3 <= url.len());
            let r = subvec(url, i + 3, url.len());
            assert(r@ == url@.skip(i + 3));
            r
        },
        None => {
            assert(first_occurrence(url@, sep@) is None);
            subvec(url, 0, url.len())
        },
    };
    assert(url@.subrange(0, url@.len() as int) == url@);
    let mut ends: Vec<char> = Vec::new();
    ends.push('/');
    ends.push('?');
    ends.push('#');
    assert(ends@ == seq!['/', '?', '#']);
    let authority = take_until_exec(&rest, &ends);
    let hostport = after_last_exec(&authority, '@');
    let mut colon: Vec<char> = Vec::new();
    colon.push(':');
    assert(colon@ == seq![':']);
    take_until_exec(&hostport, &colon)
}

fn host_matches_exec(host: &Vec<char>, h: &Vec<char>) -> (b: bool)
    ensures
        b == host_matches(host@, h@),
{
    if vec_eq(host, h) {
        return true;
    }
    if host.len() <= h.len() {
        return false;
    }
    let tail = subvec(host, host.len() - h.len() - 1, host.len());
    assert(tail@ == host@.skip(host.len() - h.len() - 1));
    let mut dotted: Vec<char> = Vec::new();
    dotted.push('.');
    let mut k: usize = 0;
    while k < h.len()
        invariant
            k <= h.len(),
            dotted@ == seq!['.'] + h@.take(k as int),
        decreases h.len() - k,
    {
        dotted.push(h[k]);
        assert(h@.take(k + 1) == h@.take(k as int).push(h@[k as int]));
        k += 1;
    }
    assert(h@.take(h.len() as int) == h@);
    vec_eq(&tail, &dotted)
}

pub fn looks_like_stream_host(url: &str) -> (r: bool)
    ensures
        r == is_stream_host_url(url@),
{
    let v = chars_of(url);
    let lower = lower_ascii_vec(&v);
    let host = url_host_exec(&lower);
    let mut i: usize = 0;
    while i < STREAM_HOST_COUNT
        invariant
            i <= STREAM_HOST_COUNT,
            host@ == url_host(lower_ascii(url@)),
            forall|k: int| 0 <= k < i ==> !host_matches(host@, #[trigger] stream_host(k)),
        decreases STREAM_HOST_COUNT - i,
    {
        let h = chars_of(stream_host_exec(i));
        if host_matches_exec(&host, &h) {
            return true;
        }
        i += 1;
    }
    false
}

/// Whether a URL goes through the media pipeline: never with `force_http`,
/// always with `force`, else when it looks like a stream host.
pub fn should_use_media(url: &str, force: bool, force_http: bool) -> (r: bool)
    ensures
        r == (!force_http && (force || is_stream_host_url(url@))),
{
    if force_http {
        return false;
    }
    if force {
        return true;
    }
    looks_like_stream_host(url)
}

/// A codec field names a codec when it is present, not empty and not `none`.
pub open spec fn has_codec(c: Option<Seq<char>>) -> bool {
    match c {
        Some(s) => s.len() > 0 && s != "none"@,
        None => false,
    }
}

/// Video and audio makes a combined stream, one of them alone a video or an
/// audio stream; a format with neither counts as combined.
pub open spec fn classify_spec(vcodec: Option<Seq<char>>, acodec: Option<Seq<char>>) -> StreamKind {
    let v = has_codec(vcodec);
    let a = has_codec(acodec);
    if v && !a {
        StreamKind::Video
    } else if !v && a {
        StreamKind::Audio
    } else {
        StreamKind::Combined
    }
}

fn has_codec_exec(c: &Option<String>) -> (b: bool)
    ensures
        b == has_codec(opt_str_view(*c)),
{
    proof {
        reveal_strlit("none");
    }
    match c {
        Some(s) => {
            let v = chars_of(s.as_str());
            let none = chars_of("none");
            v.len() > 0 && !crate::text::vec_eq(&v, &none)
        },
        None => false,
    }
}

pub fn classify_format(vcodec: &Option<String>, acodec: &Option<String>) -> (r: StreamKind)
    ensures
        r == classify_spec(opt_str_view(*vcodec), opt_str_view(*acodec)),
{
    let v = has_codec_exec(vcodec);
    let a = has_codec_exec(acodec);
    if v && !a {
        StreamKind::Video
    } else if !v && a {
        StreamKind::Audio
    } else {
        StreamKind::Combined
    }
}

/// The yt-dlp format selector for a mode.
pub open spec fn format_selector_spec(mode: MediaMode) -> Seq<char> {
    match mode {
        MediaMode::Video { max_height } => "bestvideo[height<="@ + dec(max_height as nat)
            + "]+bestaudio/best[height<="@ + dec(max_height as nat) + "]/best"@,
        MediaMode::Audio => "bestaudio/best"@,
    }
}

pub fn format_selector(mode: MediaMode) -> (r: String)
    ensures
        r@ == format_selector_spec(mode),
{
    match mode {
        MediaMode::Video { max_height } => {
            let mut s = owned("bestvideo[height<=");
            push_dec(&mut s, max_height as u64);
            push_all(&mut s, "]+bestaudio/best[height<=");
            push_dec(&mut s, max_height as u64);
            push_all(&mut s, "]/best");
            s
        },
        MediaMode::Audio => owned("bestaudio/best"),
    }
}

/// One format yt-dlp picked.
#[derive(Debug)]
pub struct RequestedFormat {
    pub url: Option<String>,
    pub vcodec: Option<String>,
    pub acodec: Option<String>,
    pub ext: Option<String>,
    pub height: Option<u32>,
}

/// One download yt-dlp would make.
#[derive(Debug)]
pub struct RequestedDownload {
    pub url: Option<String>,
    pub requested_formats: Vec<RequestedFormat>,
    pub filename: Option<String>,
    pub ext: Option<String>,
}

/// What yt-dlp's `-J` answer says about a link.
#[derive(Debug)]
pub struct MediaInfo {
    pub title: Option<String>,
    pub ext: Option<String>,
    pub requested_downloads: Vec<RequestedDownload>,
    pub url: Option<String>,
    pub urls: Vec<String>,
}

pub open spec fn or_default(o: Option<Seq<char>>, d: Seq<char>) -> Seq<char> {
    match o {
        Some(s) => s,
        None => d,
    }
}

/// The streams one picked format adds: its URL, if it has one.
pub open spec fn format_streams(f: RequestedFormat) -> Seq<StreamPartView> {
    match f.url {
        Some(u) => seq![
            StreamPartView {
                url: u@,
                kind: classify_spec(opt_str_view(f.vcodec), opt_str_view(f.acodec)),
                ext: or_default(opt_str_view(f.ext), "bin"@),
            },
        ],
        None => Seq::empty(),
    }
}

pub open spec fn formats_streams(fs: Seq<RequestedFormat>) -> Seq<StreamPartView>
    decreases fs.len(),
{
    if fs.len() == 0 {
        Seq::empty()
    } else {
        formats_streams(fs.drop_last()) + format_streams(fs.last())
    }
}

/// The streams one requested download adds: its picked formats when it has
/// any, else its own URL as one combined stream.
pub open spec fn download_streams(d: RequestedDownload) -> Seq<StreamPartView> {
    if d.requested_formats@.len() > 0 {
        formats_streams(d.requested_formats@)
    } else {
        match d.url {
            Some(u) => seq![
                StreamPartView {
                    url: u@,
                    kind: StreamKind::Combined,
                    ext: or_default(opt_str_view(d.ext), "mp4"@),
                },
            ],
            None => Seq::empty(),
        }
    }
}

pub open spec fn downloads_streams(ds: Seq<RequestedDownload>) -> Seq<StreamPartView>
    decreases ds.len(),
{
    if ds.len() == 0 {
        Seq::empty()
    } else {
        downloads_streams(ds.drop_last()) + download_streams(ds.last())
    }
}

/// The stream URLs in yt-dlp's answer: those of all requested downloads in
/// order, else the top-level URL as one combined stream.
pub open spec fn info_streams(info: MediaInfo) -> Seq<StreamPartView> {
    let s = downloads_streams(info.requested_downloads@);
    if s.len() > 0 {
        s
    } else {
        match info.url {
            Some(u) => seq![
                StreamPartView {
                    url: u@,
                    kind: StreamKind::Combined,
                    ext: or_default(opt_str_view(info.ext), "mp4"@),
                },
            ],
            None => Seq::empty(),
        }
    }
}

fn opt_or(o: &Option<String>, d: &str) -> (r: String)
    ensures
        r@ == or_default(opt_str_view(*o), d@),
{
    match o {
        Some(s) => s.clone(),
        None => owned(d),
    }
}

fn push_part(out: &mut Vec<StreamPart>, url: &String, kind: StreamKind, ext: String)
    ensures
        part_views(final(out)@) == part_views(old(out)@).push(
            StreamPartView { url: url@, kind, ext: ext@ },
        ),
{
    let ghost before = part_views(out@);
    out.push(StreamPart { url: url.clone(), kind, ext });
    assert(part_views(out@) == before.push(StreamPartView { url: url@, kind, ext: ext@ }));
}

fn append_download_streams(out: &mut Vec<StreamPart>, d: &RequestedDownload)
    ensures
        part_views(final(out)@) == part_views(old(out)@) + download_streams(*d),
{
    let ghost start = part_views(out@);
    if d.requested_formats.len() > 0 {
        let mut i: usize = 0;
        while i < d.requested_formats.len()
            invariant
                i <= d.requested_formats.len(),
                part_views(out@) == start + formats_streams(d.requested_formats@.take(i as int)),
            decreases d.requested_formats.len() - i,
        {
            let f = &d.requested_formats[i];
            assert(d.requested_formats@.take(i + 1).drop_last() == d.requested_formats@.take(
                i as int,
            ));
            assert(d.requested_formats@.take(i + 1).last() == *f);
            match &f.url {
                Some(u) => {
                    let kind = classify_format(&f.vcodec, &f.acodec);
                    let ext = opt_or(&f.ext, "bin");
                    push_part(out, u, kind, ext);
                },
                None => {},
            }
            assert(part_views(out@) == start + formats_streams(d.requested_formats@.take(i + 1)));
            i += 1;
        }
        assert(d.requested_formats@.take(d.requested_formats.len() as int)
            == d.requested_formats@);
    } else {
        match &d.url {
            Some(u) => {
                let ext = opt_or(&d.ext, "mp4");
                push_part(out, u, StreamKind::Combined, ext);
            },
            None => {},
        }
    }
}

/// The stream parts in yt-dlp's answer, as `info_streams` says.
pub fn streams_from_info(info: &MediaInfo) -> (r: Vec<StreamPart>)
    ensures
        part_views(r@) == info_streams(*info),
{
    let mut out: Vec<StreamPart> = Vec::new();
    let mut i: usize = 0;
    while i < info.requested_downloads.len()
        invariant
            i <= info.requested_downloads.len(),
            part_views(out@) == downloads_streams(info.requested_downloads@.take(i as int)),
        decreases info.requested_downloads.len() - i,
    {
        assert(info.requested_downloads@.take(i + 1).drop_last()
            == info.requested_downloads@.take(i as int));
        assert(info.requested_downloads@.take(i + 1).last() == info.requested_downloads@[i as int]);
        append_download_streams(&mut out, &info.requested_downloads[i]);
        i += 1;
    }
    assert(info.requested_downloads@.take(info.requested_downloads.len() as int)
        == info.requested_downloads@);
    if out.len() == 0 {
        match &info.url {
            Some(u) => {
                let ext = opt_or(&info.ext, "mp4");
                push_part(&mut out, u, StreamKind::Combined, ext);
            },
            None => {},
        }
    }
    out
}

/// The non-blank lines of `text`, trimmed.
pub open spec fn nonblank_lines(text: Seq<char>) -> Seq<Seq<char>> {
    split_on(text, '\n').map_values(|l: Seq<char>| trim(l)).filter(|l: Seq<char>| l.len() > 0)
}

/// The streams `yt-dlp -g` printed: one line is a combined stream; two or more
/// are a video stream and an audio stream (the rest ignored).
pub open spec fn g_output_streams(text: Seq<char>) -> Seq<StreamPartView> {
    let lines = nonblank_lines(text);
    if lines.len() == 0 {
        Seq::empty()
    } else if lines.len() == 1 {
        seq![StreamPartView { url: lines[0], kind: StreamKind::Combined, ext: "mp4"@ }]
    } else {
        seq![
            StreamPartView { url: lines[0], kind: StreamKind::Video, ext: "mp4"@ },
            StreamPartView { url: lines[1], kind: StreamKind::Audio, ext: "m4a"@ },
        ]
    }
}

pub fn streams_from_g_output(text: &str) -> (r: Vec<StreamPart>)
    ensures
        part_views(r@) == g_output_streams(text@),
{
    let v = chars_of(text);
    let pieces = split_vec(&v, '\n');
    let ghost pv = views(pieces@);
    let ghost tl = pv.map_values(|l: Seq<char>| trim(l));
    let mut lines: Vec<Vec<char>> = Vec::new();
    let mut i: usize = 0;
    while i < pieces.len()
        invariant
            i <= pieces.len(),
            pv == views(pieces@),
            pv == split_on(text@, '\n'),
            tl == pv.map_values(|l: Seq<char>| trim(l)),
            views(lines@) == tl.take(i as int).filter(|l: Seq<char>| l.len() > 0),
        decreases pieces.len() - i,
    {
        let t = trim_chars(&pieces[i]);
        assert(t@ == tl[i as int]);
        let ghost before = views(lines@);
        assert(tl.take(i + 1).drop_last() == tl.take(i as int));
        reveal_with_fuel(Seq::filter, 1);
        if t.len() > 0 {
            lines.push(t);
            assert(views(lines@) == before.push(tl[i as int]));
        }
        i += 1;
    }
    assert(tl.take(pieces.len() as int) == tl);
    assert(views(lines@) == nonblank_lines(text@));
    proof {
        reveal_strlit("mp4");
        reveal_strlit("m4a");
    }
    let mut out: Vec<StreamPart> = Vec::new();
    if lines.len() == 1 {
        let u = string_of(&lines[0]);
        push_part(&mut out, &u, StreamKind::Combined, owned("mp4"));
    } else if lines.len() >= 2 {
        let u0 = string_of(&lines[0]);
        let u1 = string_of(&lines[1]);
        push_part(&mut out, &u0, StreamKind::Video, owned("mp4"));
        push_part(&mut out, &u1, StreamKind::Audio, owned("m4a"));
    }
    out
}

/// The last line of the trimmed text, or `default` when nothing is left
/// (`text.trim().lines().last().unwrap_or(default)`).
pub open spec fn last_line_or_spec(text: Seq<char>, default: Seq<char>) -> Seq<char> {
    let t = trim(text);
    if t.len() == 0 {
        default
    } else {
        split_on(t, '\n').last()
    }
}

pub fn last_line_or(text: &str, default: &str) -> (r: String)
    ensures
        r@ == last_line_or_spec(text@, default@),
{
    let v = chars_of(text);
    let t = trim_chars(&v);
    if t.len() == 0 {
        return owned(default);
    }
    let pieces = split_vec(&t, '\n');
    assert(views(pieces@).last() == pieces@[pieces.len() - 1]@);
    string_of(&pieces[pieces.len() - 1])
}

/// The last `n` characters of `s` (all of it when shorter): the tail of a
/// tool's error output worth showing.
pub fn last_chars(s: &str, n: usize) -> (r: String)
    ensures
        r@ == (if s@.len() <= n {
            s@
        } else {
            s@.skip(s@.len() - n)
        }),
{
    let v = chars_of(s);
    if v.len() <= n {
        return owned(s);
    }
    let r = crate::text::string_of_range(&v, v.len() - n, v.len());
    assert(v@.subrange((v.len() - n) as int, v.len() as int) == v@.skip(v.len() - n));
    r
}

/// The title the saved media gets: yt-dlp's title (or `download`), sanitized.
/// `None` where sanitizing would cut inside a character.
pub fn media_title(title: &Option<String>) -> (r: Option<String>)
    ensures
        r is Some <==> sanitize_ok(or_default(opt_str_view(*title), "download"@)),
        r matches Some(t) ==> t@ == sanitize_spec(or_default(opt_str_view(*title), "download"@)),
{
    let t = opt_or(title, "download");
    sanitize_filename_checked(t.as_str())
}

pub open spec fn suffix_spec(kind: StreamKind) -> Seq<char> {
    match kind {
        StreamKind::Video => "video"@,
        StreamKind::Audio => "audio"@,
        StreamKind::Combined => "media"@,
    }
}

/// The temporary file a stream part is fetched into: `.junk_<pid>_<kind>.<ext>`.
pub fn part_file_name(pid: u32, kind: StreamKind, ext: &str) -> (r: String)
    ensures
        r@ == ".junk_"@ + dec(pid as nat) + seq!['_'] + suffix_spec(kind) + seq!['.'] + ext@,
{
    let mut s = owned(".junk_");
    push_dec(&mut s, pid as u64);
    push_char(&mut s, '_');
    match kind {
        StreamKind::Video => push_all(&mut s, "video"),
        StreamKind::Audio => push_all(&mut s, "audio"),
        StreamKind::Combined => push_all(&mut s, "media"),
    }
    push_char(&mut s, '.');
    push_all(&mut s, ext);
    s
}

/// The first index whose kind is `k`, or -1.
pub open spec fn first_kind(kinds: Seq<StreamKind>, k: StreamKind) -> int
    decreases kinds.len(),
{
    if kinds.len() == 0 {
        -1
    } else {
        let r = first_kind(kinds.drop_last(), k);
        if r >= 0 {
            r
        } else if kinds.last() == k {
            kinds.len() - 1
        } else {
            -1
        }
    }
}

fn first_kind_exec(kinds: &Vec<StreamKind>, k: StreamKind) -> (r: Option<usize>)
    ensures
        match r {
            Some(i) => first_kind(kinds@, k) == i,
            None => first_kind(kinds@, k) == -1,
        },
{
    let mut i: usize = 0;
    assert(kinds@.take(0) == Seq::<StreamKind>::empty());
    while i < kinds.len()
        invariant
            i <= kinds.len(),
            first_kind(kinds@.take(i as int), k) == -1,
        decreases kinds.len() - i,
    {
        assert(kinds@.take(i + 1).drop_last() == kinds@.take(i as int));
        if kinds[i] == k {
            proof {
                lemma_first_kind_prefix(kinds@, k, i + 1);
            }
            return Some(i);
        }
        i += 1;
    }
    assert(kinds@.take(kinds.len() as int) == kinds@);
    None
}

proof fn lemma_first_kind_prefix(s: Seq<StreamKind>, k: StreamKind, n: int)
    requires
        0 <= n <= s.len(),
        first_kind(s.take(n), k) >= 0,
    ensures
        first_kind(s, k) == first_kind(s.take(n), k),
    decreases s.len() - n,
{
    if n < s.len() {
        assert(s.take(n + 1).drop_last() == s.take(n));
        lemma_first_kind_prefix(s, k, n + 1);
    } else {
        assert(s.take(n) == s);
    }
}

/// Which downloaded parts ffmpeg merges: the first video part and the first
/// audio part, when both are there.
pub fn merge_inputs(kinds: &Vec<StreamKind>) -> (r: Option<(usize, usize)>)
    ensures
        match r {
            Some((v, a)) => first_kind(kinds@, StreamKind::Video) == v && first_kind(
                kinds@,
                StreamKind::Audio,
            ) == a,
            None => first_kind(kinds@, StreamKind::Video) == -1 || first_kind(
                kinds@,
                StreamKind::Audio,
            ) == -1,
        },
{
    match (first_kind_exec(kinds, StreamKind::Video), first_kind_exec(kinds, StreamKind::Audio)) {
        (Some(v), Some(a)) => Some((v, a)),
        _ => None,
    }
}

/// The character a tool's name contributes to its path-override variable:
/// ASCII letters upper-cased, `-` turned into `_`.
pub open spec fn var_char(c: char) -> char {
    if 'a' <= c <= 'z' {
        ((c as u32) - 32) as char
    } else if c == '-' {
        '_'
    } else {
        c
    }
}

/// The environment variable that points at a tool directly, checked before
/// `PATH`: `JUNK_<NAME>_PATH`, with the name upper-cased and `-` as `_`
/// (`JUNK_YT_DLP_PATH` for `yt-dlp`).
pub open spec fn tool_path_var_spec(name: Seq<char>) -> Seq<char> {
    "JUNK_"@ + name.map_values(|c: char| var_char(c)) + "_PATH"@
}

pub fn tool_path_var(name: &str) -> (r: String)
    ensures
        r@ == tool_path_var_spec(name@),
{
    let v = chars_of(name);
    let mut r = owned("JUNK_");
    let ghost start = r@;
    let mut i: usize = 0;
    while i < v.len()
        invariant
            i <= v.len(),
            start == "JUNK_"@,
            r@ == start + v@.take(i as int).map_values(|c: char| var_char(c)),
        decreases v.len() - i,
    {
        let c = v[i];
        let d = if 'a' <= c && c <= 'z' {
            let b: u8 = c as u8 - 32;
            b as char
        } else if c == '-' {
            '_'
        } else {
            c
        };
        assert(d == var_char(c));
        push_char(&mut r, d);
        assert(v@.take(i + 1).map_values(|c: char| var_char(c)) == v@.take(i as int).map_values(
            |c: char| var_char(c),
        ).push(var_char(c)));
        i += 1;
    }
    assert(v@.take(v.len() as int) == v@);
    push_all(&mut r, "_PATH");
    r
}

/// The places looked at for the tool `name` in one `PATH` directory `d`:
/// `d/name`, and on Windows also `d/name.exe`.
pub open spec fn dir_tool_candidates(d: Seq<char>, name: Seq<char>, windows: bool) -> Seq<Seq<char>> {
    if windows {
        seq![join_spec(d, name), join_spec(d, name + ".exe"@)]
    } else {
        seq![join_spec(d, name)]
    }
}

/// The places looked at for `name` in the `PATH` directories, in order.
pub open spec fn path_tool_candidates(name: Seq<char>, dirs: Seq<String>, windows: bool) -> Seq<
    Seq<char>,
>
    decreases dirs.len(),
{
    if dirs.len() == 0 {
        Seq::empty()
    } else {
        path_tool_candidates(name, dirs.drop_last(), windows) + dir_tool_candidates(
            dirs.last()@,
            name,
            windows,
        )
    }
}

/// Every place the tool `name` is looked for, in order: the path its override
/// variable gave, then the `PATH` candidates.
pub open spec fn tool_candidates_spec(
    name: Seq<char>,
    override_path: Option<Seq<char>>,
    dirs: Seq<String>,
    windows: bool,
) -> Seq<Seq<char>> {
    (match override_path {
        Some(p) => seq![p],
        None => Seq::empty(),
    }) + path_tool_candidates(name, dirs, windows)
}

/// The tool found, from the answers `missing[k]` to "is candidate `k` not a
/// file?": the first candidate that is one, or none.
pub open spec fn pick_tool(cands: Seq<Seq<char>>, missing: Seq<bool>) -> Option<Seq<char>> {
    let k = first_free_spec(missing);
    if k < missing.len() && k < cands.len() {
        Some(cands[k as int])
    } else {
        None
    }
}

pub open spec fn string_views(v: Seq<String>) -> Seq<Seq<char>> {
    v.map_values(|s: String| s@)
}

/// The places where the tool `name` is looked for, in order.
pub fn tool_candidates(name: &str, override_path: &Option<String>, path_dirs: &Vec<String>, windows: bool) -> (r: Vec<String>)
    ensures
        string_views(r@) == tool_candidates_spec(name@, opt_view(*override_path), path_dirs@, windows),
{
    proof {
        reveal_strlit(".exe");
    }
    let mut out: Vec<String> = Vec::new();
    match override_path {
        Some(p) => out.push(p.clone()),
        None => {},
    }
    let ghost head = string_views(out@);
    assert(head == (match opt_view(*override_path) {
        Some(p) => seq![p],
        None => Seq::<Seq<char>>::empty(),
    }));
    let mut exe = owned(name);
    push_all(&mut exe, ".exe");
    let mut i: usize = 0;
    while i < path_dirs.len()
        invariant
            i <= path_dirs.len(),
            exe@ == name@ + ".exe"@,
            string_views(out@) == head + path_tool_candidates(
                name@,
                path_dirs@.take(i as int),
                windows,
            ),
        decreases path_dirs.len() - i,
    {
        let ghost before = string_views(out@);
        let c = path_join(path_dirs[i].as_str(), name);
        out.push(c);
        if windows {
            let e = path_join(path_dirs[i].as_str(), exe.as_str());
            out.push(e);
        }
        assert(path_dirs@.take(i + 1).drop_last() == path_dirs@.take(i as int));
        assert(path_dirs@.take(i + 1).last() == path_dirs@[i as int]);
        assert(string_views(out@) == before + dir_tool_candidates(path_dirs@[i as int]@, name@, windows));
        i += 1;
    }
    assert(path_dirs@.take(path_dirs.len() as int) == path_dirs@);
    out
}

/// The answers flipped: "is a file" into "is missing".
pub open spec fn not_seq(s: Seq<bool>) -> Seq<bool> {
    s.map_values(|b: bool| !b)
}

/// The tool found from the answers `is_file[k]` to "is candidate `k` a
/// file?": the first candidate answered yes, or none.
pub fn pick_found_in(cands: &Vec<String>, is_file: &Vec<bool>) -> (r: Option<String>)
    ensures
        opt_view(r) == pick_tool(string_views(cands@), not_seq(is_file@)),
{
    let mut missing: Vec<bool> = Vec::new();
    let mut i: usize = 0;
    while i < is_file.len()
        invariant
            i <= is_file.len(),
            missing@ == not_seq(is_file@.take(i as int)),
        decreases is_file.len() - i,
    {
        missing.push(!is_file[i]);
        assert(not_seq(is_file@.take(i + 1)) == not_seq(is_file@.take(i as int)).push(!is_file@[i as int]));
        i += 1;
    }
    assert(is_file@.take(is_file.len() as int) == is_file@);
    let ghost cv = string_views(cands@);
    let k = crate::util::first_free(&missing);
    assert(cv.len() == cands@.len());
    if k < missing.len() && k < cands.len() {
        assert(cv[k as int] == cands@[k as int]@);
        Some(cands[k].clone())
    } else {
        None
    }
}

/// Answers to "is candidate `k` a file?" gathered by asking in order, stopping
/// at the first file or after all `n` candidates: every answer but the last
/// says "no", and the questions stop early only at a file.
pub open spec fn asked_until_found(is_file: Seq<bool>, n: nat) -> bool {
    crate::util::asked_until_free(not_seq(is_file), n)
}

/// The asking order: the answers to "is candidate `k` a file?", asked in
/// order and stopping at the first yes. The disk answers; the contract states
/// the order they were asked in.
fn file_answers(cands: &Vec<String>) -> (is_file: Vec<bool>)
    ensures
        asked_until_found(is_file@, cands@.len()),
{
    let mut is_file: Vec<bool> = Vec::new();
    let mut n: usize = 0;
    let mut done = false;
    while !done && n < cands.len()
        invariant
            n <= cands.len(),
            !done ==> is_file@.len() == n && forall|j: int| 0 <= j < n ==> !#[trigger] is_file@[j],
            done ==> asked_until_found(is_file@, cands@.len()),
        decreases cands.len() - n, (if done { 0int } else { 1int }),
    {
        let f = path_is_file(cands[n].as_str());
        is_file.push(f);
        if f {
            done = true;
        } else {
            n += 1;
        }
        proof {
            let m = not_seq(is_file@);
            assert(m.len() == is_file@.len());
            assert forall|j: int| 0 <= j < is_file@.len() implies #[trigger] m[j] == !is_file@[j] by {}
        }
    }
    proof {
        let m = not_seq(is_file@);
        assert forall|j: int| 0 <= j < is_file@.len() implies #[trigger] m[j] == !is_file@[j] by {}
    }
    is_file
}

/// When no tool is found from answers gathered in order, every candidate was
/// asked about and none is a file.
pub proof fn lemma_tool_none_means_all_asked(cands: Seq<Seq<char>>, is_file: Seq<bool>)
    requires
        asked_until_found(is_file, cands.len()),
        pick_tool(cands, not_seq(is_file)) is None,
    ensures
        is_file.len() == cands.len(),
        forall|j: int| 0 <= j < cands.len() ==> !#[trigger] is_file[j],
{
    let m = not_seq(is_file);
    crate::util::lemma_first_free_after_asking(m, cands.len());
    assert forall|j: int| 0 <= j < cands.len() implies !#[trigger] is_file[j] by {
        assert(m[j] == !is_file[j]);
    }
}

/// The first tool found among `c1` (asked about first), else among `c2`.
pub open spec fn prefer_pick(
    c1: Seq<Seq<char>>,
    m1: Seq<bool>,
    c2: Seq<Seq<char>>,
    m2: Seq<bool>,
) -> Option<Seq<char>> {
    match pick_tool(c1, m1) {
        Some(p) => Some(p),
        None => pick_tool(c2, m2),
    }
}

/// The tool found from both lists' answers: the first file among `c1`, else
/// the first among `c2`.
pub fn pick_found(c1: &Vec<String>, is_file1: &Vec<bool>, c2: &Vec<String>, is_file2: &Vec<bool>) -> (r:
    Option<String>)
    ensures
        opt_view(r) == prefer_pick(
            string_views(c1@),
            not_seq(is_file1@),
            string_views(c2@),
            not_seq(is_file2@),
        ),
{
    match pick_found_in(c1, is_file1) {
        Some(p) => Some(p),
        None => pick_found_in(c2, is_file2),
    }
}

/// The yt-dlp executable, else the youtube-dl one, each looked for among its
/// candidates (`tool_candidates`): the disk is asked about the yt-dlp
/// candidates in order, up to the first file, and only when none is a file
/// about the youtube-dl ones; `pick_found` picks from the answers. The answers
/// are the disk's, so the contract holds for whatever they were.
pub fn find_yt_dlp(
    yt_dlp_override: Option<String>,
    youtube_dl_override: Option<String>,
    path_dirs: &Vec<String>,
    windows: bool,
) -> (r: Option<String>)
    ensures
        exists|f1: Seq<bool>, f2: Seq<bool>|
            asked_until_found(
                f1,
                tool_candidates_spec("yt-dlp"@, opt_view(yt_dlp_override), path_dirs@, windows).len(),
            ) && (if pick_tool(
                tool_candidates_spec("yt-dlp"@, opt_view(yt_dlp_override), path_dirs@, windows),
                not_seq(f1),
            ) is Some {
                f2.len() == 0
            } else {
                asked_until_found(
                    f2,
                    tool_candidates_spec(
                        "youtube-dl"@,
                        opt_view(youtube_dl_override),
                        path_dirs@,
                        windows,
                    ).len(),
                )
            }) && opt_view(r) == #[trigger] prefer_pick(
                tool_candidates_spec("yt-dlp"@, opt_view(yt_dlp_override), path_dirs@, windows),
                not_seq(f1),
                tool_candidates_spec("youtube-dl"@, opt_view(youtube_dl_override), path_dirs@, windows),
                not_seq(f2),
            ),
        exists|f1: Seq<bool>, f2: Seq<bool>|
            f1.len() <= tool_candidates_spec("yt-dlp"@, opt_view(yt_dlp_override), path_dirs@, windows).len()
                && f2.len() <= tool_candidates_spec(
                "youtube-dl"@,
                opt_view(youtube_dl_override),
                path_dirs@,
                windows,
            ).len() && opt_view(r) == #[trigger] prefer_pick(
                tool_candidates_spec("yt-dlp"@, opt_view(yt_dlp_override), path_dirs@, windows),
                not_seq(f1),
                tool_candidates_spec("youtube-dl"@, opt_view(youtube_dl_override), path_dirs@, windows),
                not_seq(f2),
            ),
{
    let c1 = tool_candidates("yt-dlp", &yt_dlp_override, path_dirs, windows);
    let c2 = tool_candidates("youtube-dl", &youtube_dl_override, path_dirs, windows);
    let a1 = file_answers(&c1);
    let a2 = if pick_found_in(&c1, &a1).is_some() {
        Vec::new()
    } else {
        file_answers(&c2)
    };
    let r = pick_found(&c1, &a1, &c2, &a2);
    assert(opt_view(r) == prefer_pick(
        string_views(c1@),
        not_seq(a1@),
        string_views(c2@),
        not_seq(a2@),
    ));
    r
}

/// The ffmpeg executable, looked for among its candidates (`tool_candidates`):
/// the disk is asked about them in order, up to the first file, and
/// `pick_found_in` picks from the answers. The answers are the disk's, so the
/// contract holds for whatever they were.
pub fn find_ffmpeg(ffmpeg_override: Option<String>, path_dirs: &Vec<String>, windows: bool) -> (r:
    Option<String>)
    ensures
        exists|f: Seq<bool>|
            #[trigger] asked_until_found(
                f,
                tool_candidates_spec("ffmpeg"@, opt_view(ffmpeg_override), path_dirs@, windows).len(),
            ) && opt_view(r) == pick_tool(
                tool_candidates_spec("ffmpeg"@, opt_view(ffmpeg_override), path_dirs@, windows),
                not_seq(f),
            ),
        exists|f: Seq<bool>|
            f.len() <= tool_candidates_spec("ffmpeg"@, opt_view(ffmpeg_override), path_dirs@, windows).len()
                && opt_view(r) == #[trigger] pick_tool(
                tool_candidates_spec("ffmpeg"@, opt_view(ffmpeg_override), path_dirs@, windows),
                not_seq(f),
            ),
{
    let c = tool_candidates("ffmpeg", &ffmpeg_override, path_dirs, windows);
    let a = file_answers(&c);
    let r = pick_found_in(&c, &a);
    assert(opt_view(r) == pick_tool(string_views(c@), not_seq(a@)));
    r
}

/// How the downloaded parts become the saved file.
#[derive(Debug, Clone, Copy, PartialEq, Eq, Structural)]
pub enum FinishPlan {
    /// One part: it is renamed, keeping its own extension.
    KeepOnly,
    /// ffmpeg merges the video part and the audio part at these indices into mp4.
    Merge { video: usize, audio: usize },
    /// Several parts but no video/audio pair: the first is renamed as mp4.
    FirstAsMp4,
}

/// What becomes of parts of these kinds, in download order.
pub open spec fn finish_plan_spec(kinds: Seq<StreamKind>) -> FinishPlan {
    if kinds.len() == 1 {
        FinishPlan::KeepOnly
    } else {
        let v = first_kind(kinds, StreamKind::Video);
        let a = first_kind(kinds, StreamKind::Audio);
        if v >= 0 && a >= 0 {
            FinishPlan::Merge { video: v as usize, audio: a as usize }
        } else {
            FinishPlan::FirstAsMp4
        }
    }
}

pub fn finish_plan(kinds: &Vec<StreamKind>) -> (r: FinishPlan)
    ensures
        r == finish_plan_spec(kinds@),
{
    if kinds.len() == 1 {
        return FinishPlan::KeepOnly;
    }
    match merge_inputs(kinds) {
        Some((v, a)) => FinishPlan::Merge { video: v, audio: a },
        None => FinishPlan::FirstAsMp4,
    }
}

/// Why a media download cannot go on before anything is fetched: a video
/// download of several streams needs ffmpeg to merge them.
pub open spec fn ffmpeg_missing_spec(mode: MediaMode, has_ffmpeg: bool, n_streams: nat) -> Option<
    Seq<char>,
> {
    if mode is Video && !has_ffmpeg && n_streams > 1 {
        Some("ffmpeg required to merge video+audio (like ytdl). Install ffmpeg."@)
    } else {
        None
    }
}

pub fn ffmpeg_missing(mode: MediaMode, has_ffmpeg: bool, n_streams: usize) -> (r: Option<String>)
    ensures
        opt_str_view(r) == ffmpeg_missing_spec(mode, has_ffmpeg, n_streams as nat),
{
    match mode {
        MediaMode::Video { .. } => {
            if !has_ffmpeg && n_streams > 1 {
                Some(owned("ffmpeg required to merge video+audio (like ytdl). Install ffmpeg."))
            } else {
                None
            }
        },
        MediaMode::Audio => None,
    }
}

/// The extension a single downloaded part keeps: its own, or `mp4`.
pub fn part_extension(path: &str) -> (r: String)
    ensures
        r@ == or_default(path_extension(path@), "mp4"@),
{
    match extension_of(path) {
        Some(e) => e,
        None => owned("mp4"),
    }
}

/// Alternative `k` for a media file `<title>.<ext>` in `dir`: the plain name
/// for 0, `<title>-<k>.<ext>` for 1 to 999, `<title>-dup.<ext>` from 1000 on.
pub open spec fn media_candidate_spec(dir: Seq<char>, title: Seq<char>, ext: Seq<char>, k: nat) -> Seq<
    char,
> {
    if k == 0 {
        join_spec(dir, title + seq!['.'] + ext)
    } else if k < 1000 {
        join_spec(dir, title + seq!['-'] + dec(k) + seq!['.'] + ext)
    } else {
        join_spec(dir, title + seq!['-', 'd', 'u', 'p', '.'] + ext)
    }
}

pub fn media_candidate(dir: &str, title: &str, ext: &str, k: u32) -> (r: String)
    ensures
        r@ == media_candidate_spec(dir@, title@, ext@, k as nat),
{
    let mut name = owned(title);
    if k == 0 {
    } else if k < 1000 {
        push_char(&mut name, '-');
        push_dec(&mut name, k as u64);
    } else {
        push_all(&mut name, "-dup");
        proof {
            reveal_strlit("-dup");
        }
    }
    push_char(&mut name, '.');
    push_all(&mut name, ext);
    path_join(dir, name.as_str())
}

/// A free path for the media file: the plain name if free, else the first
/// free numbered alternative, else the `-dup` one. The disk answers which
/// exist (asked in that order, stopping at the first free one); `first_free`
/// picks from its answers.
pub fn unique_media_path(dir: &str, title: &str, ext: &str) -> (r: String)
    ensures
        exists|taken: Seq<bool>|
            #[trigger] crate::util::asked_until_free(taken, 1000) && r@ == media_candidate_spec(
                dir@,
                title@,
                ext@,
                first_free_spec(taken),
            ),
        exists|taken: Seq<bool>|
            taken.len() <= 1000 && r@ == media_candidate_spec(dir@, title@, ext@, first_free_spec(taken)),
        exists|k: nat| k <= 1000 && r@ == media_candidate_spec(dir@, title@, ext@, k),
{
    let taken = crate::util::existence_answers(dir, Some((dir, title, ext)), 1000);
    let k = crate::util::first_free(&taken);
    let r = media_candidate(dir, title, ext, k as u32);
    assert(r@ == media_candidate_spec(dir@, title@, ext@, first_free_spec(taken@)));
    r
}

} // verus!
