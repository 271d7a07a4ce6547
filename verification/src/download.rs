//! The decisions of the download engine: options, cancellation, what a probe
//! of the server tells, whether an earlier partial download may be resumed,
//! how the file is split, and the HTTP `Range` headers it asks for. The HTTP
//! transfers themselves run outside the verified library.
use vstd::prelude::*;

use std::sync::atomic::AtomicBool;
use std::sync::Arc;

use crate::error::{JunkError, Result};
use crate::resume::{opt_str_view, split_segments, split_spec, ResumeState, SegmentState};
use crate::sys::{opt_view, parent_of, path_exists, path_parent};
use crate::text::{
    chars_of, contains_exec, contains_seq, dec, find_seq, first_occurrence, lower_ascii,
    lower_ascii_vec, occurs_at, owned, parse_u64, parse_u64_spec, push_all, push_char,
    push_dec, split_on, split_vec, starts_with, str_eq, string_of, subvec, trim, trim_char,
    trim_char_vec, trim_chars, vec_eq, vec_starts_with, views,
};
use crate::util::{
    fallback_name, filename_from_url_checked, filename_from_url_ok, filename_from_url_spec,
    asked_until_free, first_free_spec, join_spec, path_join, sanitize_filename_checked, sanitize_ok, sanitize_spec,
    unique_candidate_spec, unique_path,
};

verus! {

/// How a download runs: the connections it may open, the shared flags that
/// cancel or pause it, and the job it reports progress for.
pub struct DownloadOptions {
    pub connections: u32,
    pub cancel: Arc<AtomicBool>,
    pub pause: Arc<AtomicBool>,
    pub job_id: u64,
}

/// Another handle on the same shared flag (`Arc::clone`).
#[verifier::external_body]
pub(crate) fn share_flag(flag: &Arc<AtomicBool>) -> (r: Arc<AtomicBool>)
    ensures
        r == *flag,
{
    Arc::clone(flag)
}

impl DownloadOptions {
    /// A copy of the options that shares their flags.
    pub fn share(&self) -> (r: DownloadOptions)
        ensures
            r.connections == self.connections,
            r.job_id == self.job_id,
            r.cancel == self.cancel,
            r.pause == self.pause,
    {
        DownloadOptions {
            connections: self.connections,
            cancel: share_flag(&self.cancel),
            pause: share_flag(&self.pause),
            job_id: self.job_id,
        }
    }
}

/// Raises or lowers a shared flag.
pub fn set_flag(flag: &Arc<AtomicBool>, value: bool) {
    flag.store(value, std::sync::atomic::Ordering::Relaxed);
}

/// Reads a shared flag. Other threads may change it at any time, so nothing is
/// promised of the answer.
pub fn flag_is_set(flag: &Arc<AtomicBool>) -> bool {
    flag.load(std::sync::atomic::Ordering::Relaxed)
}

/// `Err(Cancelled)` once cancellation has been requested, else `Ok(())`.
/// The flag is shared with other threads, so either answer may come.
pub fn check_cancel(opts: &DownloadOptions) -> (r: Result<()>)
    ensures
        r matches Err(e) ==> e@ == crate::error::JunkErrorView::Cancelled,
{
    if opts.cancel.load(std::sync::atomic::Ordering::Relaxed) {
        Err(JunkError::Cancelled)
    } else {
        Ok(())
    }
}


// ---------------------------------------------------------------------------
// Content-Disposition
// ---------------------------------------------------------------------------

/// `s.replace("%20", " ")`.
pub open spec fn percent_simple_spec(s: Seq<char>) -> Seq<char>
    decreases s.len(),
{
    if s.len() == 0 {
        s
    } else if s.len() >= 3 && s[0] == '%' && s[1] == '2' && s[2] == '0' {
        seq![' '] + percent_simple_spec(s.skip(3))
    } else {
        seq![s[0]] + percent_simple_spec(s.skip(1))
    }
}

pub fn percent_simple(s: &Vec<char>) -> (r: Vec<char>)
    ensures
        r@ == percent_simple_spec(s@),
{
    let mut out: Vec<char> = Vec::new();
    let mut i: usize = 0;
    assert(s@.skip(0) == s@);
    while i < s.len()
        invariant
            i <= s.len(),
            out@ + percent_simple_spec(s@.skip(i as int)) == percent_simple_spec(s@),
        decreases s.len() - i,
    {
        let ghost rest = s@.skip(i as int);
        if s.len() - i >= 3 && s[i] == '%' && s[i + 1] == '2' && s[i + 2] == '0' {
            assert(rest[0] == '%' && rest[1] == '2' && rest[2] == '0');
            assert(rest.skip(3) == s@.skip(i + 3));
            out.push(' ');
            assert(out@ + percent_simple_spec(s@.skip(i + 3)) == percent_simple_spec(s@));
            i += 3;
        } else {
            assert(rest[0] == s@[i as int]);
            assert(rest.skip(1) == s@.skip(i + 1));
            out.push(s[i]);
            assert(out@ + percent_simple_spec(s@.skip(i + 1)) == percent_simple_spec(s@));
            i += 1;
        }
    }
    assert(out@ + Seq::<char>::empty() == out@);
    out
}

/// The file name one `;`-separated part of a `Content-Disposition` header
/// gives before sanitizing: `filename*=` (with an RFC 5987 charset prefix
/// dropped up to `''` and `%20` read as a space) or `filename=`, quotes
/// trimmed; `None` for any other part.
pub open spec fn disposition_part_name(part: Seq<char>) -> Option<Seq<char>> {
    let p = trim(part);
    if starts_with(p, "filename*="@) {
        let rest = trim_char(p.skip(10), '"');
        match first_occurrence(rest, "''"@) {
            Some(idx) => Some(percent_simple_spec(rest.skip(idx + 2))),
            None => Some(trim_char(rest, '"')),
        }
    } else if starts_with(p, "filename="@) {
        Some(trim_char(p.skip(9), '"'))
    } else {
        None
    }
}

/// The name the first part with a file name gives.
pub open spec fn disposition_first(parts: Seq<Seq<char>>) -> Option<Seq<char>>
    decreases parts.len(),
{
    if parts.len() == 0 {
        None
    } else {
        match disposition_part_name(parts[0]) {
            Some(n) => Some(n),
            None => disposition_first(parts.drop_first()),
        }
    }
}

pub open spec fn disposition_raw(h: Seq<char>) -> Option<Seq<char>> {
    disposition_first(split_on(h, ';'))
}

/// Reading the header does not hit the panicking cut of `sanitize_filename`.
pub open spec fn disposition_ok(h: Seq<char>) -> bool {
    match disposition_raw(h) {
        Some(n) => sanitize_ok(n),
        None => true,
    }
}

/// What `parse_content_disposition` returns: the sanitized name of the first
/// part that names a file.
pub open spec fn disposition_spec(h: Seq<char>) -> Option<Seq<char>> {
    match disposition_raw(h) {
        Some(n) => Some(sanitize_spec(n)),
        None => None,
    }
}

fn disposition_part_exec(part: &Vec<char>) -> (r: Option<Vec<char>>)
    ensures
        match r {
            Some(v) => disposition_part_name(part@) == Some(v@),
            None => disposition_part_name(part@) is None,
        },
{
    proof {
        reveal_strlit("filename*=");
        reveal_strlit("filename=");
        reveal_strlit("''");
    }
    let p = trim_chars(part);
    let star = chars_of("filename*=");
    let plain = chars_of("filename=");
    if vec_starts_with(&p, &star) {
        let after = subvec(&p, 10, p.len());
        assert(after@ == p@.skip(10));
        let rest = trim_char_vec(&after, '"');
        let quotes = chars_of("''");
        match find_seq(&rest, &quotes) {
            Some(idx) => {
                proof {
                    assert(first_occurrence(rest@, quotes@) == Some(idx as int)) by {
                        let c = choose|i: int|
                            occurs_at(rest@, quotes@, i) && forall|k: int|
                                0 <= k < i ==> !occurs_at(rest@, quotes@, k);
                        assert(occurs_at(rest@, quotes@, idx as int) && forall|k: int|
                            0 <= k < idx ==> !occurs_at(rest@, quotes@, k));
                        if c < idx {
                        } else if c > idx {
                        }
                    }
                }
                let tail = subvec(&rest, idx + 2, rest.len());
                assert(tail@ == rest@.skip(idx + 2));
                Some(percent_simple(&tail))
            },
            None => Some(trim_char_vec(&rest, '"')),
        }
    } else if vec_starts_with(&p, &plain) {
        let after = subvec(&p, 9, p.len());
        assert(after@ == p@.skip(9));
        Some(trim_char_vec(&after, '"'))
    } else {
        None
    }
}

fn disposition_raw_exec(h: &str) -> (r: Option<Vec<char>>)
    ensures
        match r {
            Some(v) => disposition_raw(h@) == Some(v@),
            None => disposition_raw(h@) is None,
        },
{
    let hv = chars_of(h);
    let parts = split_vec(&hv, ';');
    let ghost pv = views(parts@);
    let mut i: usize = 0;
    assert(pv.skip(0) == pv);
    while i < parts.len()
        invariant
            i <= parts.len(),
            pv == views(parts@),
            pv == split_on(h@, ';'),
            disposition_first(pv) == disposition_first(pv.skip(i as int)),
        decreases parts.len() - i,
    {
        assert(pv.skip(i as int)[0] == parts@[i as int]@);
        assert(pv.skip(i as int).drop_first() == pv.skip(i + 1));
        match disposition_part_exec(&parts[i]) {
            Some(n) => {
                return Some(n);
            },
            None => {},
        }
        i += 1;
    }
    None
}

/// The sanitized file name a `Content-Disposition` header names, if any.
pub fn parse_content_disposition(h: &str) -> (r: Option<String>)
    requires
        disposition_ok(h@),
    ensures
        opt_view(r) == disposition_spec(h@),
{
    match disposition_raw_exec(h) {
        None => None,
        Some(n) => {
            let s = string_of(&n);
            match sanitize_filename_checked(s.as_str()) {
                Some(name) => Some(name),
                None => {
                    assert(false);
                    None
                },
            }
        },
    }
}

/// Whether reading `h` stays clear of the panicking cut of `sanitize_filename`:
/// the test that `parse_content_disposition` asks of its callers.
pub fn disposition_fits(h: &str) -> (b: bool)
    ensures
        b == disposition_ok(h@),
{
    match disposition_raw_exec(h) {
        None => true,
        Some(n) => {
            let s = string_of(&n);
            sanitize_filename_checked(s.as_str()).is_some()
        },
    }
}


// ---------------------------------------------------------------------------
// Probing the server
// ---------------------------------------------------------------------------

/// The response headers a probe reads, each as text when it is visible ASCII.
pub struct ProbeHeaders {
    pub etag: Option<String>,
    pub last_modified: Option<String>,
    pub accept_ranges: Option<String>,
    pub content_length: Option<String>,
    pub content_range: Option<String>,
    /// A `Content-Range` header is present (even if it is not text).
    pub has_content_range: bool,
    pub content_disposition: Option<String>,
}

/// What a probe of the URL learned.
pub struct Probe {
    pub final_url: String,
    pub size: Option<u64>,
    pub accept_ranges: bool,
    pub etag: Option<String>,
    pub last_modified: Option<String>,
    pub filename: Option<String>,
}

pub struct ProbeHeadersView {
    pub etag: Option<Seq<char>>,
    pub last_modified: Option<Seq<char>>,
    pub accept_ranges: Option<Seq<char>>,
    pub content_length: Option<Seq<char>>,
    pub content_range: Option<Seq<char>>,
    pub has_content_range: bool,
    pub content_disposition: Option<Seq<char>>,
}

impl View for ProbeHeaders {
    type V = ProbeHeadersView;

    open spec fn view(&self) -> ProbeHeadersView {
        ProbeHeadersView {
            etag: opt_str_view(self.etag),
            last_modified: opt_str_view(self.last_modified),
            accept_ranges: opt_str_view(self.accept_ranges),
            content_length: opt_str_view(self.content_length),
            content_range: opt_str_view(self.content_range),
            has_content_range: self.has_content_range,
            content_disposition: opt_str_view(self.content_disposition),
        }
    }
}

pub struct ProbeView {
    pub final_url: Seq<char>,
    pub size: Option<u64>,
    pub accept_ranges: bool,
    pub etag: Option<Seq<char>>,
    pub last_modified: Option<Seq<char>>,
    pub filename: Option<Seq<char>>,
}

impl View for Probe {
    type V = ProbeView;

    open spec fn view(&self) -> ProbeView {
        ProbeView {
            final_url: self.final_url@,
            size: self.size,
            accept_ranges: self.accept_ranges,
            etag: opt_str_view(self.etag),
            last_modified: opt_str_view(self.last_modified),
            filename: opt_str_view(self.filename),
        }
    }
}

/// The second `/`-separated piece of `s` (`s.split('/').nth(1)`).
pub open spec fn second_piece(s: Seq<char>) -> Option<Seq<char>> {
    let parts = split_on(s, '/');
    if parts.len() > 1 {
        Some(parts[1])
    } else {
        None
    }
}

pub open spec fn opt_parse(o: Option<Seq<char>>) -> Option<u64> {
    match o {
        Some(s) => parse_u64_spec(s),
        None => None,
    }
}

/// Ranges work when `Accept-Ranges` mentions `bytes` (in any case), when the
/// answer was 206 Partial Content, or when a `Content-Range` came back.
pub open spec fn accepts_ranges_spec(h: ProbeHeadersView, partial: bool) -> bool {
    (match h.accept_ranges {
        Some(a) => contains_seq(lower_ascii(a), "bytes"@),
        None => false,
    }) || partial || h.has_content_range
}

/// The size: with a `Content-Range` (the reply is a slice), the total after
/// its `/` when that is a number, and unknown otherwise (`*`); the
/// `Content-Length` of a slice is never taken for the size. Without one, a
/// full reply's `Content-Length`.
pub open spec fn probe_size_spec(h: ProbeHeadersView, partial: bool) -> Option<u64> {
    match h.content_range {
        Some(cr) => match second_piece(cr) {
            Some(total) => parse_u64_spec(total),
            None => None,
        },
        None => if partial || h.has_content_range {
            None
        } else {
            opt_parse(h.content_length)
        },
    }
}

/// The file name: from `Content-Disposition`, else from the final URL, else
/// from the URL asked for, where these give more than the `download.bin` fallback.
pub open spec fn probe_filename_spec(
    h: ProbeHeadersView,
    final_url: Seq<char>,
    original_url: Seq<char>,
) -> Option<Seq<char>> {
    let from_header = match h.content_disposition {
        Some(cd) => disposition_spec(cd),
        None => None,
    };
    match from_header {
        Some(n) => Some(n),
        None => {
            let n = filename_from_url_spec(final_url);
            if n != fallback_name() {
                Some(n)
            } else {
                let n2 = filename_from_url_spec(original_url);
                if n2 != fallback_name() {
                    Some(n2)
                } else {
                    None
                }
            }
        },
    }
}

/// Reading the probe does not hit the panicking cut of `sanitize_filename`.
pub open spec fn probe_ok(h: ProbeHeadersView, final_url: Seq<char>, original_url: Seq<char>) -> bool {
    let cd_ok = match h.content_disposition {
        Some(cd) => disposition_ok(cd),
        None => true,
    };
    let from_header = match h.content_disposition {
        Some(cd) => disposition_spec(cd),
        None => None,
    };
    &&& cd_ok
    &&& from_header is None ==> filename_from_url_ok(final_url)
    &&& (from_header is None && filename_from_url_spec(final_url) == fallback_name())
        ==> filename_from_url_ok(original_url)
}

pub open spec fn probe_spec(
    partial: bool,
    final_url: Seq<char>,
    original_url: Seq<char>,
    h: ProbeHeadersView,
) -> ProbeView {
    ProbeView {
        final_url,
        size: probe_size_spec(h, partial),
        accept_ranges: accepts_ranges_spec(h, partial),
        etag: h.etag,
        last_modified: h.last_modified,
        filename: probe_filename_spec(h, final_url, original_url),
    }
}

fn opt_parse_exec(o: &Option<String>) -> (r: Option<u64>)
    ensures
        r == opt_parse(opt_str_view(*o)),
{
    match o {
        Some(s) => {
            let v = chars_of(s.as_str());
            parse_u64(&v)
        },
        None => None,
    }
}

fn second_piece_exec(s: &str) -> (r: Option<Vec<char>>)
    ensures
        match r {
            Some(v) => second_piece(s@) == Some(v@),
            None => second_piece(s@) is None,
        },
{
    let v = chars_of(s);
    let parts = split_vec(&v, '/');
    if parts.len() > 1 {
        assert(views(parts@)[1] == parts@[1]@);
        Some(subvec(&parts[1], 0, parts[1].len()))
    } else {
        None
    }
}

fn clone_opt(o: &Option<String>) -> (r: Option<String>)
    ensures
        opt_str_view(r) == opt_str_view(*o),
{
    match o {
        Some(s) => Some(s.clone()),
        None => None,
    }
}

fn is_fallback(s: &String) -> (b: bool)
    ensures
        b == (s@ == fallback_name()),
{
    proof {
        reveal_strlit("download.bin");
    }
    let r = str_eq(s.as_str(), "download.bin");
    assert("download.bin"@ == fallback_name());
    r
}

/// What the response to a probe of `original_url` tells, once it was answered
/// (after redirects) from `final_url`, with status 206 when `partial`.
/// `None` where naming the file would hit the panicking cut of `sanitize_filename`.
pub fn probe_from_headers(
    partial: bool,
    final_url: &str,
    original_url: &str,
    h: &ProbeHeaders,
) -> (r: Option<Probe>)
    ensures
        r is Some <==> probe_ok(h@, final_url@, original_url@),
        r matches Some(p) ==> p@ == probe_spec(partial, final_url@, original_url@, h@),
{
    proof {
        reveal_strlit("bytes");
    }
    // Accept-Ranges
    let mut accept = false;
    match &h.accept_ranges {
        Some(a) => {
            let av = chars_of(a.as_str());
            let lower = lower_ascii_vec(&av);
            let pat = chars_of("bytes");
            accept = contains_exec(&lower, &pat);
        },
        None => {},
    }
    let accept_ranges = accept || partial || h.has_content_range;
    // size
    let size: Option<u64> = match &h.content_range {
        Some(cr) => match second_piece_exec(cr.as_str()) {
            Some(total) => parse_u64(&total),
            None => None,
        },
        None => if partial || h.has_content_range {
            None
        } else {
            opt_parse_exec(&h.content_length)
        },
    };
    assert(size == probe_size_spec(h@, partial));
    // file name
    let mut from_header: Option<String> = None;
    match &h.content_disposition {
        Some(cd) => {
            if !disposition_fits(cd.as_str()) {
                return None;
            }
            from_header = parse_content_disposition(cd.as_str());
        },
        None => {},
    }
    let filename: Option<String> = match from_header {
        Some(n) => Some(n),
        None => match filename_from_url_checked(final_url) {
            None => {
                return None;
            },
            Some(n) => {
                if !is_fallback(&n) {
                    Some(n)
                } else {
                    match filename_from_url_checked(original_url) {
                        None => {
                            return None;
                        },
                        Some(n2) => {
                            if !is_fallback(&n2) {
                                Some(n2)
                            } else {
                                None
                            }
                        },
                    }
                }
            },
        },
    };
    Some(
        Probe {
            final_url: owned(final_url),
            size,
            accept_ranges,
            etag: clone_opt(&h.etag),
            last_modified: clone_opt(&h.last_modified),
            filename,
        },
    )
}

// ---------------------------------------------------------------------------
// Resuming
// ---------------------------------------------------------------------------

/// An earlier partial download may be resumed when it was of the same URL (as
/// asked or as finally answered), of the same size where the server says one,
/// and of the same ETag where both know one.
pub open spec fn resume_matches(
    st: crate::resume::ResumeStateView,
    url: Seq<char>,
    probe: ProbeView,
) -> bool {
    &&& !(st.url != probe.final_url && st.url != url)
    &&& probe.size matches Some(sz) ==> st.total_size == sz
    &&& probe.etag matches Some(et) ==> (st.etag == Some(et) || st.etag is None)
}

/// A partial download is resumed only if it is the file the server now
/// offers: whenever the server tells a size, a resumable state has exactly
/// that size, whether or not an ETag is known; whenever it tells an ETag, the
/// state has that ETag or none; and the state's URL is the one asked for or
/// the one finally answered. A state of another size is never resumable.
pub proof fn lemma_resume_needs_same_file(
    st: crate::resume::ResumeStateView,
    url: Seq<char>,
    probe: ProbeView,
)
    ensures
        resume_matches(st, url, probe) ==> (probe.size matches Some(sz) ==> st.total_size == sz),
        resume_matches(st, url, probe) ==> (probe.etag matches Some(et) ==> (st.etag is None
            || st.etag == Some(et))),
        resume_matches(st, url, probe) ==> (st.url == probe.final_url || st.url == url),
        (probe.size matches Some(sz) && st.total_size != sz) ==> !resume_matches(st, url, probe),
{
}

fn opt_eq(a: &Option<String>, b: &String) -> (r: bool)
    ensures
        r == (opt_str_view(*a) == Some(b@)),
{
    match a {
        Some(x) => str_eq(x.as_str(), b.as_str()),
        None => false,
    }
}

/// The loaded resume state, kept only when it matches the probe.
pub fn validate_resume(state: Option<ResumeState>, url: &str, probe: &Probe) -> (r: Option<
    ResumeState,
>)
    ensures
        match state {
            Some(st) => if resume_matches(st@, url@, probe@) {
                r == Some(st)
            } else {
                r is None
            },
            None => r is None,
        },
        r matches Some(s) ==> state == Some(s),
        r matches Some(s) ==> (s@.url == probe@.final_url || s@.url == url@),
        r matches Some(s) ==> (probe@.size matches Some(sz) ==> s@.total_size == sz),
        r matches Some(s) ==> (probe@.etag matches Some(et) ==> (s@.etag is None || s@.etag
            == Some(et))),
{
    match state {
        None => None,
        Some(st) => {
            if !str_eq(st.url.as_str(), probe.final_url.as_str()) && !str_eq(st.url.as_str(), url) {
                return None;
            }
            match probe.size {
                Some(sz) => {
                    if st.total_size != sz {
                        return None;
                    }
                },
                None => {},
            }
            match &probe.etag {
                Some(et) => {
                    if !opt_eq(&st.etag, et) && st.etag.is_some() {
                        return None;
                    }
                },
                None => {},
            }
            Some(st)
        },
    }
}

/// Whether the download runs over several ranged connections: only when the
/// server takes ranges and tells a size above zero.
pub fn use_multi(probe: &Probe) -> (r: bool)
    ensures
        r == (probe.accept_ranges && (match probe.size {
            Some(s) => s > 0,
            None => false,
        })),
{
    match probe.size {
        Some(s) => probe.accept_ranges && s > 0,
        None => false,
    }
}

/// Where the file goes: beside `dest`, under the probe's file name when it has one.
pub open spec fn final_dest_spec(dest: Seq<char>, filename: Option<Seq<char>>) -> Seq<char> {
    match filename {
        Some(name) => match path_parent(dest) {
            Some(parent) => join_spec(parent, name),
            None => dest,
        },
        None => dest,
    }
}

pub fn final_dest(dest: &str, filename: &Option<String>) -> (r: String)
    ensures
        r@ == final_dest_spec(dest@, opt_str_view(*filename)),
{
    match filename {
        Some(name) => match parent_of(dest) {
            Some(parent) => path_join(parent.as_str(), name.as_str()),
            None => owned(dest),
        },
        None => owned(dest),
    }
}

/// The segments a multi-connection download of `total` bytes starts from: the
/// resumed ones when a matching state of that size exists and its partial file
/// is there (answered `true`: keep the partial file), else a fresh split
/// (answered `false`: the partial file is to be removed).
pub fn initial_segments(
    existing: Option<ResumeState>,
    total: u64,
    part_exists: bool,
    connections: u32,
) -> (r: (Vec<SegmentState>, bool))
    ensures
        match existing {
            Some(st) => if st.total_size == total && part_exists {
                r.0@ == st.segments@ && r.1
            } else {
                r.0@ == split_spec(total, connections) && !r.1
            },
            None => r.0@ == split_spec(total, connections) && !r.1,
        },
{
    match existing {
        Some(st) => {
            if st.total_size == total && part_exists {
                (st.segments, true)
            } else {
                (split_segments(total, connections), false)
            }
        },
        None => (split_segments(total, connections), false),
    }
}

/// `bytes=<start>-<end>`.
pub open spec fn range_header_spec(start: u64, end: u64) -> Seq<char> {
    "bytes="@ + dec(start as nat) + seq!['-'] + dec(end as nat)
}

/// A request for the rest of a segment: the first byte to fetch, its `Range`
/// header, and how many bytes to expect.
pub struct SegmentRequest {
    pub abs_start: u64,
    pub range: String,
    pub need: u64,
}

/// The request for the unwritten rest of segment `start..=end` with `done`
/// bytes written, or `None` when nothing is left.
pub fn segment_request(start: u64, end: u64, done: u64) -> (r: Option<SegmentRequest>)
    requires
        start + done <= u64::MAX,
        !(start + done == 0 && end == u64::MAX),
    ensures
        match r {
            None => start + done > end,
            Some(q) => start + done <= end && q.abs_start == start + done && q.range@
                == range_header_spec(q.abs_start, end) && q.need == end - q.abs_start + 1,
        },
{
    let abs_start = start + done;
    if abs_start > end {
        return None;
    }
    let mut range = owned("bytes=");
    push_dec(&mut range, abs_start);
    push_char(&mut range, '-');
    push_dec(&mut range, end);
    Some(SegmentRequest { abs_start, range, need: end - abs_start + 1 })
}

/// Resuming fetches only the holes: for a segment with `done` bytes written,
/// `segment_request` asks for nothing exactly when the segment is complete,
/// and otherwise for exactly the `len - done` bytes that are still missing,
/// the last ones of the segment.
pub proof fn lemma_resume_fetches_only_holes(seg: SegmentState)
    requires
        seg.start <= seg.end,
        seg.start + seg.done <= u64::MAX,
        !(seg.start == 0 && seg.end == u64::MAX),
    ensures
        (seg.start + seg.done > seg.end) <==> seg.done >= crate::resume::seg_len(seg),
        seg.start + seg.done <= seg.end ==> seg.end - (seg.start + seg.done) + 1
            == crate::resume::seg_len(seg) - seg.done,
        seg.start + seg.done <= seg.end ==> seg.end == seg.start + crate::resume::seg_len(seg) - 1,
{
}

/// The error text for a segment that ended short: `segment <i>: short read (<written>/<len>)`.
pub fn short_read_message(idx: u64, written: u64, len: u64) -> (r: String)
    ensures
        r@ == "segment "@ + dec(idx as nat) + ": short read ("@ + dec(written as nat) + seq!['/']
            + dec(len as nat) + seq![')'],
{
    let mut m = owned("segment ");
    push_dec(&mut m, idx);
    push_all(&mut m, ": short read (");
    push_dec(&mut m, written);
    push_char(&mut m, '/');
    push_dec(&mut m, len);
    push_char(&mut m, ')');
    m
}

/// Whether an HTTP status is taken as an answer with a body: any success
/// status (2xx, which includes 206 Partial Content).
pub fn status_accepted(status: u16) -> (r: bool)
    ensures
        r == (200 <= status < 300),
{
    200 <= status && status < 300
}

/// How many times a segment is tried before its error fails the download.
pub const MAX_RETRIES: u32 = 4;

/// After the `attempt`-th try of a segment failed: wait this many milliseconds
/// and try again, or give up (`None`) when the download was cancelled or the
/// tries are used up.
pub fn retry_delay_ms(attempt: u32, cancelled: bool) -> (r: Option<u64>)
    ensures
        r == (if !cancelled && attempt < MAX_RETRIES {
            Some((200 * attempt) as u64)
        } else {
            None
        }),
{
    if !cancelled && attempt < MAX_RETRIES {
        Some(200 * attempt as u64)
    } else {
        None
    }
}

/// A segment whose transfer ended is complete when all its bytes were
/// written; otherwise the download fails with the short-read message.
pub fn segment_finished(idx: u64, seg: SegmentState, written: u64) -> (r: Result<()>)
    ensures
        written >= crate::resume::seg_len(seg) <==> r is Ok,
        r matches Err(e) ==> e@ == crate::error::JunkErrorView::Http(
            "segment "@ + dec(idx as nat) + ": short read ("@ + dec(written as nat) + seq!['/']
                + dec(crate::resume::seg_len(seg)) + seq![')'],
        ),
{
    let len = seg.len();
    if written < len {
        Err(JunkError::Http(short_read_message(idx, written, len)))
    } else {
        Ok(())
    }
}

/// The `Range` header that resumes a single-stream download at `offset`:
/// `bytes=<offset>-`, or none when starting from the beginning.
pub fn resume_range_header(offset: u64) -> (r: Option<String>)
    ensures
        match r {
            None => offset == 0,
            Some(h) => offset > 0 && h@ == "bytes="@ + dec(offset as nat) + seq!['-'],
        },
{
    if offset > 0 {
        let mut h = owned("bytes=");
        push_dec(&mut h, offset);
        push_char(&mut h, '-');
        Some(h)
    } else {
        None
    }
}

/// How a single-stream download proceeds after the response: with 206 Partial
/// Content it appends at `offset` and the total comes from `Content-Range`
/// (else what the probe knew); with a full body it starts over at 0 (the
/// answered flag says the partial file is to be dropped when there was one) and
/// the total is `Content-Length` (else what the probe knew).
pub fn single_total(
    partial: bool,
    content_range: &Option<String>,
    content_length: &Option<String>,
    offset: u64,
    known: Option<u64>,
) -> (r: (Option<u64>, u64, bool))
    ensures
        partial ==> r == (
            match opt_str_view(*content_range) {
                Some(cr) => match second_piece(cr) {
                    Some(t) => match parse_u64_spec(t) {
                        Some(v) => Some(v),
                        None => known,
                    },
                    None => known,
                },
                None => known,
            },
            offset,
            false,
        ),
        !partial ==> r == (
            match opt_parse(opt_str_view(*content_length)) {
                Some(l) => Some(l),
                None => known,
            },
            0u64,
            offset > 0,
        ),
{
    if partial {
        let total = match content_range {
            Some(cr) => match second_piece_exec(cr.as_str()) {
                Some(t) => match parse_u64(&t) {
                    Some(v) => Some(v),
                    None => known,
                },
                None => known,
            },
            None => known,
        };
        (total, offset, false)
    } else {
        let total = match opt_parse_exec(content_length) {
            Some(l) => Some(l),
            None => known,
        };
        (total, 0, offset > 0)
    }
}

/// The path a finished download is renamed to: `dest` when it is free, else
/// the first free alternative beside it, as `unique_path` picks it (the disk
/// answers which exist).
pub fn final_path_for(dest: &str) -> (r: String)
    ensures
        exists|taken: Seq<bool>|
            #[trigger] asked_until_free(taken, 1000) && r@ == unique_candidate_spec(
                dest@,
                first_free_spec(taken),
            ),
        exists|taken: Seq<bool>|
            taken.len() <= 1000 && r@ == unique_candidate_spec(dest@, first_free_spec(taken)),
        exists|k: nat| k <= 1000 && r@ == unique_candidate_spec(dest@, k),
{
    unique_path(dest)
}

} // verus!
