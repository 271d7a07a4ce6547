use std::sync::atomic::{AtomicBool, Ordering};
use std::sync::Arc;

use junk_core::download::{
    check_cancel, disposition_fits, final_dest, final_path_for, initial_segments,
    parse_content_disposition, probe_from_headers, resume_range_header, segment_request,
    short_read_message, single_total, use_multi, validate_resume, Probe, ProbeHeaders,
};
use junk_core::{part_path, split_segments, state_path, DownloadOptions, JunkError, ResumeState};

fn headers() -> ProbeHeaders {
    ProbeHeaders {
        etag: None,
        last_modified: None,
        accept_ranges: None,
        content_length: None,
        content_range: None,
        has_content_range: false,
        content_disposition: None,
    }
}

fn probe(size: Option<u64>, ranges: bool, etag: Option<&str>) -> Probe {
    Probe {
        final_url: "https://cdn.example.com/big.iso".to_string(),
        size,
        accept_ranges: ranges,
        etag: etag.map(|e| e.to_string()),
        last_modified: None,
        filename: Some("big.iso".to_string()),
    }
}

fn state(url: &str, total: u64, etag: Option<&str>) -> ResumeState {
    ResumeState {
        url: url.to_string(),
        total_size: total,
        etag: etag.map(|e| e.to_string()),
        last_modified: None,
        segments: split_segments(total, 2),
    }
}

#[test]
fn content_disposition_plain_and_quoted() {
    assert_eq!(
        parse_content_disposition("attachment; filename=\"report.pdf\""),
        Some("report.pdf".to_string())
    );
    assert_eq!(
        parse_content_disposition("attachment;filename=plain.txt"),
        Some("plain.txt".to_string())
    );
    assert_eq!(parse_content_disposition("inline"), None);
    assert_eq!(
        parse_content_disposition("attachment; filename=\"a/b:c.txt\""),
        Some("a_b_c.txt".to_string())
    );
    assert!(disposition_fits("attachment; filename=\"report.pdf\""));
}

#[test]
fn content_disposition_extended() {
    assert_eq!(
        parse_content_disposition("attachment; filename*=UTF-8''my%20file.iso"),
        Some("my file.iso".to_string())
    );
    // the first part that names a file wins
    assert_eq!(
        parse_content_disposition("attachment; filename*=UTF-8''first.bin; filename=\"second.bin\""),
        Some("first.bin".to_string())
    );
    assert_eq!(
        parse_content_disposition("attachment; filename=\"\""),
        Some("download.bin".to_string())
    );
}

#[test]
fn probe_reads_ranges_size_and_name() {
    let mut h = headers();
    h.accept_ranges = Some("Bytes".to_string());
    h.content_length = Some("1000".to_string());
    h.etag = Some("\"abc\"".to_string());
    let p = probe_from_headers(false, "https://cdn.example.com/f/big.iso", "https://x.org/get", &h)
        .unwrap();
    assert!(p.accept_ranges);
    assert_eq!(p.size, Some(1000));
    assert_eq!(p.etag.as_deref(), Some("\"abc\""));
    assert_eq!(p.final_url, "https://cdn.example.com/f/big.iso");
    assert_eq!(p.filename.as_deref(), Some("big.iso"));
    assert!(use_multi(&p));
}

#[test]
fn probe_size_prefers_content_range_total() {
    let mut h = headers();
    h.content_length = Some("1".to_string());
    h.content_range = Some("bytes 0-0/5000".to_string());
    h.has_content_range = true;
    let p = probe_from_headers(true, "https://e.com/a.bin", "https://e.com/a.bin", &h).unwrap();
    assert_eq!(p.size, Some(5000));
    assert!(p.accept_ranges);

    // an unknown total: the slice's Content-Length is not the size
    let mut h = headers();
    h.content_length = Some("1".to_string());
    h.content_range = Some("bytes 0-0/*".to_string());
    h.has_content_range = true;
    let p = probe_from_headers(true, "https://e.com/a.bin", "https://e.com/a.bin", &h).unwrap();
    assert_eq!(p.size, None);
    assert!(p.accept_ranges);
    assert!(!use_multi(&p));

    // a 206 slice without a readable Content-Range has no known size either
    let mut h = headers();
    h.content_length = Some("1".to_string());
    let p = probe_from_headers(true, "https://e.com/a.bin", "https://e.com/a.bin", &h).unwrap();
    assert_eq!(p.size, None);
}

#[test]
fn probe_without_ranges_or_size() {
    let mut h = headers();
    h.accept_ranges = Some("none".to_string());
    h.content_length = Some("12x".to_string());
    let p = probe_from_headers(false, "https://e.com/", "https://e.com/", &h).unwrap();
    assert!(!p.accept_ranges);
    assert_eq!(p.size, None);
    assert_eq!(p.filename, None);
    assert!(!use_multi(&p));
}

#[test]
fn probe_name_falls_back_to_original_url() {
    let h = headers();
    let p = probe_from_headers(false, "https://cdn.e.com/", "https://e.com/dl/tool.tar.gz", &h)
        .unwrap();
    assert_eq!(p.filename.as_deref(), Some("tool.tar.gz"));
    let mut h = headers();
    h.content_disposition = Some("attachment; filename=\"named.zip\"".to_string());
    let p = probe_from_headers(false, "https://cdn.e.com/x.bin", "https://e.com/y.bin", &h).unwrap();
    assert_eq!(p.filename.as_deref(), Some("named.zip"));
}

#[test]
fn content_length_parses_like_str_parse() {
    for s in ["0", "+12", "18446744073709551615", "18446744073709551616", "", "-1", " 5"] {
        let mut h = headers();
        h.content_length = Some(s.to_string());
        let p = probe_from_headers(false, "https://e.com/a", "https://e.com/a", &h).unwrap();
        assert_eq!(p.size, s.parse::<u64>().ok(), "input {:?}", s);
    }
}

#[test]
fn resume_state_kept_only_when_it_matches() {
    let url = "https://example.com/big.iso";
    let p = probe(Some(1000), true, Some("e1"));
    assert!(validate_resume(Some(state(url, 1000, Some("e1"))), url, &p).is_some());
    // the final URL matches too
    assert!(validate_resume(
        Some(state("https://cdn.example.com/big.iso", 1000, None)),
        url,
        &p
    )
    .is_some());
    assert!(validate_resume(Some(state("https://other/x", 1000, None)), url, &p).is_none());
    assert!(validate_resume(Some(state(url, 999, Some("e1"))), url, &p).is_none());
    assert!(validate_resume(Some(state(url, 1000, Some("e2"))), url, &p).is_none());
    assert!(validate_resume(None, url, &p).is_none());
    // without a size or ETag from the server, only the URL matters
    let p2 = probe(None, false, None);
    assert!(validate_resume(Some(state(url, 5, Some("zz"))), url, &p2).is_some());
}

#[test]
fn initial_segments_resume_or_split() {
    let st = state("u", 1000, None);
    let (segs, keep) = initial_segments(Some(st), 1000, true, 4);
    assert!(keep);
    assert_eq!(segs.len(), 2);
    let (segs, keep) = initial_segments(Some(state("u", 1000, None)), 1000, false, 4);
    assert!(!keep);
    assert_eq!(segs.len(), 4);
    let (segs, keep) = initial_segments(Some(state("u", 10, None)), 1000, true, 3);
    assert!(!keep);
    assert_eq!(segs.len(), 3);
    let (segs, keep) = initial_segments(None, 100, true, 2);
    assert!(!keep);
    assert_eq!((segs[0].start, segs[0].end, segs[1].start, segs[1].end), (0, 49, 50, 99));
}

#[test]
fn segment_requests_and_range_headers() {
    let q = segment_request(100, 199, 0).unwrap();
    assert_eq!(q.abs_start, 100);
    assert_eq!(q.range, "bytes=100-199");
    assert_eq!(q.need, 100);
    let q = segment_request(100, 199, 60).unwrap();
    assert_eq!(q.range, "bytes=160-199");
    assert_eq!(q.need, 40);
    assert!(segment_request(100, 199, 100).is_none());
    assert_eq!(resume_range_header(0), None);
    assert_eq!(resume_range_header(4096), Some("bytes=4096-".to_string()));
    assert_eq!(short_read_message(2, 10, 20), "segment 2: short read (10/20)");
}

#[test]
fn single_stream_totals() {
    let cr = Some("bytes 100-999/1000".to_string());
    assert_eq!(single_total(true, &cr, &None, 100, Some(5)), (Some(1000), 100, false));
    assert_eq!(single_total(true, &None, &None, 100, Some(5)), (Some(5), 100, false));
    let cl = Some("1234".to_string());
    assert_eq!(single_total(false, &cr, &cl, 100, None), (Some(1234), 0, true));
    assert_eq!(single_total(false, &None, &None, 0, Some(9)), (Some(9), 0, false));
}

#[test]
fn final_destination_beside_dest() {
    assert_eq!(
        final_dest("/tmp/dl/download.bin", &Some("real.iso".to_string())),
        "/tmp/dl/real.iso"
    );
    assert_eq!(final_dest("/tmp/dl/download.bin", &None), "/tmp/dl/download.bin");
    assert_eq!(final_dest("relative.bin", &Some("x.iso".to_string())), "x.iso");
}

#[test]
fn final_path_is_dest_when_free() {
    let p = "/nonexistent-junk-test-dir/sub/file.iso";
    assert_eq!(final_path_for(p), p);
}

#[test]
fn cancel_flag_is_checked() {
    let opts = DownloadOptions {
        connections: 4,
        cancel: Arc::new(AtomicBool::new(false)),
        pause: Arc::new(AtomicBool::new(false)),
        job_id: 1,
    };
    assert!(check_cancel(&opts).is_ok());
    let shared = opts.share();
    shared.cancel.store(true, Ordering::Relaxed);
    assert!(matches!(check_cancel(&opts), Err(JunkError::Cancelled)));
    assert_eq!(shared.job_id, 1);
    assert_eq!(shared.connections, 4);
}

#[test]
fn sidecar_paths() {
    assert_eq!(part_path("/tmp/dl/a.iso"), "/tmp/dl/a.iso.junk.part");
    assert_eq!(state_path("/tmp/dl/a.iso"), "/tmp/dl/a.iso.junk.state.json");
}

#[test]
fn segment_retry_policy() {
    assert_eq!(junk_core::download::retry_delay_ms(1, false), Some(200));
    assert_eq!(junk_core::download::retry_delay_ms(3, false), Some(600));
    assert_eq!(junk_core::download::retry_delay_ms(4, false), None);
    assert_eq!(junk_core::download::retry_delay_ms(1, true), None);
}

#[test]
fn segment_completion() {
    let seg = junk_core::SegmentState { start: 100, end: 199, done: 0 };
    assert!(junk_core::download::segment_finished(3, seg, 100).is_ok());
    match junk_core::download::segment_finished(3, seg, 40) {
        Err(JunkError::Http(m)) => assert_eq!(m, "segment 3: short read (40/100)"),
        other => panic!("unexpected {:?}", other),
    }
}

#[test]
fn range_server_download_plan() {
    // HEAD answer of a server that takes ranges, for a 256 KiB file
    let mut h = headers();
    h.content_length = Some((256 * 1024).to_string());
    h.accept_ranges = Some("bytes".to_string());
    let url = "http://127.0.0.1:8080/file.bin";
    let p = probe_from_headers(false, url, url, &h).unwrap();
    assert!(use_multi(&p));
    assert_eq!(p.filename.as_deref(), Some("file.bin"));
    assert_eq!(final_dest("/tmp/t/file.bin", &p.filename), "/tmp/t/file.bin");
    let (segs, keep) = initial_segments(None, p.size.unwrap(), false, 8);
    assert!(!keep);
    assert_eq!(segs.len(), 8);
    let mut next = 0u64;
    for (i, s) in segs.iter().enumerate() {
        let q = segment_request(s.start, s.end, s.done).unwrap();
        assert_eq!(q.abs_start, next);
        assert_eq!(q.need, 32 * 1024);
        assert_eq!(q.range, format!("bytes={}-{}", next, next + 32 * 1024 - 1));
        next += q.need;
        assert!(junk_core::download::segment_finished(i as u64, *s, q.need).is_ok());
    }
    assert_eq!(next, 256 * 1024);
}

#[test]
fn cancelled_download_stops() {
    let opts = DownloadOptions {
        connections: 4,
        cancel: Arc::new(AtomicBool::new(false)),
        pause: Arc::new(AtomicBool::new(false)),
        job_id: 2,
    };
    opts.cancel.store(true, Ordering::Relaxed);
    assert!(matches!(check_cancel(&opts), Err(JunkError::Cancelled)));
    assert_eq!(junk_core::download::retry_delay_ms(1, true), None);
}
