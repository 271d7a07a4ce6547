use junk_core::resume::{split_segments, ResumeState, SegmentState};
use junk_core::util::{filename_from_url, format_eta, human_bytes, sanitize_filename};

#[test]
fn split_covers_all_bytes() {
    let segs = split_segments(1000, 4);
    assert_eq!(segs.len(), 4);
    assert_eq!(segs[0].start, 0);
    assert_eq!(segs[3].end, 999);
    let covered: u64 = segs.iter().map(|s| s.len()).sum();
    assert_eq!(covered, 1000);
}

#[test]
fn sanitize_strips_path_chars() {
    assert_eq!(sanitize_filename("a/b\\c"), "a_b_c");
}

#[test]
fn filename_from_simple_url() {
    assert_eq!(
        filename_from_url("https://example.com/files/big.iso"),
        "big.iso"
    );
}

#[test]
fn human_bytes_units() {
    assert_eq!(human_bytes(512), "512 B");
    assert!(human_bytes(2048).contains("KiB"));
}

fn float_human_bytes(n: u64) -> String {
    const UNITS: [&str; 5] = ["B", "KiB", "MiB", "GiB", "TiB"];
    let mut v = n as f64;
    let mut i = 0;
    while v >= 1024.0 && i < UNITS.len() - 1 {
        v /= 1024.0;
        i += 1;
    }
    if i == 0 {
        format!("{n} {}", UNITS[i])
    } else {
        format!("{v:.2} {}", UNITS[i])
    }
}

#[test]
fn human_bytes_matches_float_formatting() {
    let mut samples: Vec<u64> = vec![
        0, 1, 1023, 1024, 1025, 1536, 2048, 10_240, 1_048_575, 1_048_576, 5_368_709_120,
        1_099_511_627_776, 1_125_899_906_842_624, u64::MAX, u64::MAX - 1, 1 << 53, (1 << 53) + 1,
        (1 << 54) + 2, (1 << 54) + 6, 9_007_199_254_740_993,
    ];
    // values whose hundredths fall exactly half-way
    for k in 0..2000u64 {
        samples.push(1024 + k * 5);
        samples.push(1024 * 1024 * (k + 1) + 5242);
    }
    let mut x: u64 = 0x9E37_79B9_7F4A_7C15;
    for _ in 0..20000 {
        x ^= x << 13;
        x ^= x >> 7;
        x ^= x << 17;
        samples.push(x >> (x % 60));
    }
    for n in samples {
        assert_eq!(human_bytes(n), float_human_bytes(n), "n = {n}");
    }
}

#[test]
fn human_bytes_examples() {
    assert_eq!(human_bytes(0), "0 B");
    assert_eq!(human_bytes(1023), "1023 B");
    assert_eq!(human_bytes(1024), "1.00 KiB");
    assert_eq!(human_bytes(1536), "1.50 KiB");
    assert_eq!(human_bytes(1_048_576), "1.00 MiB");
    assert_eq!(human_bytes(u64::MAX), "16777216.00 TiB");
}

#[test]
fn format_eta_examples() {
    assert_eq!(format_eta(None), "—");
    assert_eq!(format_eta(Some(0)), "0:00");
    assert_eq!(format_eta(Some(59)), "0:59");
    assert_eq!(format_eta(Some(60)), "1:00");
    assert_eq!(format_eta(Some(3599)), "59:59");
    assert_eq!(format_eta(Some(3600)), "1:00:00");
    assert_eq!(format_eta(Some(90061)), "25:01:01");
}

#[test]
fn split_segments_edge_cases() {
    assert!(split_segments(0, 8).is_empty());
    let one = split_segments(1, 16);
    assert_eq!(one.len(), 1);
    assert_eq!((one[0].start, one[0].end, one[0].done), (0, 0, 0));
    let many = split_segments(10_000, 100);
    assert_eq!(many.len(), 32);
    assert_eq!(many[31].end, 9_999);
    let zero_conn = split_segments(10, 0);
    assert_eq!(zero_conn.len(), 1);
    for w in many.windows(2) {
        assert_eq!(w[1].start, w[0].end + 1);
    }
}

#[test]
fn segment_state_helpers() {
    let s = SegmentState { start: 10, end: 19, done: 4 };
    assert_eq!(s.len(), 10);
    assert_eq!(s.remaining_start(), 14);
    assert!(!s.is_complete());
    let full = SegmentState { start: 0, end: u64::MAX, done: 0 };
    assert_eq!(full.len(), u64::MAX);
    let odd = SegmentState { start: 5, end: 3, done: 1 };
    assert_eq!(odd.len(), 1);
    assert!(odd.is_complete());
    let st = ResumeState {
        url: "https://e.x/f".to_string(),
        total_size: 20,
        etag: None,
        last_modified: None,
        segments: vec![
            SegmentState { start: 0, end: 9, done: 15 },
            SegmentState { start: 10, end: 19, done: 3 },
        ],
    };
    assert_eq!(st.bytes_done(), 13);
}

#[test]
fn default_directories() {
    let s = |x: &str| Some(x.to_string());
    assert_eq!(
        junk_core::util::download_dir_from(s("/x/dl"), s("/os/Downloads"), s("/home/u")),
        "/x/dl"
    );
    assert_eq!(
        junk_core::util::download_dir_from(s(""), s("/os/Downloads"), s("/home/u")),
        "/os/Downloads"
    );
    assert_eq!(junk_core::util::download_dir_from(None, None, s("/home/u")), "/home/u/Downloads");
    assert_eq!(junk_core::util::download_dir_from(None, None, None), "./Downloads");
    assert_eq!(
        junk_core::util::media_dir_from(s("/os/Videos"), s("/home/u"), "Videos", "/dl".to_string()),
        "/os/Videos"
    );
    assert_eq!(
        junk_core::util::media_dir_from(None, s("/home/u/"), "Music", "/dl".to_string()),
        "/home/u/Music"
    );
    assert_eq!(
        junk_core::util::media_dir_from(None, None, "Music", "/dl".to_string()),
        "/dl"
    );
}

#[test]
fn tool_override_variables() {
    assert_eq!(junk_core::media::tool_path_var("yt-dlp"), "JUNK_YT_DLP_PATH");
    assert_eq!(junk_core::media::tool_path_var("ffmpeg"), "JUNK_FFMPEG_PATH");
    assert_eq!(junk_core::media::tool_path_var("youtube-dl"), "JUNK_YOUTUBE_DL_PATH");
}

#[test]
fn path_joining_and_alternatives() {
    assert_eq!(junk_core::util::path_join("/a", "b"), "/a/b");
    assert_eq!(junk_core::util::path_join("/a/", "b"), "/a/b");
    assert_eq!(junk_core::util::path_join("", "b"), "b");
    assert_eq!(junk_core::util::path_join("/a", "/b"), "/b");
    assert_eq!(junk_core::util::unique_candidate("/d/file.iso", 0), "/d/file.iso");
    assert_eq!(junk_core::util::unique_candidate("/d/file.iso", 2), "/d/file-2.iso");
    assert_eq!(junk_core::util::unique_candidate("/d/archive.tar.gz", 1), "/d/archive.tar-1.gz");
    assert_eq!(junk_core::util::unique_candidate("/d/.hidden", 1), "/d/.hidden-1");
    assert_eq!(junk_core::util::unique_candidate("/d/noext", 1000), "/d/noext-dup");
    assert_eq!(junk_core::util::unique_candidate("file.iso", 3), "file-3.iso");
    let free = "/nonexistent-junk-test/x.bin";
    assert_eq!(junk_core::util::unique_path(free), free);
}

#[test]
fn percent_decoding() {
    assert_eq!(junk_core::util::percent_decode("my%20file.iso"), "my file.iso");
    assert_eq!(junk_core::util::percent_decode("a%2Fb%41"), "a/bA");
    assert_eq!(junk_core::util::percent_decode("100%"), "100%");
    assert_eq!(junk_core::util::percent_decode("%zz%4"), "%zz%4");
    assert_eq!(junk_core::util::percent_decode("caf%C3%A9"), "café");
    // invalid UTF-8 is replaced, so the result differs from the raw escape
    assert_eq!(junk_core::util::percent_decode("%FF"), "\u{FFFD}");
    assert_eq!(junk_core::util::from_hex(b'a'), Some(10));
    assert_eq!(junk_core::util::from_hex(b'F'), Some(15));
    assert_eq!(junk_core::util::from_hex(b'g'), None);
}

#[test]
fn filenames_from_urls() {
    assert_eq!(filename_from_url("https://e.com/a/my%20file.iso?x=1#f"), "my file.iso");
    assert_eq!(filename_from_url("https://e.com/a/b/"), "b");
    assert_eq!(filename_from_url("https://e.com"), "download.bin");
    assert_eq!(filename_from_url("not a url"), "download.bin");
    assert_eq!(filename_from_url("https://e.com/%2E%2E"), "download.bin");
    assert_eq!(filename_from_url("https://e.com/a%2Fb"), "a_b");
    assert_eq!(sanitize_filename("   /\\name:*?.txt "), "name___.txt");
    assert_eq!(sanitize_filename(""), "download.bin");
    assert_eq!(sanitize_filename(&"é".repeat(150)), "é".repeat(100));
    assert!(junk_core::util::sanitize_filename_checked(&format!("a{}", "é".repeat(150))).is_none());
}

#[test]
fn ventoy_names() {
    assert!(junk_core::util::looks_like_ventoy("/run/media/u/VENTOY"));
    assert!(junk_core::util::looks_like_ventoy("/media/my-ventoy-stick"));
    assert!(!junk_core::util::looks_like_ventoy("/nonexistent-junk/usb"));
}

#[test]
fn progress_labels() {
    assert_eq!(junk_core::util::file_label("/tmp/dl/big.iso", "download"), "big.iso");
    assert_eq!(junk_core::util::file_label("/", "download"), "download");
    assert_eq!(junk_core::util::file_label("/tmp/dl/..", "done"), "done");
}

#[test]
fn first_free_candidate() {
    assert_eq!(junk_core::util::first_free(&vec![]), 0);
    assert_eq!(junk_core::util::first_free(&vec![false]), 0);
    assert_eq!(junk_core::util::first_free(&vec![true, true, false]), 2);
    assert_eq!(junk_core::util::first_free(&vec![true; 1000]), 1000);
    // with /dl/big.iso and /dl/big-1.iso present, the answers are [true, true, false]
    assert_eq!(junk_core::util::unique_candidate("/dl/big.iso", 2), "/dl/big-2.iso");
}

#[test]
fn taken_paths_get_numbered() {
    // /bin/sh exists on the machines the tests run on; /bin/sh-1 does not
    assert_eq!(junk_core::util::unique_path("/bin/sh"), "/bin/sh-1");
    assert_eq!(junk_core::download::final_path_for("/bin/sh"), "/bin/sh-1");
}

#[test]
fn percent_decoding_plain_text() {
    for s in ["big.iso", "a b", "café", "", "x/y?z"] {
        assert_eq!(junk_core::util::percent_decode(s), s);
    }
    assert_eq!(junk_core::util::percent_decode("%2541"), "%41");
    assert_eq!(junk_core::util::percent_decode("%41"), "A");
}

#[test]
fn long_ascii_names_are_cut_to_200_bytes() {
    let long = "a".repeat(300);
    assert_eq!(sanitize_filename(&long), "a".repeat(200));
    assert_eq!(sanitize_filename(&format!("  //{}:x ", "b".repeat(250))), "b".repeat(200));
    // 199 ASCII bytes then a 2-byte character: the cut would split it
    assert!(junk_core::util::sanitize_filename_checked(&format!("{}é", "c".repeat(199))).is_none());
    assert_eq!(sanitize_filename(&format!("{}é", "c".repeat(198))), format!("{}é", "c".repeat(198)));
}
