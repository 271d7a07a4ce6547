use junk_core::media::{
    ffmpeg_missing, finish_plan, FinishPlan, classify_format, format_selector, last_chars, last_line_or, media_candidate, media_title,
    merge_inputs, part_extension, part_file_name, streams_from_g_output, streams_from_info,
    unique_media_path, MediaInfo, RequestedDownload, RequestedFormat,
};
use junk_core::{looks_like_stream_host, should_use_media, MediaMode, StreamKind, DEFAULT_QUALITY};

fn s(x: &str) -> Option<String> {
    Some(x.to_string())
}

#[test]
fn stream_hosts_are_recognised() {
    assert!(looks_like_stream_host("https://www.YouTube.com/watch?v=abc"));
    assert!(looks_like_stream_host("https://youtu.be/abc"));
    assert!(looks_like_stream_host("https://music.youtube.com/x"));
    assert!(looks_like_stream_host("https://soundcloud.com/a/b"));
    assert!(!looks_like_stream_host("https://example.com/big.iso"));
    // the host is matched, not a substring of the URL
    assert!(!looks_like_stream_host("https://dropbox.com/file.zip"));
    assert!(!looks_like_stream_host("https://download.proxmox.com/iso/proxmox-ve_8.2-1.iso"));
    assert!(!looks_like_stream_host("https://example.com/watch?from=youtube.com"));
    assert!(looks_like_stream_host("youtube.com/watch?v=1"));
    assert!(looks_like_stream_host("https://user@M.YouTube.com:443/x"));
    assert!(looks_like_stream_host("https://x.com/a/status/1"));
    assert!(!looks_like_stream_host("https://notyoutube.com/v"));
}

#[test]
fn media_pipeline_choice() {
    let yt = "https://youtube.com/watch?v=1";
    let iso = "https://mirror.org/a.iso";
    assert!(should_use_media(yt, false, false));
    assert!(!should_use_media(yt, true, true));
    assert!(!should_use_media(iso, false, false));
    assert!(should_use_media(iso, true, false));
    assert_eq!(DEFAULT_QUALITY, 720);
}

#[test]
fn formats_are_classified() {
    assert_eq!(classify_format(&s("avc1"), &s("none")), StreamKind::Video);
    assert_eq!(classify_format(&None, &s("opus")), StreamKind::Audio);
    assert_eq!(classify_format(&s("vp9"), &s("mp4a")), StreamKind::Combined);
    assert_eq!(classify_format(&s(""), &None), StreamKind::Combined);
    assert_eq!(classify_format(&s("none"), &s("none")), StreamKind::Combined);
}

#[test]
fn format_selectors() {
    assert_eq!(
        format_selector(MediaMode::Video { max_height: 720 }),
        "bestvideo[height<=720]+bestaudio/best[height<=720]/best"
    );
    assert_eq!(format_selector(MediaMode::Audio), "bestaudio/best");
}

fn fmt(url: Option<&str>, v: &str, a: &str, ext: Option<&str>) -> RequestedFormat {
    RequestedFormat {
        url: url.map(|u| u.to_string()),
        vcodec: s(v),
        acodec: s(a),
        ext: ext.map(|e| e.to_string()),
        height: None,
    }
}

#[test]
fn streams_from_json_answer() {
    let info = MediaInfo {
        title: s("Clip"),
        ext: None,
        requested_downloads: vec![RequestedDownload {
            url: s("https://ignored"),
            requested_formats: vec![
                fmt(Some("https://v"), "avc1", "none", Some("mp4")),
                fmt(None, "none", "opus", Some("webm")),
                fmt(Some("https://a"), "none", "opus", None),
            ],
            filename: None,
            ext: None,
        }],
        url: s("https://top"),
        urls: vec![],
    };
    let parts = streams_from_info(&info);
    assert_eq!(parts.len(), 2);
    assert_eq!((parts[0].url.as_str(), parts[0].kind, parts[0].ext.as_str()), ("https://v", StreamKind::Video, "mp4"));
    assert_eq!((parts[1].url.as_str(), parts[1].kind, parts[1].ext.as_str()), ("https://a", StreamKind::Audio, "bin"));

    let info = MediaInfo {
        title: None,
        ext: s("webm"),
        requested_downloads: vec![RequestedDownload {
            url: s("https://whole"),
            requested_formats: vec![],
            filename: None,
            ext: None,
        }],
        url: s("https://top"),
        urls: vec![],
    };
    let parts = streams_from_info(&info);
    assert_eq!(parts.len(), 1);
    assert_eq!((parts[0].url.as_str(), parts[0].kind, parts[0].ext.as_str()), ("https://whole", StreamKind::Combined, "mp4"));

    let info = MediaInfo {
        title: None,
        ext: s("webm"),
        requested_downloads: vec![],
        url: s("https://top"),
        urls: vec![],
    };
    let parts = streams_from_info(&info);
    assert_eq!(parts.len(), 1);
    assert_eq!((parts[0].url.as_str(), parts[0].ext.as_str()), ("https://top", "webm"));

    let info = MediaInfo { title: None, ext: None, requested_downloads: vec![], url: None, urls: vec![] };
    assert!(streams_from_info(&info).is_empty());
}

#[test]
fn streams_from_g_lines() {
    let parts = streams_from_g_output("\n  https://v  \n\nhttps://a\r\nhttps://extra\n");
    assert_eq!(parts.len(), 2);
    assert_eq!((parts[0].url.as_str(), parts[0].kind, parts[0].ext.as_str()), ("https://v", StreamKind::Video, "mp4"));
    assert_eq!((parts[1].url.as_str(), parts[1].kind, parts[1].ext.as_str()), ("https://a", StreamKind::Audio, "m4a"));
    let one = streams_from_g_output("https://one\n");
    assert_eq!(one.len(), 1);
    assert_eq!(one[0].kind, StreamKind::Combined);
    assert!(streams_from_g_output("  \n \n").is_empty());
}

#[test]
fn tool_error_tails() {
    assert_eq!(last_line_or("ERROR: a\nERROR: b\n", "unknown error"), "ERROR: b");
    assert_eq!(last_line_or("   \n", "unknown error"), "unknown error");
    assert_eq!(last_chars("abcdef", 3), "def");
    assert_eq!(last_chars("ab", 3), "ab");
}

#[test]
fn media_names_and_paths() {
    assert_eq!(media_title(&None), Some("download".to_string()));
    assert_eq!(media_title(&s("Live: a/b")), Some("Live_ a_b".to_string()));
    assert_eq!(part_file_name(42, StreamKind::Video, "mp4"), ".junk_42_video.mp4");
    assert_eq!(part_file_name(7, StreamKind::Combined, "webm"), ".junk_7_media.webm");
    assert_eq!(part_file_name(0, StreamKind::Audio, "m4a"), ".junk_0_audio.m4a");
    assert_eq!(part_extension("/tmp/.junk_1_media.webm"), "webm");
    assert_eq!(part_extension("/tmp/noext"), "mp4");
    assert_eq!(media_candidate("/v", "t", "mp4", 0), "/v/t.mp4");
    assert_eq!(media_candidate("/v", "t", "mp4", 3), "/v/t-3.mp4");
    assert_eq!(media_candidate("/v", "t", "mp4", 1000), "/v/t-dup.mp4");
    assert_eq!(unique_media_path("/nonexistent-junk-dir", "t", "mp4"), "/nonexistent-junk-dir/t.mp4");
}

#[test]
fn merge_inputs_pick_first_video_and_audio() {
    let (v, a, c) = (StreamKind::Video, StreamKind::Audio, StreamKind::Combined);
    assert_eq!(merge_inputs(&vec![a, v, a]), Some((1, 0)));
    assert_eq!(merge_inputs(&vec![c]), None);
    assert_eq!(merge_inputs(&vec![v, v]), None);
    assert_eq!(merge_inputs(&vec![]), None);
}

#[test]
fn finishing_downloaded_parts() {
    let (v, a, c) = (StreamKind::Video, StreamKind::Audio, StreamKind::Combined);
    assert_eq!(finish_plan(&vec![c]), FinishPlan::KeepOnly);
    assert_eq!(finish_plan(&vec![v]), FinishPlan::KeepOnly);
    assert_eq!(finish_plan(&vec![v, a]), FinishPlan::Merge { video: 0, audio: 1 });
    assert_eq!(finish_plan(&vec![a, c, v]), FinishPlan::Merge { video: 2, audio: 0 });
    assert_eq!(finish_plan(&vec![c, c]), FinishPlan::FirstAsMp4);
}

#[test]
fn ffmpeg_needed_for_merges() {
    let video = MediaMode::Video { max_height: 720 };
    assert_eq!(
        ffmpeg_missing(video, false, 2).as_deref(),
        Some("ffmpeg required to merge video+audio (like ytdl). Install ffmpeg.")
    );
    assert_eq!(ffmpeg_missing(video, true, 2), None);
    assert_eq!(ffmpeg_missing(video, false, 1), None);
    assert_eq!(ffmpeg_missing(MediaMode::Audio, false, 2), None);
}

#[test]
fn tools_are_looked_up() {
    let none: Vec<String> = vec![];
    assert_eq!(junk_core::media::find_ffmpeg(None, &none, false), None);
    let missing = vec!["/nonexistent-junk-dir".to_string()];
    assert_eq!(
        junk_core::media::find_ffmpeg(Some("/nonexistent-junk/ffmpeg".to_string()), &missing, true),
        None
    );
    assert_eq!(
        junk_core::media::find_ffmpeg(Some("/bin/sh".to_string()), &none, false),
        Some("/bin/sh".to_string())
    );
    assert_eq!(
        junk_core::media::find_yt_dlp(None, Some("/bin/sh".to_string()), &missing, false),
        Some("/bin/sh".to_string())
    );
    assert_eq!(junk_core::media::find_yt_dlp(None, None, &none, false), None);
}

#[test]
fn tool_candidates_in_order() {
    let dirs = vec!["/usr/bin".to_string(), "/opt/x/".to_string()];
    assert_eq!(
        junk_core::media::tool_candidates("ffmpeg", &Some("/my/ffmpeg".to_string()), &dirs, false),
        vec!["/my/ffmpeg", "/usr/bin/ffmpeg", "/opt/x/ffmpeg"]
    );
    assert_eq!(
        junk_core::media::tool_candidates("yt-dlp", &None, &dirs, true),
        vec!["/usr/bin/yt-dlp", "/usr/bin/yt-dlp.exe", "/opt/x/yt-dlp", "/opt/x/yt-dlp.exe"]
    );
    // yt-dlp's override is asked about before youtube-dl's
    assert_eq!(
        junk_core::media::find_yt_dlp(Some("/bin/sh".to_string()), Some("/bin/ls".to_string()), &vec![], false),
        Some("/bin/sh".to_string())
    );
}

#[test]
fn tools_picked_from_answers() {
    let c1 = vec!["/a/yt-dlp".to_string(), "/b/yt-dlp".to_string()];
    let c2 = vec!["/a/youtube-dl".to_string()];
    let pf = junk_core::media::pick_found;
    assert_eq!(pf(&c1, &vec![false, true], &c2, &vec![true]), Some("/b/yt-dlp".to_string()));
    assert_eq!(pf(&c1, &vec![false, false], &c2, &vec![true]), Some("/a/youtube-dl".to_string()));
    assert_eq!(pf(&c1, &vec![false, false], &c2, &vec![false]), None);
    assert_eq!(pf(&c1, &vec![], &c2, &vec![]), None);
    assert_eq!(
        junk_core::media::pick_found_in(&c1, &vec![true]),
        Some("/a/yt-dlp".to_string())
    );
}
