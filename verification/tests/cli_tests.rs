use junk_core::cli::{
    choose_dest_dir, clipboard_url, http_dest_name, looks_like_url, media_mode, needs_clipboard,
    normalize_paste, resolve_file_dir, resolve_urls, truncate, DestDir,
};
use junk_core::MediaMode;

fn strings(v: &[&str]) -> Vec<String> {
    v.iter().map(|s| s.to_string()).collect()
}

#[test]
fn pasted_text_is_normalized() {
    assert_eq!(normalize_paste("\n   \n  \"https://x.com/a\"  \nsecond"), "https://x.com/a");
    assert_eq!(normalize_paste("<https://x.com>"), "https://x.com");
    assert_eq!(normalize_paste("'  www.a.org '"), "www.a.org");
    assert_eq!(normalize_paste(""), "");
    assert_eq!(normalize_paste("\r\n\t\r\n"), "");
}

#[test]
fn url_heuristic() {
    assert!(looks_like_url("  http://x "));
    assert!(looks_like_url("https://"));
    assert!(looks_like_url("www.x"));
    assert!(looks_like_url("example.com"));
    assert!(looks_like_url("ab.cd"));
    assert!(!looks_like_url("a.b"));
    assert!(!looks_like_url("hello world.com"));
    assert!(!looks_like_url("nodots"));
    // the length counts bytes: two 2-byte characters and a dot pass
    assert!(looks_like_url("é.é"));
}

#[test]
fn clipboard_links() {
    assert_eq!(
        clipboard_url(Some("  www.example.com/x \nmore".to_string())),
        Some("https://www.example.com/x".to_string())
    );
    assert_eq!(
        clipboard_url(Some("<https://e.com/f.iso>".to_string())),
        Some("https://e.com/f.iso".to_string())
    );
    assert_eq!(clipboard_url(Some("just words".to_string())), None);
    assert_eq!(clipboard_url(None), None);
}

#[test]
fn clipboard_only_when_no_arguments() {
    assert!(needs_clipboard(&strings(&[]), false));
    assert!(needs_clipboard(&strings(&["  ", ""]), false));
    assert!(!needs_clipboard(&strings(&[]), true));
    assert!(!needs_clipboard(&strings(&["nonsense"]), false));
}

#[test]
fn urls_are_resolved() {
    assert_eq!(
        resolve_urls(strings(&[" ", "www.a.com", "bad"]), false, Some("https://clip.com".to_string())),
        strings(&["https://www.a.com"])
    );
    assert_eq!(
        resolve_urls(strings(&["  "]), false, Some("https://clip.com/f".to_string())),
        strings(&["https://clip.com/f"])
    );
    assert!(resolve_urls(strings(&[]), true, Some("https://clip.com/f".to_string())).is_empty());
    assert!(resolve_urls(strings(&[]), false, None).is_empty());
    assert_eq!(
        resolve_urls(strings(&["\"https://q.org/x\"", "e.org/y"]), false, None),
        strings(&["https://q.org/x", "e.org/y"])
    );
}

#[test]
fn destination_directories() {
    assert!(matches!(resolve_file_dir(Some("/d".to_string()), true), DestDir::Given(d) if d == "/d"));
    assert!(matches!(resolve_file_dir(None, true), DestDir::Ventoy));
    assert!(matches!(resolve_file_dir(None, false), DestDir::Downloads));
    assert!(matches!(choose_dest_dir(true, Some("/d".to_string()), true, true), DestDir::Ventoy));
    assert!(matches!(choose_dest_dir(false, Some("/d".to_string()), true, true), DestDir::Given(d) if d == "/d"));
    assert!(matches!(choose_dest_dir(false, None, true, true), DestDir::Music));
    assert!(matches!(choose_dest_dir(false, None, false, true), DestDir::Videos));
    assert!(matches!(choose_dest_dir(false, None, false, false), DestDir::Downloads));
}

#[test]
fn media_modes() {
    assert_eq!(media_mode(true, 480), MediaMode::Audio);
    assert_eq!(media_mode(false, 480), MediaMode::Video { max_height: 480 });
}

#[test]
fn plain_download_names() {
    assert_eq!(http_dest_name("https://e.com/files/a.iso"), Some("a.iso".to_string()));
    // '?' is replaced while sanitizing, before the cut at '?'
    assert_eq!(http_dest_name("https://e.com/files/a.iso?x=1"), Some("a.iso_x=1".to_string()));
    assert_eq!(http_dest_name("https://e.com/"), Some("download.bin".to_string()));
    assert_eq!(http_dest_name("noslash"), Some("noslash".to_string()));
}

#[test]
fn truncation() {
    assert_eq!(truncate("hello", 10), "hello");
    assert_eq!(truncate("hello", 5), "hello");
    assert_eq!(truncate("hello world", 5), "hell…");
    assert_eq!(truncate("héllo", 3), "hé…");
    assert_eq!(truncate("abc", 0), "…");
}
