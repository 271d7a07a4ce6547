use std::sync::atomic::Ordering;

use junk_core::tui::{Key, ProgressReport, TuiAction, TuiState};
use junk_core::{distrohopper_line, JobStatus, Phase};

fn ch(c: char) -> Key {
    Key::Char { c, ctrl: false }
}

fn type_text(t: &mut TuiState, s: &str) {
    for c in s.chars() {
        assert!(matches!(t.handle_key(ch(c)), Some(TuiAction::Stay)));
    }
}

fn with_queued(url: &str) -> TuiState {
    let mut t = TuiState::new("/tmp/dl".to_string(), 4);
    t.handle_key(ch('a'));
    type_text(&mut t, url);
    assert!(matches!(t.handle_key(Key::Enter), Some(TuiAction::Stay)));
    t
}

#[test]
fn tui_starts_idle() {
    let t = TuiState::new("/tmp/dl".to_string(), 4);
    assert_eq!(t.status, "JUNK ARCADE — drop a URL  ·  dir /tmp/dl");
    assert!(!t.input_mode && !t.dir_prompt && !t.downloading);
    assert_eq!(t.queue.connections(), 4);
    assert!(t.error.is_none());
}

#[test]
fn tui_adds_typed_url() {
    let t = with_queued("  https://example.com/big.iso ");
    assert_eq!(t.status, "queued https://example.com/big.iso");
    assert!(!t.input_mode);
    assert_eq!(t.input, "");
    assert_eq!(t.queue.jobs().len(), 1);
    assert_eq!(t.queue.jobs()[0].dest_path, "/tmp/dl/big.iso");
}

#[test]
fn tui_shows_refused_url() {
    let mut t = TuiState::new("/tmp/dl".to_string(), 4);
    t.handle_key(ch('a'));
    type_text(&mut t, "nonsense");
    t.handle_key(Key::Enter);
    assert_eq!(
        t.error.as_deref(),
        Some("invalid URL: relative URL without a base")
    );
    assert!(t.input_mode);
    assert_eq!(t.input, "nonsense");
    assert!(t.queue.jobs().is_empty());
}

#[test]
fn tui_input_editing() {
    let mut t = TuiState::new("/tmp/dl".to_string(), 4);
    t.handle_key(ch('a'));
    type_text(&mut t, "abc");
    t.handle_key(Key::Backspace);
    assert_eq!(t.input, "ab");
    t.handle_key(Key::Up);
    assert_eq!(t.input, "ab");
    t.handle_key(Key::Esc);
    assert!(!t.input_mode);
    // blank input is ignored
    let mut t = TuiState::new("/tmp/dl".to_string(), 4);
    t.handle_key(ch('a'));
    type_text(&mut t, "   ");
    t.handle_key(Key::Enter);
    assert!(t.input_mode);
    assert!(t.queue.jobs().is_empty());
}

#[test]
fn tui_start_and_finish_download() {
    let mut t = with_queued("https://example.com/big.iso");
    let job = t.start_if_idle().unwrap();
    assert_eq!(job.id, 1);
    assert_eq!(job.url, "https://example.com/big.iso");
    assert_eq!(job.dest_path, "/tmp/dl/big.iso");
    assert!(t.downloading);
    assert_eq!(t.status, "INJECTING https://example.com/big.iso");
    assert_eq!(t.queue.jobs()[0].status, JobStatus::Running);
    assert!(t.start_if_idle().is_none());

    t.apply_report(&ProgressReport {
        job_id: 1,
        bytes_done: 50,
        bytes_total: 200,
        bytes_per_sec: 10,
        connections_active: 3,
        phase: Phase::Downloading,
        error: None,
    });
    assert_eq!(t.queue.jobs()[0].bytes_done, 50);
    assert_eq!(t.queue.jobs()[0].connections_active, 3);

    t.finish(Ok("/tmp/dl/big-1.iso".to_string()));
    assert!(!t.downloading);
    assert!(t.success_flash);
    assert_eq!(t.status, "LEVEL CLEAR — /tmp/dl/big-1.iso");
    assert_eq!(t.queue.jobs()[0].status, JobStatus::Done);
    assert_eq!(t.queue.jobs()[0].dest_path, "/tmp/dl/big-1.iso");
}

#[test]
fn tui_failed_and_cancelled_downloads() {
    let mut t = with_queued("https://example.com/a.iso");
    t.start_if_idle().unwrap();
    t.finish(Err("HTTP error: 500".to_string()));
    assert_eq!(t.queue.jobs()[0].status, JobStatus::Failed);
    assert_eq!(t.error.as_deref(), Some("HTTP error: 500"));
    assert_eq!(t.status, "TILT — HTTP error: 500");

    let mut t = with_queued("https://example.com/a.iso");
    t.start_if_idle().unwrap();
    t.finish(Err("cancelled".to_string()));
    assert_eq!(t.queue.jobs()[0].status, JobStatus::Cancelled);
    assert_eq!(t.queue.jobs()[0].error.as_deref(), Some("cancelled"));
    assert_eq!(t.status, "cancelled — partial kept for resume");
    assert!(t.error.is_none());
}

#[test]
fn tui_error_report_shows_error() {
    let mut t = with_queued("https://example.com/a.iso");
    t.start_if_idle().unwrap();
    t.apply_report(&ProgressReport {
        job_id: 1,
        bytes_done: 0,
        bytes_total: 0,
        bytes_per_sec: 0,
        connections_active: 0,
        phase: Phase::Error,
        error: Some("boom".to_string()),
    });
    assert_eq!(t.error.as_deref(), Some("boom"));
    t.download_lost();
    assert!(!t.downloading);
}

#[test]
fn tui_quit_keys() {
    let mut t = TuiState::new("/tmp/dl".to_string(), 4);
    assert!(matches!(t.handle_key(ch('q')), Some(TuiAction::Quit)));
    assert!(matches!(t.handle_key(Key::Esc), Some(TuiAction::Quit)));
    assert!(matches!(
        t.handle_key(Key::Char { c: 'c', ctrl: true }),
        Some(TuiAction::Quit)
    ));
    let mut t = with_queued("https://example.com/a.iso");
    t.start_if_idle().unwrap();
    assert!(matches!(t.handle_key(ch('q')), Some(TuiAction::ConfirmQuit)));
    assert!(t.cancel.load(Ordering::Relaxed));
    assert_eq!(t.status, "cancelling… (q again to force quit)");
}

#[test]
fn tui_pause_and_cancel_keys() {
    let mut t = TuiState::new("/tmp/dl".to_string(), 4);
    t.handle_key(ch('p'));
    assert!(!t.pause.load(Ordering::Relaxed));
    t.handle_key(ch('c'));
    assert!(!t.cancel.load(Ordering::Relaxed));

    let mut t = with_queued("https://example.com/a.iso");
    t.start_if_idle().unwrap();
    t.handle_key(ch('p'));
    assert!(t.pause.load(Ordering::Relaxed));
    assert_eq!(t.status, "paused");
    t.handle_key(ch('p'));
    assert!(!t.pause.load(Ordering::Relaxed));
    assert_eq!(t.status, "resumed");
    t.handle_key(ch('c'));
    assert!(t.cancel.load(Ordering::Relaxed));
    assert_eq!(t.status, "cancel requested…");
}

#[test]
fn tui_dir_prompt() {
    let mut t = TuiState::new("/tmp/dl".to_string(), 4);
    t.handle_key(ch('d'));
    assert!(t.dir_prompt);
    assert_eq!(t.input, "/tmp/dl");
    for _ in 0..2 {
        t.handle_key(Key::Backspace);
    }
    type_text(&mut t, "x2 ");
    match t.handle_key(Key::Enter) {
        Some(TuiAction::CreateDir(p)) => assert_eq!(p, "/tmp/x2"),
        _ => panic!("expected CreateDir"),
    }
    assert!(!t.dir_prompt);
    assert_eq!(t.input, "");
    assert_eq!(t.queue.dir(), "/tmp/x2");
    assert_eq!(t.status, "dir → /tmp/x2");
    // Esc leaves the directory alone
    t.handle_key(ch('d'));
    t.handle_key(Key::Esc);
    assert_eq!(t.queue.dir(), "/tmp/x2");
    assert!(!t.dir_prompt);
}

#[test]
fn tui_selection_and_removal() {
    let mut t = with_queued("https://example.com/a.iso");
    t.handle_key(ch('a'));
    type_text(&mut t, "https://example.com/b.iso");
    t.handle_key(Key::Enter);
    t.handle_key(Key::Down);
    t.handle_key(ch('j'));
    assert_eq!(t.selected, 1);
    t.handle_key(ch('x'));
    assert_eq!(t.status, "removed from queue");
    assert_eq!(t.selected, 0);
    assert_eq!(t.queue.jobs().len(), 1);
    assert_eq!(t.queue.jobs()[0].url, "https://example.com/a.iso");
    t.handle_key(ch('k'));
    t.handle_key(Key::Up);
    assert_eq!(t.selected, 0);
}

#[test]
fn tui_ventoy() {
    let mut t = TuiState::new("/tmp/dl".to_string(), 4);
    assert!(matches!(t.handle_key(ch('v')), Some(TuiAction::FindVentoy)));
    t.ventoy_found(&vec![]);
    assert_eq!(
        t.error.as_deref(),
        Some("no Ventoy mount — plug in the stick of infinite reboots")
    );
    assert_eq!(t.status, distrohopper_line("no-ventoy-tui"));
    t.ventoy_found(&vec!["/run/media/u/Ventoy".to_string()]);
    assert!(t.error.is_none());
    assert!(t.success_flash);
    assert_eq!(t.queue.dir(), "/run/media/u/Ventoy");
    assert_eq!(
        t.status,
        format!(
            "VENTOY LOCKED → /run/media/u/Ventoy  ·  {}",
            distrohopper_line("/run/media/u/Ventoy")
        )
    );
}

#[test]
fn distrohopper_lines_are_stable() {
    assert_eq!(
        distrohopper_line("no-ventoy-tui"),
        "mainline only? bold of you to pretend you won't also grab a GNOME rebuild at 3am."
    );
    assert_eq!(
        distrohopper_line("/run/media/u/Ventoy"),
        "one stick to hop them all. eject when the rice gets cold."
    );
    assert_eq!(
        distrohopper_line(""),
        "another ISO for the stick of infinite reboots. the hopper never settles."
    );
    assert_eq!(distrohopper_line("abc"), distrohopper_line("abc"));
}

#[test]
fn tui_flag_requests_follow_keys() {
    let mut t = with_queued("https://example.com/a.iso");
    assert!(!t.cancel_requested && !t.pause_requested);
    t.start_if_idle().unwrap();
    assert!(!t.cancel_requested && !t.pause_requested);
    t.handle_key(ch('p'));
    assert!(t.pause_requested);
    assert!(t.pause.load(Ordering::Relaxed));
    t.handle_key(ch('p'));
    assert!(!t.pause_requested);
    assert!(!t.pause.load(Ordering::Relaxed));
    t.handle_key(ch('p'));
    assert!(matches!(t.handle_key(Key::Esc), Some(TuiAction::ConfirmQuit)));
    assert!(t.cancel_requested);
    assert!(t.cancel.load(Ordering::Relaxed));
    // a new download starts with both requests cleared
    t.finish(Err("cancelled".to_string()));
    t.handle_key(ch('a'));
    for c in "https://example.com/b.iso".chars() {
        t.handle_key(ch(c));
    }
    t.handle_key(Key::Enter);
    t.start_if_idle().unwrap();
    assert!(!t.cancel_requested && !t.pause_requested);
    assert!(!t.cancel.load(Ordering::Relaxed) && !t.pause.load(Ordering::Relaxed));
}
