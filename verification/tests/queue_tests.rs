use junk_core::{DownloadQueue, Job, JobStatus, JunkError};

#[test]
fn queue_clamps_connections() {
    let mut q = DownloadQueue::new("/tmp/dl".to_string(), 0);
    assert_eq!(q.connections(), 1);
    q.set_connections(99);
    assert_eq!(q.connections(), 32);
    q.set_connections(8);
    assert_eq!(q.connections(), 8);
    let q2 = DownloadQueue::new("/tmp/dl".to_string(), 16);
    assert_eq!(q2.connections(), 16);
    assert_eq!(q2.dir(), "/tmp/dl");
    assert!(q2.jobs().is_empty());
}

#[test]
fn enqueue_trims_and_names_the_file() {
    let mut q = DownloadQueue::new("/tmp/dl".to_string(), 4);
    let id = q.enqueue("  https://example.com/files/big.iso  ").unwrap();
    assert_eq!(id, 1);
    let j = &q.jobs()[0];
    assert_eq!(j.url, "https://example.com/files/big.iso");
    assert_eq!(j.dest_path, "/tmp/dl/big.iso");
    assert_eq!(j.status, JobStatus::Queued);
    assert_eq!(j.bytes_done, 0);
    assert!(j.error.is_none());
    assert_eq!(q.enqueue("http://example.com/").unwrap(), 2);
    assert_eq!(q.jobs()[1].dest_path, "/tmp/dl/download.bin");
    assert_eq!(q.enqueue("https://example.com/a/my%20file.iso").unwrap(), 3);
    assert_eq!(q.jobs()[2].dest_path, "/tmp/dl/my file.iso");
}

#[test]
fn enqueue_refuses_bad_urls() {
    let mut q = DownloadQueue::new("/tmp/dl".to_string(), 4);
    match q.enqueue("   ") {
        Err(JunkError::InvalidUrl(m)) => assert_eq!(m, "empty"),
        other => panic!("unexpected {:?}", other),
    }
    match q.enqueue("not a url") {
        Err(e) => assert_eq!(e.message(), "invalid URL: relative URL without a base"),
        Ok(_) => panic!("accepted"),
    }
    match q.enqueue("ftp://example.com/a.iso") {
        Err(e) => assert_eq!(e.message(), "invalid URL: only http/https supported, got ftp"),
        Ok(_) => panic!("accepted"),
    }
    assert!(q.jobs().is_empty());
    // a refused URL does not use up an id
    assert_eq!(q.enqueue("https://example.com/x.bin").unwrap(), 1);
}

#[test]
fn enqueue_then_remove_restores_queue() {
    let mut q = DownloadQueue::new("/tmp/dl".to_string(), 4);
    q.enqueue("https://example.com/a.iso").unwrap();
    let id = q.enqueue("https://example.com/b.iso").unwrap();
    assert!(q.remove_queued(id));
    assert_eq!(q.jobs().len(), 1);
    assert_eq!(q.jobs()[0].url, "https://example.com/a.iso");
    assert!(!q.remove_queued(id));
    assert!(!q.remove_queued(42));
    // ids are never reused
    assert_eq!(q.enqueue("https://example.com/c.iso").unwrap(), 3);
}

#[test]
fn remove_queued_keeps_running_jobs() {
    let mut q = DownloadQueue::new("/tmp/dl".to_string(), 4);
    let id = q.enqueue("https://example.com/a.iso").unwrap();
    assert_eq!(q.start_next(), Some(0));
    assert!(!q.remove_queued(id));
    assert_eq!(q.jobs().len(), 1);
}

#[test]
fn start_next_runs_first_queued() {
    let mut q = DownloadQueue::new("/tmp/dl".to_string(), 5);
    assert_eq!(q.start_next(), None);
    assert!(q.active_job().is_none());
    q.enqueue("https://example.com/a.iso").unwrap();
    q.enqueue("https://example.com/b.iso").unwrap();
    q.request_cancel();
    q.request_pause();
    assert!(q.is_paused());
    let idx = q.start_next().unwrap();
    assert_eq!(idx, 0);
    assert!(!q.is_paused());
    assert_eq!(q.jobs()[0].status, JobStatus::Running);
    assert_eq!(q.active_job().unwrap().id, 1);
    let opts = q.download_options(idx);
    assert_eq!(opts.connections, 5);
    assert_eq!(opts.job_id, 1);
    assert!(!opts.cancel.load(std::sync::atomic::Ordering::Relaxed));
    assert_eq!(q.start_next(), Some(1));
    assert_eq!(q.start_next(), None);
}

#[test]
fn finish_job_records_outcomes() {
    let mut q = DownloadQueue::new("/tmp/dl".to_string(), 4);
    for u in ["https://e.com/a", "https://e.com/b", "https://e.com/c"] {
        q.enqueue(u).unwrap();
    }
    let i = q.start_next().unwrap();
    assert!(matches!(q.finish_job(i, Ok("/tmp/dl/a-1".to_string())), Ok(true)));
    assert_eq!(q.jobs()[0].status, JobStatus::Done);
    assert_eq!(q.jobs()[0].dest_path, "/tmp/dl/a-1");
    assert_eq!(q.jobs()[0].bytes_done, 1);

    let i = q.start_next().unwrap();
    assert!(matches!(q.finish_job(i, Err(JunkError::Cancelled)), Ok(true)));
    assert_eq!(q.jobs()[1].status, JobStatus::Cancelled);

    let i = q.start_next().unwrap();
    match q.finish_job(i, Err(JunkError::Http("404 Not Found".to_string()))) {
        Err(JunkError::Http(m)) => assert_eq!(m, "404 Not Found"),
        other => panic!("unexpected {:?}", other),
    }
    assert_eq!(q.jobs()[2].status, JobStatus::Failed);
    assert_eq!(q.jobs()[2].error.as_deref(), Some("HTTP error: 404 Not Found"));
    assert_eq!(q.start_next(), None);
}

#[test]
fn finish_job_keeps_known_total() {
    let mut q = DownloadQueue::new("/tmp/dl".to_string(), 4);
    q.enqueue("https://e.com/a").unwrap();
    let i = q.start_next().unwrap();
    q.set_job_progress(i, 10, 500, 7, 3);
    assert_eq!(q.jobs()[0].bytes_per_sec, 7);
    q.finish_job(i, Ok("/tmp/dl/a".to_string())).unwrap();
    assert_eq!(q.jobs()[0].bytes_done, 500);
}

#[test]
fn set_dir_changes_new_destinations() {
    let mut q = DownloadQueue::new("/tmp/dl".to_string(), 4);
    q.set_dir("/media/stick/".to_string());
    q.enqueue("https://e.com/x/linux.iso").unwrap();
    assert_eq!(q.jobs()[0].dest_path, "/media/stick/linux.iso");
}

#[test]
fn job_new_is_queued_and_empty() {
    let j = Job::new(7, "u".to_string(), "d".to_string());
    assert_eq!(j.id, 7);
    assert_eq!(j.status, JobStatus::Queued);
    assert_eq!(j.bytes_total, 0);
    assert_eq!(j.connections_active, 0);
    assert!(j.error.is_none());
}

#[test]
fn error_messages() {
    assert_eq!(JunkError::InvalidUrl("x".into()).message(), "invalid URL: x");
    assert_eq!(JunkError::Http("500".into()).message(), "HTTP error: 500");
    assert_eq!(JunkError::Io("disk full".into()).message(), "I/O error: disk full");
    assert_eq!(JunkError::Cancelled.message(), "cancelled");
    assert_eq!(JunkError::Other("boom".into()).message(), "boom");
}

#[test]
fn queue_marks_and_schemes() {
    assert_eq!(junk_core::queue::job_mark(JobStatus::Running), "▶");
    assert_eq!(junk_core::queue::job_mark(JobStatus::Done), "✓");
    assert_eq!(junk_core::queue::job_mark(JobStatus::Failed), "✗");
    assert_eq!(junk_core::queue::job_mark(JobStatus::Cancelled), "⊘");
    assert_eq!(junk_core::queue::job_mark(JobStatus::Queued), "·");
    assert_eq!(junk_core::queue::job_mark(JobStatus::Paused), "❚❚");
    assert_eq!(junk_core::queue::scheme_refusal("https"), None);
    assert_eq!(junk_core::queue::scheme_refusal("http"), None);
    assert_eq!(
        junk_core::queue::scheme_refusal("ftp").as_deref(),
        Some("only http/https supported, got ftp")
    );
    assert!(junk_core::download::status_accepted(200));
    assert!(junk_core::download::status_accepted(206));
    assert!(!junk_core::download::status_accepted(304));
    assert!(!junk_core::download::status_accepted(404));
    assert_eq!(
        junk_core::util::filename_from_path("/files/big.iso").as_deref(),
        Some("big.iso")
    );
    assert_eq!(junk_core::util::filename_from_path("/").as_deref(), Some("download.bin"));
    assert_eq!(junk_core::util::filename_from_path("").as_deref(), Some("download.bin"));
}
