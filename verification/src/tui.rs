//! The arcade TUI as a state machine: keys, progress reports and finished
//! downloads come in, the next state and an action for the terminal loop come
//! out. Drawing, the terminal and the download tasks stay outside the library.
use vstd::prelude::*;

use std::sync::atomic::AtomicBool;
use std::sync::Arc;

use crate::download::set_flag;
use crate::error::error_message;
use crate::progress::Phase;
use crate::queue::{
    enqueue_ok, enqueue_post, first_where, has_id, is_status, job_views, remove_queued_spec,
    result_view, DownloadQueue, Job, JobStatus, JobView, QueueView,
};
use crate::resume::opt_str_view;
use crate::text::{chars_of, contains_exec, contains_seq, owned, pop_char, push_all, push_char, trim, trim_str};
use crate::util::{distro_line, distrohopper_line, fnv1a};

verus! {

/// A key press, as the TUI reads it.
pub enum Key {
    Char { c: char, ctrl: bool },
    Enter,
    Esc,
    Backspace,
    Up,
    Down,
    Other,
}

/// What the terminal loop does after a key.
pub enum TuiAction {
    Stay,
    Quit,
    /// A download runs: quit only if another `q` or Esc follows shortly.
    ConfirmQuit,
    /// Create this directory (errors ignored).
    CreateDir(String),
    /// Look for Ventoy mounts and report them with `ventoy_found`.
    FindVentoy,
}

/// The TUI's state. The download's cancel and pause flags are shared with the
/// running download task.
pub struct TuiState {
    pub queue: DownloadQueue,
    pub input: String,
    pub input_mode: bool,
    pub status: String,
    pub error: Option<String>,
    pub success_flash: bool,
    pub selected: usize,
    pub downloading: bool,
    pub dir_prompt: bool,
    /// Whether cancelling the running download was asked for; `cancel` is set along with it.
    pub cancel_requested: bool,
    /// Whether the download is paused; `pause` is set along with it.
    pub pause_requested: bool,
    pub cancel: Arc<AtomicBool>,
    pub pause: Arc<AtomicBool>,
}

pub struct TuiView {
    pub queue: QueueView,
    pub input: Seq<char>,
    pub input_mode: bool,
    pub status: Seq<char>,
    pub error: Option<Seq<char>>,
    pub success_flash: bool,
    pub selected: usize,
    pub downloading: bool,
    pub dir_prompt: bool,
    pub cancel_requested: bool,
    pub pause_requested: bool,
}

impl View for TuiState {
    type V = TuiView;

    open spec fn view(&self) -> TuiView {
        TuiView {
            queue: self.queue@,
            input: self.input@,
            input_mode: self.input_mode,
            status: self.status@,
            error: opt_str_view(self.error),
            success_flash: self.success_flash,
            selected: self.selected,
            downloading: self.downloading,
            dir_prompt: self.dir_prompt,
            cancel_requested: self.cancel_requested,
            pause_requested: self.pause_requested,
        }
    }
}

/// A progress report for one job, with the rate in whole bytes per second.
pub struct ProgressReport {
    pub job_id: u64,
    pub bytes_done: u64,
    pub bytes_total: u64,
    pub bytes_per_sec: u64,
    pub connections_active: u32,
    pub phase: Phase,
    pub error: Option<String>,
}

/// The job the loop is to start downloading.
pub struct StartedJob {
    pub id: u64,
    pub url: String,
    pub dest_path: String,
}

/// What adding the typed URL does: a blank input changes nothing; a refused
/// URL shows the error; an accepted one is queued, announced, and the input
/// closed and cleared.
pub open spec fn add_url_post(old: TuiView, new: TuiView) -> bool {
    let u = trim(old.input);
    if u.len() == 0 {
        new == old
    } else {
        exists|r: core::result::Result<u64, crate::error::JunkErrorView>|
            enqueue_post(old.queue, new.queue, u, r) && match r {
                Ok(_) => new == TuiView {
                    queue: new.queue,
                    status: "queued "@ + u,
                    error: None,
                    input: Seq::empty(),
                    input_mode: false,
                    ..old
                },
                Err(e) => new == TuiView {
                    queue: new.queue,
                    error: Some(error_message(e)),
                    ..old
                },
            }
    }
}

/// Adding the typed URL runs without panicking.
pub open spec fn add_url_ok(v: TuiView) -> bool {
    trim(v.input).len() > 0 ==> enqueue_ok(v.queue, trim(v.input))
}

/// What a key does in the directory prompt, deterministically: Esc leaves it,
/// Enter sets the queue's directory to the trimmed input (when not blank),
/// characters are typed and Backspace deletes.
pub open spec fn dir_prompt_step(v: TuiView, key: Key) -> TuiView {
    match key {
        Key::Esc => TuiView { dir_prompt: false, input: Seq::empty(), ..v },
        Key::Enter => {
            let p = trim(v.input);
            if p.len() > 0 {
                TuiView {
                    queue: QueueView { dir: p, ..v.queue },
                    status: "dir \u{2192} "@ + p,
                    dir_prompt: false,
                    input: Seq::empty(),
                    ..v
                }
            } else {
                TuiView { dir_prompt: false, input: Seq::empty(), ..v }
            }
        },
        Key::Char { c, ctrl } => TuiView { input: v.input.push(c), ..v },
        Key::Backspace => TuiView {
            input: if v.input.len() > 0 {
                v.input.drop_last()
            } else {
                v.input
            },
            ..v
        },
        _ => v,
    }
}

/// What a key does while typing a URL, apart from Enter (which adds it).
pub open spec fn input_step(v: TuiView, key: Key) -> TuiView {
    match key {
        Key::Esc => TuiView { input_mode: false, ..v },
        Key::Char { c, ctrl } => TuiView { input: v.input.push(c), ..v },
        Key::Backspace => TuiView {
            input: if v.input.len() > 0 {
                v.input.drop_last()
            } else {
                v.input
            },
            ..v
        },
        _ => v,
    }
}

/// Moving the selection down: one step, stopping at the last job.
pub open spec fn select_down(v: TuiView) -> TuiView {
    let n = v.queue.jobs.len();
    if n > 0 {
        TuiView {
            selected: if v.selected + 1 <= n - 1 {
                (v.selected + 1) as usize
            } else {
                (n - 1) as usize
            },
            ..v
        }
    } else {
        v
    }
}

/// Removing the selected job when it is still queued.
pub open spec fn remove_selected(v: TuiView) -> TuiView {
    if v.selected < v.queue.jobs.len() {
        let id = v.queue.jobs[v.selected as int].id;
        let (jobs, removed) = remove_queued_spec(v.queue.jobs, id);
        if removed {
            TuiView {
                queue: QueueView { jobs, ..v.queue },
                status: "removed from queue"@,
                selected: if v.selected > 0 {
                    (v.selected - 1) as usize
                } else {
                    0
                },
                ..v
            }
        } else {
            v
        }
    } else {
        v
    }
}

/// What the finished download of the running job does. A path marks the
/// first running job done; an error marks it cancelled when its text mentions
/// `cancelled`, else failed.
pub open spec fn finish_step(v: TuiView, outcome: core::result::Result<Seq<char>, Seq<char>>) -> TuiView {
    let i = first_where(v.queue.jobs, is_status(JobStatus::Running));
    match outcome {
        Ok(path) => TuiView {
            queue: QueueView {
                jobs: if i >= 0 {
                    v.queue.jobs.update(
                        i,
                        JobView { status: JobStatus::Done, dest_path: path, ..v.queue.jobs[i] },
                    )
                } else {
                    v.queue.jobs
                },
                ..v.queue
            },
            downloading: false,
            success_flash: true,
            status: "LEVEL CLEAR \u{2014} "@ + path,
            ..v
        },
        Err(e) => {
            let cancelled = contains_seq(e, "cancelled"@);
            let jobs = if i >= 0 {
                v.queue.jobs.update(
                    i,
                    JobView {
                        status: if cancelled {
                            JobStatus::Cancelled
                        } else {
                            JobStatus::Failed
                        },
                        error: Some(e),
                        ..v.queue.jobs[i]
                    },
                )
            } else {
                v.queue.jobs
            };
            if cancelled {
                TuiView {
                    queue: QueueView { jobs, ..v.queue },
                    downloading: false,
                    status: "cancelled \u{2014} partial kept for resume"@,
                    ..v
                }
            } else {
                TuiView {
                    queue: QueueView { jobs, ..v.queue },
                    downloading: false,
                    error: Some(e),
                    status: "TILT \u{2014} "@ + e,
                    ..v
                }
            }
        },
    }
}

/// What a progress report does: the first job with its id takes its byte
/// counts, rate and connections; an error report shows its error.
pub open spec fn report_step(
    v: TuiView,
    job_id: u64,
    done: u64,
    total: u64,
    rate: u64,
    conns: u32,
    is_error: bool,
    error: Option<Seq<char>>,
) -> TuiView {
    let i = first_where(v.queue.jobs, has_id(job_id));
    TuiView {
        queue: QueueView {
            jobs: if i >= 0 {
                v.queue.jobs.update(
                    i,
                    JobView {
                        bytes_done: done,
                        bytes_total: total,
                        bytes_per_sec: rate,
                        connections_active: conns,
                        ..v.queue.jobs[i]
                    },
                )
            } else {
                v.queue.jobs
            },
            ..v.queue
        },
        error: if is_error {
            error
        } else {
            v.error
        },
        ..v
    }
}

/// What a key does outside the prompts: `q` or Esc quits (asking to confirm
/// while a download runs, after requesting its cancellation), Ctrl+C quits,
/// `a` opens the URL input, `p` toggles the pause, `c` cancels the download,
/// `d` opens the directory prompt, `v` looks for Ventoy, `x` removes the
/// selected queued job, and `j`/`k` or the arrows move the selection.
pub open spec fn normal_key_post(old: TuiView, new: TuiView, key: Key, a: TuiAction) -> bool {
    match key {
        Key::Char { c, ctrl } => if c == 'q' {
            if old.downloading {
                a is ConfirmQuit && new == (TuiView {
                    status: "cancelling\u{2026} (q again to force quit)"@,
                    cancel_requested: true,
                    ..old
                })
            } else {
                a is Quit && new == old
            }
        } else if c == 'c' && ctrl {
            a is Quit && new == old
        } else if c == 'a' {
            a is Stay && new == (TuiView {
                input_mode: true,
                input: Seq::empty(),
                ..old
            })
        } else if c == 'p' {
            a is Stay && new == (if old.pause_requested {
                TuiView { status: "resumed"@, pause_requested: false, ..old }
            } else if old.downloading {
                TuiView { status: "paused"@, pause_requested: true, ..old }
            } else {
                old
            })
        } else if c == 'c' {
            a is Stay && new == (if old.downloading {
                TuiView { status: "cancel requested\u{2026}"@, cancel_requested: true, ..old }
            } else {
                old
            })
        } else if c == 'd' {
            a is Stay && new == (TuiView {
                dir_prompt: true,
                input: old.queue.dir,
                ..old
            })
        } else if c == 'v' {
            a is FindVentoy && new == old
        } else if c == 'x' {
            a is Stay && new == remove_selected(old)
        } else if c == 'j' {
            a is Stay && new == select_down(old)
        } else if c == 'k' {
            a is Stay && new == (TuiView {
                selected: if old.selected > 0 {
                    (old.selected - 1) as usize
                } else {
                    0
                },
                ..old
            })
        } else {
            a is Stay && new == old
        },
        Key::Esc => if old.downloading {
            a is ConfirmQuit && new == (TuiView {
                status: "cancelling\u{2026} (q again to force quit)"@,
                cancel_requested: true,
                ..old
            })
        } else {
            a is Quit && new == old
        },
        Key::Down => a is Stay && new == select_down(old),
        Key::Up => a is Stay && new == (TuiView {
            selected: if old.selected > 0 {
                (old.selected - 1) as usize
            } else {
                0
            },
            ..old
        }),
        _ => a is Stay && new == old,
    }
}

/// The action for a key in the directory prompt: creating the entered
/// directory on Enter (when not blank), nothing otherwise.
pub open spec fn dir_prompt_action(old: TuiView, key: Key, a: TuiAction) -> bool {
    match key {
        Key::Enter => if trim(old.input).len() > 0 {
            a matches TuiAction::CreateDir(p) && p@ == trim(old.input)
        } else {
            a is Stay
        },
        _ => a is Stay,
    }
}

/// The index of the first job with status `st`, if any.
fn first_with_status(jobs: &[Job], st: JobStatus) -> (r: Option<usize>)
    ensures
        match r {
            Some(i) => first_where(job_views(jobs@), is_status(st)) == i && i < jobs@.len(),
            None => first_where(job_views(jobs@), is_status(st)) == -1,
        },
{
    let ghost v = job_views(jobs@);
    let mut i: usize = 0;
    while i < jobs.len()
        invariant
            i <= jobs.len(),
            v == job_views(jobs@),
            forall|k: int| 0 <= k < i ==> !is_status(st)(#[trigger] v[k]),
        decreases jobs.len() - i,
    {
        assert(v[i as int] == jobs@[i as int]@);
        if jobs[i].status == st {
            proof {
                crate::queue::lemma_first_where_scan_pub(v, is_status(st), i as int);
            }
            return Some(i);
        }
        i += 1;
    }
    proof {
        crate::queue::lemma_first_where_scan_pub(v, is_status(st), i as int);
    }
    None
}

/// The index of the first job with id `id`, if any.
fn first_with_id(jobs: &[Job], id: u64) -> (r: Option<usize>)
    ensures
        match r {
            Some(i) => first_where(job_views(jobs@), has_id(id)) == i && i < jobs@.len(),
            None => first_where(job_views(jobs@), has_id(id)) == -1,
        },
{
    let ghost v = job_views(jobs@);
    let mut i: usize = 0;
    while i < jobs.len()
        invariant
            i <= jobs.len(),
            v == job_views(jobs@),
            forall|k: int| 0 <= k < i ==> !has_id(id)(#[trigger] v[k]),
        decreases jobs.len() - i,
    {
        assert(v[i as int] == jobs@[i as int]@);
        if jobs[i].id == id {
            proof {
                crate::queue::lemma_first_where_scan_pub(v, has_id(id), i as int);
            }
            return Some(i);
        }
        i += 1;
    }
    proof {
        crate::queue::lemma_first_where_scan_pub(v, has_id(id), i as int);
    }
    None
}

impl TuiState {
    pub fn new(dir: String, connections: u32) -> (r: TuiState)
        ensures
            r@.queue == (QueueView {
                next_id: 1,
                jobs: Seq::empty(),
                dir: dir@,
                connections: crate::queue::clamp_connections(connections),
            }),
            r@.input == Seq::<char>::empty(),
            !r@.input_mode,
            r@.status == "JUNK ARCADE \u{2014} drop a URL  \u{b7}  dir "@ + dir@,
            r@.error is None,
            !r@.success_flash,
            r@.selected == 0,
            !r@.downloading,
            !r@.dir_prompt,
            !r@.cancel_requested,
            !r@.pause_requested,
            r@.queue.wf(),
    {
        let mut status = owned("JUNK ARCADE \u{2014} drop a URL  \u{b7}  dir ");
        push_all(&mut status, dir.as_str());
        TuiState {
            queue: DownloadQueue::new(dir, connections),
            input: String::new(),
            input_mode: false,
            status,
            error: None,
            success_flash: false,
            selected: 0,
            downloading: false,
            dir_prompt: false,
            cancel_requested: false,
            pause_requested: false,
            cancel: Arc::new(AtomicBool::new(false)),
            pause: Arc::new(AtomicBool::new(false)),
        }
    }

    /// Queues the typed URL, as `add_url_post` says.
    pub fn add_url(&mut self)
        requires
            add_url_ok(old(self)@),
        ensures
            add_url_post(old(self)@, final(self)@),
            old(self)@.queue.wf() ==> final(self)@.queue.wf(),
    {
        let url = trim_str(self.input.as_str());
        if url.as_str().is_empty() {
            return;
        }
        let r = self.queue.enqueue(url.as_str());
        let ghost rv = result_view(r);
        match r {
            Ok(_) => {
                let mut st = owned("queued ");
                push_all(&mut st, url.as_str());
                self.status = st;
                self.error = None;
                self.input = String::new();
                self.input_mode = false;
            },
            Err(e) => {
                self.error = Some(e.message());
            },
        }
        assert(enqueue_post(old(self)@.queue, self@.queue, url@, rv));
    }

    /// First half of starting a download when idle: marks the first queued
    /// job running, resets the flags and announces it; answers what to fetch.
    /// Nothing happens while a download runs or when nothing is queued.
    pub fn start_if_idle(&mut self) -> (r: Option<StartedJob>)
        ensures
            ({
                let i = first_where(old(self)@.queue.jobs, is_status(JobStatus::Queued));
                if old(self)@.downloading || i < 0 {
                    r is None && final(self)@ == old(self)@
                } else {
                    let j = old(self)@.queue.jobs[i];
                    let k = first_where(old(self)@.queue.jobs, has_id(j.id));
                    &&& r matches Some(s) && s.id == j.id && s.url@ == j.url && s.dest_path@
                        == j.dest_path
                    &&& 0 <= k < old(self)@.queue.jobs.len()
                    &&& final(self)@ == TuiView {
                        queue: QueueView {
                            jobs: old(self)@.queue.jobs.update(
                                k,
                                JobView { status: JobStatus::Running, ..old(self)@.queue.jobs[k] },
                            ),
                            ..old(self)@.queue
                        },
                        downloading: true,
                        success_flash: false,
                        error: None,
                        status: "INJECTING "@ + j.url,
                        cancel_requested: false,
                        pause_requested: false,
                        ..old(self)@
                    }
                }
            }),
            old(self)@.queue.wf() ==> final(self)@.queue.wf(),
    {
        if self.downloading {
            return None;
        }
        let qi = match first_with_status(self.queue.jobs(), JobStatus::Queued) {
            None => {
                return None;
            },
            Some(i) => i,
        };
        let ghost jv = self@.queue.jobs;
        let jobs = self.queue.jobs();
        assert(jv[qi as int] == jobs@[qi as int]@);
        let id = jobs[qi].id;
        let url = jobs[qi].url.clone();
        let dest = jobs[qi].dest_path.clone();
        let k = match first_with_id(self.queue.jobs(), id) {
            Some(k) => k,
            None => {
                proof {
                    crate::queue::lemma_first_where_bounds(jv, has_id(id));
                    assert(has_id(id)(jv[qi as int]));
                }
                return None;
            },
        };
        let ghost before = self@;
        self.queue.set_job_status(k, JobStatus::Running);
        set_flag(&self.cancel, false);
        set_flag(&self.pause, false);
        self.cancel_requested = false;
        self.pause_requested = false;
        self.downloading = true;
        self.success_flash = false;
        self.error = None;
        let mut st = owned("INJECTING ");
        push_all(&mut st, url.as_str());
        self.status = st;
        Some(StartedJob { id, url, dest_path: dest })
    }

    /// Applies one progress report.
    pub fn apply_report(&mut self, ev: &ProgressReport)
        ensures
            final(self)@ == report_step(
                old(self)@,
                ev.job_id,
                ev.bytes_done,
                ev.bytes_total,
                ev.bytes_per_sec,
                ev.connections_active,
                ev.phase == Phase::Error,
                opt_str_view(ev.error),
            ),
            old(self)@.queue.wf() ==> final(self)@.queue.wf(),
    {
        match first_with_id(self.queue.jobs(), ev.job_id) {
            Some(i) => {
                self.queue.set_job_progress(
                    i,
                    ev.bytes_done,
                    ev.bytes_total,
                    ev.bytes_per_sec,
                    ev.connections_active,
                );
            },
            None => {},
        }
        if ev.phase == Phase::Error {
            self.error = match &ev.error {
                Some(e) => Some(e.clone()),
                None => None,
            };
        }
    }

    /// Records how the running download ended (its path, or its error's text).
    pub fn finish(&mut self, outcome: core::result::Result<String, String>)
        ensures
            final(self)@ == finish_step(
                old(self)@,
                match outcome {
                    Ok(p) => Ok(p@),
                    Err(e) => Err(e@),
                },
            ),
            old(self)@.queue.wf() ==> final(self)@.queue.wf(),
    {
        proof {
            reveal_strlit("cancelled");
        }
        let ri = first_with_status(self.queue.jobs(), JobStatus::Running);
        match outcome {
            Ok(path) => {
                let mut st = owned("LEVEL CLEAR \u{2014} ");
                push_all(&mut st, path.as_str());
                match ri {
                    Some(i) => self.queue.set_job_done(i, path),
                    None => {},
                }
                self.downloading = false;
                self.success_flash = true;
                self.status = st;
            },
            Err(e) => {
                let ev = chars_of(e.as_str());
                let pat = chars_of("cancelled");
                let cancelled = contains_exec(&ev, &pat);
                match ri {
                    Some(i) => self.queue.set_job_ended(i, cancelled, e.clone()),
                    None => {},
                }
                self.downloading = false;
                if cancelled {
                    self.status = owned("cancelled \u{2014} partial kept for resume");
                } else {
                    let mut st = owned("TILT \u{2014} ");
                    push_all(&mut st, e.as_str());
                    self.status = st;
                    self.error = Some(e);
                }
            },
        }
    }

    /// The download task went away without an answer.
    pub fn download_lost(&mut self)
        ensures
            final(self)@ == (TuiView { downloading: false, ..old(self)@ }),
            old(self)@.queue.wf() ==> final(self)@.queue.wf(),
    {
        self.downloading = false;
    }

    /// Reports the Ventoy mounts found after a `FindVentoy` action: the first
    /// one becomes the download directory; none shows an error.
    pub fn ventoy_found(&mut self, mounts: &Vec<String>)
        ensures
            mounts@.len() == 0 ==> final(self)@ == (TuiView {
                error: Some("no Ventoy mount \u{2014} plug in the stick of infinite reboots"@),
                status: distro_line((fnv1a(vstd::utf8::encode_utf8("no-ventoy-tui"@)) % 10) as nat),
                ..old(self)@
            }),
            mounts@.len() > 0 ==> final(self)@ == (TuiView {
                queue: QueueView { dir: mounts@[0]@, ..old(self)@.queue },
                error: None,
                success_flash: true,
                status: "VENTOY LOCKED \u{2192} "@ + mounts@[0]@ + "  \u{b7}  "@ + distro_line(
                    (fnv1a(vstd::utf8::encode_utf8(mounts@[0]@)) % 10) as nat,
                ),
                ..old(self)@
            }),
            old(self)@.queue.wf() ==> final(self)@.queue.wf(),
    {
        if mounts.len() == 0 {
            self.error = Some(owned("no Ventoy mount \u{2014} plug in the stick of infinite reboots"));
            self.status = owned(distrohopper_line("no-ventoy-tui"));
        } else {
            let dest = mounts[0].clone();
            let mut st = owned("VENTOY LOCKED \u{2192} ");
            push_all(&mut st, dest.as_str());
            push_all(&mut st, "  \u{b7}  ");
            push_all(&mut st, distrohopper_line(dest.as_str()));
            self.queue.set_dir(dest);
            self.error = None;
            self.success_flash = true;
            self.status = st;
        }
    }

    /// Handles one key. `None`, with nothing changed, where adding the typed
    /// URL would panic; otherwise the action for the terminal loop.
    pub fn handle_key(&mut self, key: Key) -> (r: Option<TuiAction>)
        ensures
            old(self)@.dir_prompt ==> (r is Some && final(self)@ == dir_prompt_step(old(self)@, key)
                && dir_prompt_action(old(self)@, key, r.unwrap())),
            (!old(self)@.dir_prompt && old(self)@.input_mode && key is Enter) ==> (if add_url_ok(
                old(self)@,
            ) {
                r is Some && r.unwrap() is Stay && add_url_post(old(self)@, final(self)@)
            } else {
                r is None && final(self)@ == old(self)@
            }),
            (!old(self)@.dir_prompt && old(self)@.input_mode && !(key is Enter)) ==> (r is Some
                && r.unwrap() is Stay && final(self)@ == input_step(old(self)@, key)),
            (!old(self)@.dir_prompt && !old(self)@.input_mode) ==> (r is Some && normal_key_post(
                old(self)@,
                final(self)@,
                key,
                r.unwrap(),
            )),
            old(self)@.queue.wf() ==> final(self)@.queue.wf(),
    {
        if self.dir_prompt {
            return Some(self.dir_prompt_key(key));
        }
        if self.input_mode {
            match key {
                Key::Enter => {
                    if !self.add_url_fits() {
                        return None;
                    }
                    self.add_url();
                    return Some(TuiAction::Stay);
                },
                _ => {
                    self.input_key(key);
                    return Some(TuiAction::Stay);
                },
            }
        }
        Some(self.normal_key(key))
    }

    /// Whether adding the typed URL runs without panicking.
    pub fn add_url_fits(&self) -> (b: bool)
        ensures
            b == add_url_ok(self@),
    {
        let url = trim_str(self.input.as_str());
        if url.as_str().is_empty() {
            return true;
        }
        self.queue.enqueue_fits(url.as_str())
    }

    fn dir_prompt_key(&mut self, key: Key) -> (a: TuiAction)
        ensures
            final(self)@ == dir_prompt_step(old(self)@, key),
            dir_prompt_action(old(self)@, key, a),
            old(self)@.queue.wf() ==> final(self)@.queue.wf(),
    {
        match key {
            Key::Esc => {
                self.dir_prompt = false;
                self.input = String::new();
                TuiAction::Stay
            },
            Key::Enter => {
                let p = trim_str(self.input.as_str());
                let mut action = TuiAction::Stay;
                if !p.as_str().is_empty() {
                    let mut st = owned("dir \u{2192} ");
                    push_all(&mut st, p.as_str());
                    self.queue.set_dir(p.clone());
                    self.status = st;
                    action = TuiAction::CreateDir(p);
                }
                self.dir_prompt = false;
                self.input = String::new();
                action
            },
            Key::Char { c, ctrl } => {
                push_char(&mut self.input, c);
                TuiAction::Stay
            },
            Key::Backspace => {
                pop_char(&mut self.input);
                TuiAction::Stay
            },
            _ => TuiAction::Stay,
        }
    }

    fn input_key(&mut self, key: Key)
        ensures
            !(key is Enter) ==> final(self)@ == input_step(old(self)@, key),
            old(self)@.queue.wf() ==> final(self)@.queue.wf(),
    {
        match key {
            Key::Esc => {
                self.input_mode = false;
            },
            Key::Char { c, ctrl } => {
                push_char(&mut self.input, c);
            },
            Key::Backspace => {
                pop_char(&mut self.input);
            },
            _ => {},
        }
    }

    fn select_down_exec(&mut self)
        ensures
            final(self)@ == select_down(old(self)@),
            old(self)@.queue.wf() ==> final(self)@.queue.wf(),
    {
        let n = self.queue.jobs().len();
        if n > 0 {
            self.selected = if self.selected < n - 1 {
                self.selected + 1
            } else {
                n - 1
            };
        }
    }

    fn remove_selected_exec(&mut self)
        ensures
            final(self)@ == remove_selected(old(self)@),
            old(self)@.queue.wf() ==> final(self)@.queue.wf(),
    {
        if self.selected < self.queue.jobs().len() {
            let ghost jv = self@.queue.jobs;
            let jobs = self.queue.jobs();
            assert(jv[self.selected as int] == jobs@[self.selected as int]@);
            let id = jobs[self.selected].id;
            if self.queue.remove_queued(id) {
                self.status = owned("removed from queue");
                if self.selected > 0 {
                    self.selected = self.selected - 1;
                }
            }
        }
    }

    fn normal_key(&mut self, key: Key) -> (a: TuiAction)
        requires
            !old(self)@.dir_prompt,
            !old(self)@.input_mode,
        ensures
            normal_key_post(old(self)@, final(self)@, key, a),
            old(self)@.queue.wf() ==> final(self)@.queue.wf(),
    {
        let quit_key = match key {
            Key::Char { c, ctrl } => c == 'q',
            Key::Esc => true,
            _ => false,
        };
        if quit_key {
            if self.downloading {
                set_flag(&self.cancel, true);
                self.cancel_requested = true;
                self.status = owned("cancelling\u{2026} (q again to force quit)");
                return TuiAction::ConfirmQuit;
            }
            return TuiAction::Quit;
        }
        match key {
            Key::Char { c, ctrl } => {
                if c == 'c' && ctrl {
                    TuiAction::Quit
                } else if c == 'a' {
                    self.input_mode = true;
                    self.input = String::new();
                    TuiAction::Stay
                } else if c == 'p' {
                    if self.pause_requested {
                        set_flag(&self.pause, false);
                        self.pause_requested = false;
                        self.status = owned("resumed");
                    } else if self.downloading {
                        set_flag(&self.pause, true);
                        self.pause_requested = true;
                        self.status = owned("paused");
                    }
                    TuiAction::Stay
                } else if c == 'c' {
                    if self.downloading {
                        set_flag(&self.cancel, true);
                        self.cancel_requested = true;
                        self.status = owned("cancel requested\u{2026}");
                    }
                    TuiAction::Stay
                } else if c == 'd' {
                    self.dir_prompt = true;
                    self.input = self.queue.dir().clone();
                    TuiAction::Stay
                } else if c == 'v' {
                    TuiAction::FindVentoy
                } else if c == 'x' {
                    self.remove_selected_exec();
                    TuiAction::Stay
                } else if c == 'j' {
                    self.select_down_exec();
                    TuiAction::Stay
                } else if c == 'k' {
                    self.selected = if self.selected > 0 {
                        self.selected - 1
                    } else {
                        0
                    };
                    TuiAction::Stay
                } else {
                    TuiAction::Stay
                }
            },
            Key::Down => {
                self.select_down_exec();
                TuiAction::Stay
            },
            Key::Up => {
                self.selected = if self.selected > 0 {
                    self.selected - 1
                } else {
                    0
                };
                TuiAction::Stay
            },
            _ => TuiAction::Stay,
        }
    }
}

} // verus!
