//! The download queue: jobs waiting, running and finished, one active at a time.
use vstd::prelude::*;

use std::sync::atomic::AtomicBool;
use std::sync::Arc;

use crate::download::{share_flag, DownloadOptions};
use crate::error::{error_message, JunkError, JunkErrorView, Result};
use crate::sys::{parse_url, url_parse};
use crate::text::{owned, push_all, str_eq, trim, trim_str};
use crate::util::{
    filename_from_url, filename_from_url_checked, filename_from_url_ok, filename_from_url_spec,
    join_spec, path_join,
};

verus! {

#[derive(Debug, Clone, Copy, PartialEq, Eq, Structural)]
pub enum JobStatus {
    Queued,
    Running,
    Paused,
    Done,
    Failed,
    Cancelled,
}

/// A download in the queue. The rate is kept in whole bytes per second.
#[derive(Debug)]
pub struct Job {
    pub id: u64,
    pub url: String,
    pub dest_path: String,
    pub status: JobStatus,
    pub bytes_done: u64,
    pub bytes_total: u64,
    pub bytes_per_sec: u64,
    pub connections_active: u32,
    pub error: Option<String>,
}

pub struct JobView {
    pub id: u64,
    pub url: Seq<char>,
    pub dest_path: Seq<char>,
    pub status: JobStatus,
    pub bytes_done: u64,
    pub bytes_total: u64,
    pub bytes_per_sec: u64,
    pub connections_active: u32,
    pub error: Option<Seq<char>>,
}

impl View for Job {
    type V = JobView;

    open spec fn view(&self) -> JobView {
        JobView {
            id: self.id,
            url: self.url@,
            dest_path: self.dest_path@,
            status: self.status,
            bytes_done: self.bytes_done,
            bytes_total: self.bytes_total,
            bytes_per_sec: self.bytes_per_sec,
            connections_active: self.connections_active,
            error: match self.error {
                Some(e) => Some(e@),
                None => None,
            },
        }
    }
}

/// A freshly queued job.
pub open spec fn new_job_view(id: u64, url: Seq<char>, dest_path: Seq<char>) -> JobView {
    JobView {
        id,
        url,
        dest_path,
        status: JobStatus::Queued,
        bytes_done: 0,
        bytes_total: 0,
        bytes_per_sec: 0,
        connections_active: 0,
        error: None,
    }
}

impl Job {
    pub fn new(id: u64, url: String, dest_path: String) -> (r: Job)
        ensures
            r@ == new_job_view(id, url@, dest_path@),
    {
        Job {
            id,
            url,
            dest_path,
            status: JobStatus::Queued,
            bytes_done: 0,
            bytes_total: 0,
            bytes_per_sec: 0,
            connections_active: 0,
            error: None,
        }
    }
}

/// FIFO queue with one active download.
pub struct DownloadQueue {
    next_id: u64,
    jobs: Vec<Job>,
    dir: String,
    connections: u32,
    cancel: Arc<AtomicBool>,
    pause: Arc<AtomicBool>,
}

/// The state of a queue: the id the next job gets, the jobs in order, the
/// directory new jobs are saved to, and the connections per download.
pub struct QueueView {
    pub next_id: u64,
    pub jobs: Seq<JobView>,
    pub dir: Seq<char>,
    pub connections: u32,
}

pub open spec fn job_views(jobs: Seq<Job>) -> Seq<JobView> {
    jobs.map_values(|j: Job| j@)
}

impl View for DownloadQueue {
    type V = QueueView;

    closed spec fn view(&self) -> QueueView {
        QueueView {
            next_id: self.next_id,
            jobs: job_views(self.jobs@),
            dir: self.dir@,
            connections: self.connections,
        }
    }
}

/// The connection count kept for a request of `n`: clamped to `1..=32`.
pub open spec fn clamp_connections(n: u32) -> u32 {
    if n < 1 {
        1
    } else if n > 32 {
        32
    } else {
        n
    }
}

impl QueueView {
    /// What every queue keeps: a connection count in `1..=32`, and job ids
    /// that are distinct and below the next id to hand out.
    pub open spec fn wf(self) -> bool {
        &&& 1 <= self.connections <= 32
        &&& forall|i: int| 0 <= i < self.jobs.len() ==> #[trigger] self.jobs[i].id < self.next_id
        &&& forall|i: int, j: int|
            0 <= i < j < self.jobs.len() ==> #[trigger] self.jobs[i].id != #[trigger] self.jobs[j].id
    }
}

/// The index of the first job satisfying `p`, or -1.
pub open spec fn first_where(s: Seq<JobView>, p: spec_fn(JobView) -> bool) -> int
    decreases s.len(),
{
    if s.len() == 0 {
        -1
    } else {
        let r = first_where(s.drop_last(), p);
        if r >= 0 {
            r
        } else if p(s.last()) {
            s.len() - 1
        } else {
            -1
        }
    }
}

pub open spec fn has_id(id: u64) -> spec_fn(JobView) -> bool {
    |j: JobView| j.id == id
}

pub open spec fn is_status(st: JobStatus) -> spec_fn(JobView) -> bool {
    |j: JobView| j.status == st
}

pub proof fn lemma_first_where_bounds(s: Seq<JobView>, p: spec_fn(JobView) -> bool)
    ensures
        -1 <= first_where(s, p) < s.len(),
        first_where(s, p) >= 0 ==> p(s[first_where(s, p)]),
        first_where(s, p) >= 0 ==> forall|k: int| 0 <= k < first_where(s, p) ==> !p(#[trigger] s[k]),
        first_where(s, p) < 0 ==> forall|k: int| 0 <= k < s.len() ==> !p(#[trigger] s[k]),
    decreases s.len(),
{
    if s.len() > 0 {
        let init = s.drop_last();
        lemma_first_where_bounds(init, p);
        assert forall|k: int| 0 <= k < init.len() implies init[k] == s[k] by {}
    }
}

/// The first index where `p` holds is the one a scan from the front finds.
pub proof fn lemma_first_where_scan_pub(s: Seq<JobView>, p: spec_fn(JobView) -> bool, i: int)
    requires
        0 <= i <= s.len(),
        forall|k: int| 0 <= k < i ==> !p(#[trigger] s[k]),
    ensures
        i < s.len() && p(s[i]) ==> first_where(s, p) == i,
        i == s.len() ==> first_where(s, p) == -1,
{
    lemma_first_where_scan(s, p, i);
}

proof fn lemma_first_where_scan(s: Seq<JobView>, p: spec_fn(JobView) -> bool, i: int)
    requires
        0 <= i <= s.len(),
        forall|k: int| 0 <= k < i ==> !p(#[trigger] s[k]),
    ensures
        i < s.len() && p(s[i]) ==> first_where(s, p) == i,
        i == s.len() ==> first_where(s, p) == -1,
    decreases s.len(),
{
    lemma_first_where_bounds(s, p);
    if i < s.len() && p(s[i]) {
        let f = first_where(s, p);
        assert(f >= 0) by {
            if f < 0 {
                assert(!p(s[i]));
            }
        }
        if f < i {
            assert(!p(s[f]));
        }
        if f > i {
            assert(!p(s[i]));
        }
    }
    if i == s.len() {
        if first_where(s, p) >= 0 {
            assert(p(s[first_where(s, p)]));
        }
    }
}

/// What `remove_queued(id)` leaves and answers: the first job with that id is
/// removed, and `true` returned, exactly when it is still queued.
pub open spec fn remove_queued_spec(jobs: Seq<JobView>, id: u64) -> (Seq<JobView>, bool) {
    let i = first_where(jobs, has_id(id));
    if i >= 0 && jobs[i].status == JobStatus::Queued {
        (jobs.remove(i), true)
    } else {
        (jobs, false)
    }
}

/// Why a parsed scheme is refused: every scheme but `http` and `https`.
pub open spec fn scheme_refusal_spec(scheme: Seq<char>) -> Option<Seq<char>> {
    if scheme != "http"@ && scheme != "https"@ {
        Some("only http/https supported, got "@ + scheme)
    } else {
        None
    }
}

/// The refusal text for a URL's parsed scheme (what `Url::scheme` gives), if any.
pub fn scheme_refusal(scheme: &str) -> (r: Option<String>)
    ensures
        match r {
            Some(m) => scheme_refusal_spec(scheme@) == Some(m@),
            None => scheme_refusal_spec(scheme@) is None,
        },
{
    if !str_eq(scheme, "http") && !str_eq(scheme, "https") {
        let mut m = owned("only http/https supported, got ");
        push_all(&mut m, scheme);
        Some(m)
    } else {
        None
    }
}

/// The mark a job's status shows with in the queue list.
pub open spec fn job_mark_spec(s: JobStatus) -> Seq<char> {
    match s {
        JobStatus::Running => "\u{25b6}"@,
        JobStatus::Done => "\u{2713}"@,
        JobStatus::Failed => "\u{2717}"@,
        JobStatus::Cancelled => "\u{2298}"@,
        JobStatus::Queued => "\u{b7}"@,
        JobStatus::Paused => "\u{275a}\u{275a}"@,
    }
}

pub fn job_mark(s: JobStatus) -> (r: &'static str)
    ensures
        r@ == job_mark_spec(s),
{
    match s {
        JobStatus::Running => "\u{25b6}",
        JobStatus::Done => "\u{2713}",
        JobStatus::Failed => "\u{2717}",
        JobStatus::Cancelled => "\u{2298}",
        JobStatus::Queued => "\u{b7}",
        JobStatus::Paused => "\u{275a}\u{275a}",
    }
}

/// The error `enqueue(url)` refuses `url` with, if any: an empty (trimmed)
/// URL, one that does not parse, or one whose scheme is not http or https.
pub open spec fn enqueue_error(url: Seq<char>) -> Option<JunkErrorView> {
    let t = trim(url);
    if t.len() == 0 {
        Some(JunkErrorView::InvalidUrl("empty"@))
    } else {
        match url_parse(t) {
            Err(e) => Some(JunkErrorView::InvalidUrl(e)),
            Ok(parts) => match scheme_refusal_spec(parts.0) {
                Some(m) => Some(JunkErrorView::InvalidUrl(m)),
                None => None,
            },
        }
    }
}

/// `enqueue(url)` runs without panicking on `q`: an accepted URL needs an id
/// left to hand out and a file name that `sanitize_filename` can cut.
pub open spec fn enqueue_ok(q: QueueView, url: Seq<char>) -> bool {
    enqueue_error(url) is None ==> (q.next_id < u64::MAX && filename_from_url_ok(trim(url)))
}

pub open spec fn result_view(r: Result<u64>) -> core::result::Result<u64, JunkErrorView> {
    match r {
        Ok(v) => Ok(v),
        Err(e) => Err(e@),
    }
}

/// What `enqueue(url)` does to the queue `old`, giving `new` and answering `r`:
/// a refused URL leaves the queue as it was; an accepted one is appended as a
/// queued job under the next id, saved under its URL's file name in the
/// queue's directory.
pub open spec fn enqueue_post(
    old: QueueView,
    new: QueueView,
    url: Seq<char>,
    r: core::result::Result<u64, JunkErrorView>,
) -> bool {
    match enqueue_error(url) {
        Some(e) => r == Err::<u64, JunkErrorView>(e) && new == old,
        None => {
            let t = trim(url);
            &&& r == Ok::<u64, JunkErrorView>(old.next_id)
            &&& new == QueueView {
                next_id: (old.next_id + 1) as u64,
                jobs: old.jobs.push(
                    new_job_view(old.next_id, t, join_spec(old.dir, filename_from_url_spec(t))),
                ),
                ..old
            }
        },
    }
}

/// What a run leaves in job `i` once the download ends with `outcome`: a
/// saved path marks it done (with at least one byte counted), cancellation
/// marks it cancelled, any other error marks it failed with the error's message.
pub open spec fn finished_job(
    j: JobView,
    outcome: core::result::Result<Seq<char>, JunkErrorView>,
) -> JobView {
    match outcome {
        Ok(path) => JobView {
            dest_path: path,
            status: JobStatus::Done,
            bytes_done: if j.bytes_total > 1 {
                j.bytes_total
            } else {
                1
            },
            ..j
        },
        Err(JunkErrorView::Cancelled) => JobView { status: JobStatus::Cancelled, ..j },
        Err(e) => JobView { status: JobStatus::Failed, error: Some(error_message(e)), ..j },
    }
}

/// How a run ends decides a job's final status: a saved path makes it done
/// under that path, only cancellation makes it cancelled, and every other
/// error makes it failed with that error's message; the job keeps its id and
/// URL whatever the outcome.
pub proof fn lemma_finished_job_status(
    j: JobView,
    outcome: core::result::Result<Seq<char>, JunkErrorView>,
)
    ensures
        outcome matches Ok(p) ==> (finished_job(j, outcome).status == JobStatus::Done
            && finished_job(j, outcome).dest_path == p),
        outcome matches Err(e) ==> (finished_job(j, outcome).status == JobStatus::Cancelled
            <==> e is Cancelled),
        outcome matches Err(e) ==> (!(e is Cancelled) ==> (finished_job(j, outcome).status
            == JobStatus::Failed && finished_job(j, outcome).error == Some(error_message(e)))),
        finished_job(j, outcome).id == j.id,
        finished_job(j, outcome).url == j.url,
{
}

pub open spec fn outcome_view(r: Result<String>) -> core::result::Result<Seq<char>, JunkErrorView> {
    match r {
        Ok(p) => Ok(p@),
        Err(e) => Err(e@),
    }
}

/// What `start_next` does: the first queued job, if any, is marked running
/// with its error cleared, and its index answered; with none queued, nothing
/// changes and `None` is answered.
pub open spec fn start_next_post(old: QueueView, new: QueueView, r: Option<usize>) -> bool {
    let i = first_where(old.jobs, is_status(JobStatus::Queued));
    match r {
        None => i == -1 && new == old,
        Some(k) => k == i && 0 <= i < old.jobs.len() && new == (QueueView {
            jobs: old.jobs.update(
                i,
                JobView { status: JobStatus::Running, error: None, ..old.jobs[i] },
            ),
            ..old
        }),
    }
}

/// One download at a time: when no job is running, `start_next` leaves at
/// most one running job, the one whose index it answered, and that job was
/// the first one queued.
pub proof fn lemma_start_next_single_active(old: QueueView, new: QueueView, r: Option<usize>)
    requires
        start_next_post(old, new, r),
        forall|k: int| 0 <= k < old.jobs.len() ==> #[trigger] old.jobs[k].status
            != JobStatus::Running,
    ensures
        forall|k: int|
            0 <= k < new.jobs.len() && #[trigger] new.jobs[k].status == JobStatus::Running ==> r
                == Some(k as usize),
        r matches Some(k) ==> old.jobs[k as int].status == JobStatus::Queued && forall|m: int|
            0 <= m < k ==> #[trigger] old.jobs[m].status != JobStatus::Queued,
{
    lemma_first_where_bounds(old.jobs, is_status(JobStatus::Queued));
    match r {
        None => {},
        Some(i) => {
            assert forall|k: int|
                0 <= k < new.jobs.len() && #[trigger] new.jobs[k].status
                    == JobStatus::Running implies r == Some(k as usize) by {
                if k != i {
                    assert(new.jobs[k] == old.jobs[k]);
                }
            }
            assert forall|m: int| 0 <= m < i implies #[trigger] old.jobs[m].status
                != JobStatus::Queued by {
                assert(!is_status(JobStatus::Queued)(old.jobs[m]));
            }
        },
    }
}

/// Changing a job in place without touching its id keeps a queue well-formed.
pub proof fn lemma_update_keeps_wf(q: QueueView, i: int, j: JobView)
    requires
        q.wf(),
        0 <= i < q.jobs.len(),
        j.id == q.jobs[i].id,
    ensures
        (QueueView { jobs: q.jobs.update(i, j), ..q }).wf(),
{
    let w = QueueView { jobs: q.jobs.update(i, j), ..q };
    assert forall|a: int| 0 <= a < w.jobs.len() implies #[trigger] w.jobs[a].id < w.next_id by {
        assert(w.jobs[a].id == q.jobs[a].id);
    }
    assert forall|a: int, b: int|
        0 <= a < b < w.jobs.len() implies #[trigger] w.jobs[a].id != #[trigger] w.jobs[b].id by {
        assert(w.jobs[a].id == q.jobs[a].id);
        assert(w.jobs[b].id == q.jobs[b].id);
    }
}

/// How many of the answers are `Ok`.
pub open spec fn count_ok(rs: Seq<core::result::Result<u64, JunkErrorView>>) -> nat
    decreases rs.len(),
{
    if rs.len() == 0 {
        0
    } else {
        count_ok(rs.drop_last()) + if rs.last() is Ok {
            1nat
        } else {
            0nat
        }
    }
}

proof fn lemma_count_ok_bound(rs: Seq<core::result::Result<u64, JunkErrorView>>)
    ensures
        count_ok(rs) <= rs.len(),
    decreases rs.len(),
{
    if rs.len() > 0 {
        lemma_count_ok_bound(rs.drop_last());
    }
}

proof fn lemma_next_id_counts(
    qs: Seq<QueueView>,
    urls: Seq<Seq<char>>,
    rs: Seq<core::result::Result<u64, JunkErrorView>>,
    i: int,
)
    requires
        qs.len() == rs.len() + 1,
        urls.len() == rs.len(),
        rs.len() < u64::MAX,
        qs[0].next_id == 1,
        forall|k: int| 0 <= k < rs.len() ==> enqueue_post(qs[k], qs[k + 1], urls[k], #[trigger] rs[k]),
        0 <= i <= rs.len(),
    ensures
        qs[i].next_id == 1 + count_ok(rs.take(i)),
    decreases i,
{
    if i > 0 {
        lemma_next_id_counts(qs, urls, rs, i - 1);
        assert(rs.take(i).drop_last() == rs.take(i - 1));
        assert(rs.take(i).last() == rs[i - 1]);
        lemma_count_ok_bound(rs.take(i - 1));
        assert(enqueue_post(qs[i - 1], qs[i], urls[i - 1], rs[i - 1]));
    } else {
        assert(rs.take(0).len() == 0);
    }
}

/// Ids count the accepted URLs from 1: over a run of `enqueue` calls on a
/// queue whose next id is 1 (states `qs[0]` to `qs[n]`, URLs and answers in
/// between), each accepted URL gets 1 plus the number accepted before it, and
/// the next id is 1 plus the number accepted. (The other queue operations
/// leave the next id as it is.)
pub proof fn lemma_ids_count_enqueues(
    qs: Seq<QueueView>,
    urls: Seq<Seq<char>>,
    rs: Seq<core::result::Result<u64, JunkErrorView>>,
)
    requires
        qs.len() == rs.len() + 1,
        urls.len() == rs.len(),
        rs.len() < u64::MAX,
        qs[0].next_id == 1,
        forall|k: int| 0 <= k < rs.len() ==> enqueue_post(qs[k], qs[k + 1], urls[k], #[trigger] rs[k]),
    ensures
        forall|k: int|
            0 <= k < rs.len() ==> (#[trigger] rs[k] matches Ok(id) ==> id == 1 + count_ok(rs.take(k))),
        qs[rs.len() as int].next_id == 1 + count_ok(rs),
{
    assert forall|k: int| 0 <= k < rs.len() implies (#[trigger] rs[k] matches Ok(id) ==> id == 1
        + count_ok(rs.take(k))) by {
        lemma_next_id_counts(qs, urls, rs, k);
        assert(enqueue_post(qs[k], qs[k + 1], urls[k], rs[k]));
    }
    lemma_next_id_counts(qs, urls, rs, rs.len() as int);
    assert(rs.take(rs.len() as int) == rs);
}

/// Taking a job out right after queueing it: `remove_queued` on the id that
/// `enqueue` answered removes exactly that job and gives back the jobs the
/// queue had before.
pub proof fn lemma_enqueue_then_remove(q: QueueView, url: Seq<char>, new: QueueView, id: u64)
    requires
        q.wf(),
        enqueue_post(q, new, url, Ok(id)),
    ensures
        remove_queued_spec(new.jobs, id) == (q.jobs, true),
{
    assert(enqueue_error(url) is None);
    let jobs = new.jobs;
    assert(jobs.len() == q.jobs.len() + 1);
    assert forall|k: int| 0 <= k < q.jobs.len() implies !has_id(id)(#[trigger] jobs[k]) by {
        assert(jobs[k] == q.jobs[k]);
        assert(q.jobs[k].id < q.next_id);
    }
    lemma_first_where_scan(jobs, has_id(id), q.jobs.len() as int);
    assert(jobs.remove(q.jobs.len() as int) == q.jobs);
}

/// Queueing never reuses an id: on a well-formed queue the id `enqueue`
/// answers belongs to no job that was there before, and the queue stays
/// well-formed.
pub proof fn lemma_enqueue_fresh_id(q: QueueView, url: Seq<char>, new: QueueView, id: u64)
    requires
        q.wf(),
        enqueue_post(q, new, url, Ok(id)),
    ensures
        forall|k: int| 0 <= k < q.jobs.len() ==> #[trigger] q.jobs[k].id != id,
        new.jobs.last().id == id,
        new.jobs.last().status == JobStatus::Queued,
{
    assert(enqueue_error(url) is None);
}

impl DownloadQueue {
    /// The cancel flag this queue shares with the downloads it runs.
    pub closed spec fn cancel_flag(&self) -> Arc<AtomicBool> {
        self.cancel
    }

    /// The pause flag this queue shares with the downloads it runs.
    pub closed spec fn pause_flag(&self) -> Arc<AtomicBool> {
        self.pause
    }

    pub fn new(dir: String, connections: u32) -> (r: Self)
        ensures
            r@ == (QueueView {
                next_id: 1,
                jobs: Seq::empty(),
                dir: dir@,
                connections: clamp_connections(connections),
            }),
            r@.wf(),
    {
        let c = if connections < 1 {
            1
        } else if connections > 32 {
            32
        } else {
            connections
        };
        let q = DownloadQueue {
            next_id: 1,
            jobs: Vec::new(),
            dir,
            connections: c,
            cancel: Arc::new(AtomicBool::new(false)),
            pause: Arc::new(AtomicBool::new(false)),
        };
        assert(job_views(q.jobs@) == Seq::<JobView>::empty());
        q
    }

    pub fn dir(&self) -> (r: &String)
        ensures
            r@ == self@.dir,
    {
        &self.dir
    }

    pub fn set_dir(&mut self, dir: String)
        ensures
            final(self)@ == (QueueView { dir: dir@, ..old(self)@ }),
            old(self)@.wf() ==> final(self)@.wf(),
    {
        self.dir = dir;
    }

    pub fn connections(&self) -> (r: u32)
        ensures
            r == self@.connections,
            self@.wf() ==> 1 <= r <= 32,
    {
        self.connections
    }

    pub fn set_connections(&mut self, n: u32)
        ensures
            final(self)@ == (QueueView { connections: clamp_connections(n), ..old(self)@ }),
            old(self)@.wf() ==> final(self)@.wf(),
    {
        self.connections = if n < 1 {
            1
        } else if n > 32 {
            32
        } else {
            n
        };
    }

    pub fn jobs(&self) -> (r: &[Job])
        ensures
            job_views(r@) == self@.jobs,
    {
        self.jobs.as_slice()
    }

    /// The jobs, open for changes. Changing ids can break what `wf` says.
    pub fn jobs_mut(&mut self) -> (r: &mut [Job])
        ensures
            job_views(r@) == old(self)@.jobs,
            final(self)@ == (QueueView { jobs: job_views(final(r)@), ..old(self)@ }),
    {
        self.jobs.as_mut_slice()
    }

    /// The first running job, if any.
    pub fn active_job(&self) -> (r: Option<&Job>)
        ensures
            match r {
                Some(j) => {
                    let i = first_where(self@.jobs, is_status(JobStatus::Running));
                    i >= 0 && j@ == self@.jobs[i]
                },
                None => first_where(self@.jobs, is_status(JobStatus::Running)) == -1,
            },
    {
        let ghost v = self@.jobs;
        let mut i: usize = 0;
        while i < self.jobs.len()
            invariant
                i <= self.jobs.len(),
                v == job_views(self.jobs@),
                forall|k: int| 0 <= k < i ==> !is_status(JobStatus::Running)(#[trigger] v[k]),
            decreases self.jobs.len() - i,
        {
            assert(v[i as int] == self.jobs@[i as int]@);
            if self.jobs[i].status == JobStatus::Running {
                proof {
                    lemma_first_where_scan(v, is_status(JobStatus::Running), i as int);
                }
                return Some(&self.jobs[i]);
            }
            i += 1;
        }
        proof {
            lemma_first_where_scan(v, is_status(JobStatus::Running), i as int);
        }
        None
    }

    /// Validates `url` and queues it, answering the new job's id.
    pub fn enqueue(&mut self, url: &str) -> (r: Result<u64>)
        requires
            enqueue_ok(old(self)@, url@),
        ensures
            enqueue_post(old(self)@, final(self)@, url@, result_view(r)),
            old(self)@.wf() ==> final(self)@.wf(),
    {
        proof {
            reveal_strlit("empty");
            reveal_strlit("http");
            reveal_strlit("https");
        }
        let t = trim_str(url);
        if t.as_str().is_empty() {
            return Err(JunkError::InvalidUrl(owned("empty")));
        }
        let parts = match parse_url(t.as_str()) {
            Err(e) => {
                return Err(JunkError::InvalidUrl(e));
            },
            Ok(p) => p,
        };
        match scheme_refusal(parts.scheme.as_str()) {
            Some(m) => {
                return Err(JunkError::InvalidUrl(m));
            },
            None => {},
        }
        let name = filename_from_url(t.as_str());
        let dest = path_join(self.dir.as_str(), name.as_str());
        let id = self.next_id;
        self.next_id = self.next_id + 1;
        let ghost old_jobs = job_views(self.jobs@);
        let job = Job::new(id, t, dest);
        self.jobs.push(job);
        assert(job_views(self.jobs@) == old_jobs.push(job@));
        proof {
            let v = self@;
            if old(self)@.wf() {
                assert forall|i: int| 0 <= i < v.jobs.len() implies #[trigger] v.jobs[i].id
                    < v.next_id by {
                    if i < old_jobs.len() {
                        assert(v.jobs[i] == old_jobs[i]);
                    }
                }
                assert forall|i: int, j: int| 0 <= i < j < v.jobs.len() implies #[trigger] v.jobs[i].id
                    != #[trigger] v.jobs[j].id by {
                    assert(v.jobs[i] == old_jobs[i]);
                    if j < old_jobs.len() {
                        assert(v.jobs[j] == old_jobs[j]);
                    }
                }
            }
        }
        Ok(id)
    }

    /// `enqueue(url)` where it runs without panicking, `None` (and the queue
    /// unchanged) where it would panic: when no id is left to hand out, or
    /// when the URL's file name would be cut inside a character.
    pub fn try_enqueue(&mut self, url: &str) -> (r: Option<Result<u64>>)
        ensures
            r is None <==> !enqueue_ok(old(self)@, url@),
            r is None ==> final(self)@ == old(self)@,
            r matches Some(res) ==> enqueue_post(old(self)@, final(self)@, url@, result_view(res)),
            old(self)@.wf() ==> final(self)@.wf(),
    {
        if !self.enqueue_fits(url) {
            return None;
        }
        Some(self.enqueue(url))
    }

    /// Whether `enqueue(url)` runs without panicking on this queue.
    pub fn enqueue_fits(&self, url: &str) -> (b: bool)
        ensures
            b == enqueue_ok(self@, url@),
    {
        proof {
            reveal_strlit("http");
            reveal_strlit("https");
        }
        let t = trim_str(url);
        if !t.as_str().is_empty() {
            match parse_url(t.as_str()) {
                Err(_) => {},
                Ok(parts) => {
                    if str_eq(parts.scheme.as_str(), "http") || str_eq(
                        parts.scheme.as_str(),
                        "https",
                    ) {
                        if self.next_id == u64::MAX {
                            return false;
                        }
                        if filename_from_url_checked(t.as_str()).is_none() {
                            return false;
                        }
                    }
                },
            }
        }
        true
    }

    /// Sets the status of job `i`.
    pub fn set_job_status(&mut self, i: usize, status: JobStatus)
        requires
            i < old(self)@.jobs.len(),
        ensures
            final(self)@ == (QueueView {
                jobs: old(self)@.jobs.update(i as int, JobView { status, ..old(self)@.jobs[i as int] }),
                ..old(self)@
            }),
            old(self)@.wf() ==> final(self)@.wf(),
    {
        let ghost v = self@.jobs;
        let mut job = self.jobs.remove(i);
        job.status = status;
        self.jobs.insert(i, job);
        assert(job_views(self.jobs@) == v.update(i as int, JobView { status, ..v[i as int] }));
        proof {
            if old(self)@.wf() {
                lemma_update_keeps_wf(old(self)@, i as int, JobView { status, ..v[i as int] });
            }
        }
    }

    /// Records a progress report in job `i`.
    pub fn set_job_progress(
        &mut self,
        i: usize,
        bytes_done: u64,
        bytes_total: u64,
        bytes_per_sec: u64,
        connections_active: u32,
    )
        requires
            i < old(self)@.jobs.len(),
        ensures
            final(self)@ == (QueueView {
                jobs: old(self)@.jobs.update(
                    i as int,
                    JobView {
                        bytes_done,
                        bytes_total,
                        bytes_per_sec,
                        connections_active,
                        ..old(self)@.jobs[i as int]
                    },
                ),
                ..old(self)@
            }),
            old(self)@.wf() ==> final(self)@.wf(),
    {
        let ghost v = self@.jobs;
        let mut job = self.jobs.remove(i);
        job.bytes_done = bytes_done;
        job.bytes_total = bytes_total;
        job.bytes_per_sec = bytes_per_sec;
        job.connections_active = connections_active;
        self.jobs.insert(i, job);
        assert(job_views(self.jobs@) == v.update(
            i as int,
            JobView { bytes_done, bytes_total, bytes_per_sec, connections_active, ..v[i as int] },
        ));
        proof {
            if old(self)@.wf() {
                lemma_update_keeps_wf(
                    old(self)@,
                    i as int,
                    JobView { bytes_done, bytes_total, bytes_per_sec, connections_active, ..v[i as int] },
                );
            }
        }
    }

    /// Marks job `i` done, saved at `path`.
    pub fn set_job_done(&mut self, i: usize, path: String)
        requires
            i < old(self)@.jobs.len(),
        ensures
            final(self)@ == (QueueView {
                jobs: old(self)@.jobs.update(
                    i as int,
                    JobView { status: JobStatus::Done, dest_path: path@, ..old(self)@.jobs[i as int] },
                ),
                ..old(self)@
            }),
            old(self)@.wf() ==> final(self)@.wf(),
    {
        let ghost v = self@.jobs;
        let ghost p = path@;
        let mut job = self.jobs.remove(i);
        job.status = JobStatus::Done;
        job.dest_path = path;
        self.jobs.insert(i, job);
        assert(job_views(self.jobs@) == v.update(
            i as int,
            JobView { status: JobStatus::Done, dest_path: p, ..v[i as int] },
        ));
        proof {
            if old(self)@.wf() {
                lemma_update_keeps_wf(
                    old(self)@,
                    i as int,
                    JobView { status: JobStatus::Done, dest_path: p, ..v[i as int] },
                );
            }
        }
    }

    /// Marks job `i` cancelled or failed, with the error text `e`.
    pub fn set_job_ended(&mut self, i: usize, cancelled: bool, e: String)
        requires
            i < old(self)@.jobs.len(),
        ensures
            final(self)@ == (QueueView {
                jobs: old(self)@.jobs.update(
                    i as int,
                    JobView {
                        status: if cancelled {
                            JobStatus::Cancelled
                        } else {
                            JobStatus::Failed
                        },
                        error: Some(e@),
                        ..old(self)@.jobs[i as int]
                    },
                ),
                ..old(self)@
            }),
            old(self)@.wf() ==> final(self)@.wf(),
    {
        let ghost v = self@.jobs;
        let ghost ev = e@;
        let mut job = self.jobs.remove(i);
        job.status = if cancelled {
            JobStatus::Cancelled
        } else {
            JobStatus::Failed
        };
        job.error = Some(e);
        self.jobs.insert(i, job);
        assert(job_views(self.jobs@) == v.update(
            i as int,
            JobView {
                status: if cancelled {
                    JobStatus::Cancelled
                } else {
                    JobStatus::Failed
                },
                error: Some(ev),
                ..v[i as int]
            },
        ));
        proof {
            if old(self)@.wf() {
                lemma_update_keeps_wf(
                    old(self)@,
                    i as int,
                    JobView {
                        status: if cancelled {
                            JobStatus::Cancelled
                        } else {
                            JobStatus::Failed
                        },
                        error: Some(ev),
                        ..v[i as int]
                    },
                );
            }
        }
    }

    /// Removes the job with id `id` if it is still queued; answers whether it did.
    pub fn remove_queued(&mut self, id: u64) -> (r: bool)
        ensures
            (final(self)@.jobs, r) == remove_queued_spec(old(self)@.jobs, id),
            final(self)@ == (QueueView { jobs: final(self)@.jobs, ..old(self)@ }),
            old(self)@.wf() ==> final(self)@.wf(),
    {
        let ghost v = self@.jobs;
        let mut i: usize = 0;
        while i < self.jobs.len()
            invariant
                i <= self.jobs.len(),
                v == job_views(self.jobs@),
                v == old(self)@.jobs,
                self@ == old(self)@,
                forall|k: int| 0 <= k < i ==> !has_id(id)(#[trigger] v[k]),
            decreases self.jobs.len() - i,
        {
            assert(v[i as int] == self.jobs@[i as int]@);
            if self.jobs[i].id == id {
                proof {
                    lemma_first_where_scan(v, has_id(id), i as int);
                }
                if self.jobs[i].status == JobStatus::Queued {
                    self.jobs.remove(i);
                    assert(job_views(self.jobs@) == v.remove(i as int));
                    proof {
                        let w = self@;
                        if old(self)@.wf() {
                            assert forall|a: int| 0 <= a < w.jobs.len() implies #[trigger] w.jobs[a].id
                                < w.next_id by {
                                if a < i {
                                    assert(w.jobs[a] == v[a]);
                                } else {
                                    assert(w.jobs[a] == v[a + 1]);
                                }
                            }
                            assert forall|a: int, b: int|
                                0 <= a < b < w.jobs.len() implies #[trigger] w.jobs[a].id
                                != #[trigger] w.jobs[b].id by {
                                let a2 = if a < i {
                                    a
                                } else {
                                    a + 1
                                };
                                let b2 = if b < i {
                                    b
                                } else {
                                    b + 1
                                };
                                assert(w.jobs[a] == v[a2]);
                                assert(w.jobs[b] == v[b2]);
                            }
                        }
                    }
                    return true;
                }
                return false;
            }
            i += 1;
        }
        proof {
            lemma_first_where_scan(v, has_id(id), i as int);
        }
        false
    }

    pub fn request_cancel(&self) {
        self.cancel.store(true, std::sync::atomic::Ordering::Relaxed);
    }

    pub fn request_pause(&self) {
        self.pause.store(true, std::sync::atomic::Ordering::Relaxed);
    }

    pub fn request_resume(&self) {
        self.pause.store(false, std::sync::atomic::Ordering::Relaxed);
    }

    /// Whether a pause is requested. The flag is shared with the running
    /// download, so nothing is promised of the answer.
    pub fn is_paused(&self) -> bool {
        self.pause.load(std::sync::atomic::Ordering::Relaxed)
    }

    pub fn clear_cancel(&self) {
        self.cancel.store(false, std::sync::atomic::Ordering::Relaxed);
    }

    /// First half of running the next job: marks the first queued job as
    /// running (clearing its error) and answers its index; `None`, with nothing
    /// changed, when none is queued. It also lowers the shared cancel and pause
    /// flags; their values are shared with running downloads and no clause
    /// describes them.
    pub fn start_next(&mut self) -> (r: Option<usize>)
        ensures
            start_next_post(old(self)@, final(self)@, r),
            old(self)@.wf() ==> final(self)@.wf(),
    {
        let ghost v = self@.jobs;
        let mut i: usize = 0;
        while i < self.jobs.len()
            invariant
                i <= self.jobs.len(),
                v == job_views(self.jobs@),
                v == old(self)@.jobs,
                self@ == old(self)@,
                forall|k: int| 0 <= k < i ==> !is_status(JobStatus::Queued)(#[trigger] v[k]),
            decreases self.jobs.len() - i,
        {
            assert(v[i as int] == self.jobs@[i as int]@);
            if self.jobs[i].status == JobStatus::Queued {
                proof {
                    lemma_first_where_scan(v, is_status(JobStatus::Queued), i as int);
                }
                self.clear_cancel();
                self.request_resume();
                let mut job = self.jobs.remove(i);
                job.status = JobStatus::Running;
                job.error = None;
                self.jobs.insert(i, job);
                assert(job_views(self.jobs@) == v.update(
                    i as int,
                    JobView { status: JobStatus::Running, error: None, ..v[i as int] },
                ));
                proof {
                    let w = self@;
                    if old(self)@.wf() {
                        assert forall|a: int| 0 <= a < w.jobs.len() implies #[trigger] w.jobs[a].id
                            < w.next_id by {
                            assert(w.jobs[a].id == v[a].id);
                        }
                        assert forall|a: int, b: int|
                            0 <= a < b < w.jobs.len() implies #[trigger] w.jobs[a].id
                            != #[trigger] w.jobs[b].id by {
                            assert(w.jobs[a].id == v[a].id);
                            assert(w.jobs[b].id == v[b].id);
                        }
                    }
                }
                return Some(i);
            }
            i += 1;
        }
        proof {
            lemma_first_where_scan(v, is_status(JobStatus::Queued), i as int);
        }
        None
    }

    /// The options to download job `idx` with: the queue's connection count,
    /// its shared cancel and pause flags, and the job's id.
    pub fn download_options(&self, idx: usize) -> (r: DownloadOptions)
        requires
            idx < self@.jobs.len(),
        ensures
            r.connections == self@.connections,
            r.job_id == self@.jobs[idx as int].id,
            r.cancel == self.cancel_flag(),
            r.pause == self.pause_flag(),
    {
        assert(self@.jobs[idx as int] == self.jobs@[idx as int]@);
        DownloadOptions {
            connections: self.connections,
            cancel: share_flag(&self.cancel),
            pause: share_flag(&self.pause),
            job_id: self.jobs[idx].id,
        }
    }

    /// Second half of running the next job: records how the download of job
    /// `idx` ended. A cancelled run still counts as a run (`Ok(true)`); any
    /// other error is handed back.
    pub fn finish_job(&mut self, idx: usize, outcome: Result<String>) -> (r: Result<bool>)
        requires
            idx < old(self)@.jobs.len(),
        ensures
            final(self)@ == (QueueView {
                jobs: old(self)@.jobs.update(
                    idx as int,
                    finished_job(old(self)@.jobs[idx as int], outcome_view(outcome)),
                ),
                ..old(self)@
            }),
            match outcome {
                Ok(_) => r matches Ok(b) && b,
                Err(JunkError::Cancelled) => r matches Ok(b) && b,
                Err(e) => r matches Err(e2) && e2@ == e@,
            },
            outcome matches Ok(p) ==> (final(self)@.jobs[idx as int].status == JobStatus::Done
                && final(self)@.jobs[idx as int].dest_path == p@),
            outcome matches Err(e) ==> (final(self)@.jobs[idx as int].status
                == JobStatus::Cancelled <==> e is Cancelled),
            outcome matches Err(e) ==> (!(e is Cancelled) ==> (final(self)@.jobs[idx as int].status
                == JobStatus::Failed && final(self)@.jobs[idx as int].error == Some(
                error_message(e@),
            ))),
            old(self)@.wf() ==> final(self)@.wf(),
    {
        let ghost v = self@.jobs;
        let ghost ov = outcome_view(outcome);
        let mut job = self.jobs.remove(idx);
        assert(job@ == v[idx as int]);
        let r = match outcome {
            Ok(path) => {
                job.dest_path = path;
                job.status = JobStatus::Done;
                job.bytes_done = if job.bytes_total > 1 {
                    job.bytes_total
                } else {
                    1
                };
                Ok(true)
            },
            Err(JunkError::Cancelled) => {
                job.status = JobStatus::Cancelled;
                Ok(true)
            },
            Err(e) => {
                job.status = JobStatus::Failed;
                job.error = Some(e.message());
                Err(e)
            },
        };
        assert(job@ == finished_job(v[idx as int], ov));
        self.jobs.insert(idx, job);
        assert(job_views(self.jobs@) == v.update(idx as int, finished_job(v[idx as int], ov)));
        proof {
            let w = self@;
            if old(self)@.wf() {
                assert forall|a: int| 0 <= a < w.jobs.len() implies #[trigger] w.jobs[a].id
                    < w.next_id by {
                    assert(w.jobs[a].id == v[a].id);
                }
                assert forall|a: int, b: int|
                    0 <= a < b < w.jobs.len() implies #[trigger] w.jobs[a].id
                    != #[trigger] w.jobs[b].id by {
                    assert(w.jobs[a].id == v[a].id);
                    assert(w.jobs[b].id == v[b].id);
                }
            }
        }
        r
    }
}

} // verus!
