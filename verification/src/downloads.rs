//! Album downloads: the queue of download jobs with its bounded history, the progress
//! reports of a transfer, and the error messages a client sees.
use vstd::prelude::*;

use crate::clock::{current_year, is_id_char, new_id, now_micros};
use crate::filesystem::{album_location, album_location_spec};
use crate::text::{push_char, str_equal};
use vstd::string::StringExecFns;

verus! {

/// How many finished jobs the history keeps.
pub const HISTORY_LIMIT: usize = 100;

/// Progress is reported each time it has grown by this many percentage points.
pub const DOWNLOAD_PROGRESS_PERCENT_INTERVAL: u64 = 5;

/// Where a download job stands.
#[derive(Clone, Copy, Debug, PartialEq, Eq, Structural)]
pub enum JobStatus {
    Queued,
    Running,
    Succeeded,
    Failed,
    Cancelled,
}

/// The status a client sees.
#[derive(Clone, Copy, Debug, PartialEq, Eq, Structural)]
pub enum DownloadJobStatus {
    Queued,
    Running,
    Succeeded,
    Failed,
    Cancelled,
}

impl DownloadJobStatus {
    /// The client's name for each status is the queue's.
    pub fn from(status: JobStatus) -> (r: DownloadJobStatus)
        ensures
            r == match status {
                JobStatus::Queued => DownloadJobStatus::Queued,
                JobStatus::Running => DownloadJobStatus::Running,
                JobStatus::Succeeded => DownloadJobStatus::Succeeded,
                JobStatus::Failed => DownloadJobStatus::Failed,
                JobStatus::Cancelled => DownloadJobStatus::Cancelled,
            },
    {
        match status {
            JobStatus::Queued => DownloadJobStatus::Queued,
            JobStatus::Running => DownloadJobStatus::Running,
            JobStatus::Succeeded => DownloadJobStatus::Succeeded,
            JobStatus::Failed => DownloadJobStatus::Failed,
            JobStatus::Cancelled => DownloadJobStatus::Cancelled,
        }
    }
}

/// A download job; times are microseconds since the Unix epoch.
#[derive(Debug, PartialEq, Eq)]
pub struct JobRecord {
    pub id: String,
    pub album_id: String,
    pub status: JobStatus,
    pub enqueued_at: i64,
    pub started_at: Option<i64>,
    pub finished_at: Option<i64>,
    pub failure_reason: Option<String>,
}

pub struct JobView {
    pub id: Seq<char>,
    pub album_id: Seq<char>,
    pub status: JobStatus,
    pub enqueued_at: i64,
    pub started_at: Option<i64>,
    pub finished_at: Option<i64>,
    pub failure_reason: Option<Seq<char>>,
}

pub open spec fn opt_text(o: Option<String>) -> Option<Seq<char>> {
    match o {
        Some(s) => Some(s@),
        None => None,
    }
}

impl View for JobRecord {
    type V = JobView;

    open spec fn view(&self) -> JobView {
        JobView {
            id: self.id@,
            album_id: self.album_id@,
            status: self.status,
            enqueued_at: self.enqueued_at,
            started_at: self.started_at,
            finished_at: self.finished_at,
            failure_reason: opt_text(self.failure_reason),
        }
    }
}

pub open spec fn job_views(s: Seq<JobRecord>) -> Seq<JobView> {
    s.map_values(|j: JobRecord| j@)
}

impl JobRecord {
    pub fn copy(&self) -> (r: JobRecord)
        ensures
            r@ == self@,
    {
        JobRecord {
            id: self.id.clone(),
            album_id: self.album_id.clone(),
            status: self.status,
            enqueued_at: self.enqueued_at,
            started_at: self.started_at,
            finished_at: self.finished_at,
            failure_reason: match &self.failure_reason {
                Some(r) => Some(r.clone()),
                None => None,
            },
        }
    }
}

fn copy_jobs(jobs: &Vec<JobRecord>) -> (r: Vec<JobRecord>)
    ensures
        job_views(r@) == job_views(jobs@),
{
    let mut r: Vec<JobRecord> = Vec::new();
    let mut i: usize = 0;
    while i < jobs.len()
        invariant
            i <= jobs@.len(),
            job_views(r@) == job_views(jobs@.take(i as int)),
        decreases jobs.len() - i,
    {
        let ghost before = r@;
        let j = jobs[i].copy();
        r.push(j);
        assert(jobs@.take(i + 1) =~= jobs@.take(i as int).push(jobs@[i as int]));
        assert(job_views(r@) =~= job_views(before).push(j@));
        assert(job_views(r@) =~= job_views(jobs@.take(i + 1)));
        i = i + 1;
    }
    assert(jobs@.take(jobs@.len() as int) =~= jobs@);
    r
}

/// Why a job could not be queued.
#[derive(Clone, Copy, Debug, PartialEq, Eq, Structural)]
pub enum QueueError {
    WorkerStopped,
}

impl QueueError {
    pub fn message(&self) -> (r: &'static str)
        ensures
            r@ == "download worker is not running"@,
    {
        "download worker is not running"
    }
}

/// Why a job could not be cancelled.
#[derive(Clone, Copy, Debug, PartialEq, Eq, Structural)]
pub enum CancelError {
    NotFound,
    Running,
}

/// The jobs that have not finished, in the order they were queued, and the finished ones,
/// newest first.
pub struct QueueState {
    pub active: Vec<JobRecord>,
    pub history: Vec<JobRecord>,
}

/// No two active jobs are for the same album, and the history holds at most
/// `HISTORY_LIMIT` jobs.
#[verifier::opaque]
pub open spec fn queue_wf(active: Seq<JobView>, history: Seq<JobView>) -> bool {
    &&& history.len() <= HISTORY_LIMIT
    &&& forall|i: int, j: int|
        0 <= i < j < active.len() ==> (#[trigger] active[i]).album_id != (#[trigger] active[j]).album_id
}

/// The index of the active job for an album, if any.
pub open spec fn job_for_album(active: Seq<JobView>, album_id: Seq<char>) -> Option<int> {
    if exists|i: int| 0 <= i < active.len() && (#[trigger] active[i]).album_id == album_id {
        Some(choose|i: int| 0 <= i < active.len() && (#[trigger] active[i]).album_id == album_id)
    } else {
        None
    }
}

/// The index of the first active job with an id, if any.
pub open spec fn first_with_id(active: Seq<JobView>, id: Seq<char>) -> Option<int> {
    if exists|i: int|
        0 <= i < active.len() && (#[trigger] active[i]).id == id && forall|j: int|
            0 <= j < i ==> (#[trigger] active[j]).id != id {
        Some(
            choose|i: int|
                0 <= i < active.len() && (#[trigger] active[i]).id == id && forall|j: int|
                    0 <= j < i ==> (#[trigger] active[j]).id != id,
        )
    } else {
        None
    }
}

/// A finished job joins the history at the front, and the oldest beyond the limit leave.
pub open spec fn with_finished(history: Seq<JobView>, job: JobView) -> Seq<JobView> {
    let h = seq![job] + history;
    if h.len() > HISTORY_LIMIT {
        h.take(HISTORY_LIMIT as int)
    } else {
        h
    }
}

/// A job once it started running at `now`.
pub open spec fn started_view(job: JobView, now: i64) -> JobView {
    JobView { status: JobStatus::Running, started_at: Some(now), ..job }
}

pub open spec fn finished_view(
    job: JobView,
    status: JobStatus,
    failure_reason: Option<Seq<char>>,
    now: i64,
) -> JobView {
    JobView { status, finished_at: Some(now), failure_reason, ..job }
}

proof fn lemma_first_with_id(active: Seq<JobView>, id: Seq<char>, k: int)
    requires
        0 <= k < active.len(),
        active[k].id == id,
        forall|j: int| 0 <= j < k ==> (#[trigger] active[j]).id != id,
    ensures
        first_with_id(active, id) == Some(k),
{
    let c = choose|i: int|
        0 <= i < active.len() && (#[trigger] active[i]).id == id && forall|j: int|
            0 <= j < i ==> (#[trigger] active[j]).id != id;
    assert(0 <= k < active.len() && active[k].id == id && forall|j: int|
        0 <= j < k ==> (#[trigger] active[j]).id != id);
    if c < k {
        assert(active[c].id != id);
    } else if c > k {
        assert(active[k].id != id);
    }
}

impl QueueState {
    pub fn new() -> (r: QueueState)
        ensures
            r.active@.len() == 0,
            r.history@.len() == 0,
    {
        QueueState { active: Vec::new(), history: Vec::new() }
    }

    /// Moves the active job at `index` to the front of the history with its final status,
    /// keeping at most `HISTORY_LIMIT` jobs there.
    pub fn finish_at(
        &mut self,
        index: usize,
        status: JobStatus,
        failure_reason: Option<String>,
        now: i64,
    )
        requires
            index < old(self).active@.len(),
            old(self).history@.len() <= HISTORY_LIMIT,
        ensures
            job_views(final(self).active@) == job_views(old(self).active@).remove(index as int),
            job_views(final(self).history@) == with_finished(
                job_views(old(self).history@),
                finished_view(old(self).active@[index as int]@, status, opt_text(failure_reason), now),
            ),
            final(self).history@.len() <= HISTORY_LIMIT,
    {
        let ghost old_active = self.active@;
        let ghost old_history = self.history@;
        let mut job = self.active.remove(index);
        job.status = status;
        job.finished_at = Some(now);
        job.failure_reason = failure_reason;
        let ghost finished = job@;
        self.history.insert(0, job);
        let ghost inserted = self.history@;
        assert(job_views(inserted) =~= seq![finished] + job_views(old_history));
        if self.history.len() > HISTORY_LIMIT {
            self.history.truncate(HISTORY_LIMIT);
            assert(job_views(self.history@) =~= job_views(inserted).take(HISTORY_LIMIT as int));
        }
        assert(job_views(self.active@) =~= job_views(old_active).remove(index as int));
    }

    /// The index of the active job for an album.
    fn position_of_album(&self, album_id: &str) -> (r: Option<usize>)
        ensures
            match r {
                Some(i) => i < self.active@.len() && self.active@[i as int].album_id@ == album_id@,
                None => forall|i: int|
                    0 <= i < self.active@.len() ==> (#[trigger] self.active@[i]).album_id@ != album_id@,
            },
    {
        let mut i: usize = 0;
        while i < self.active.len()
            invariant
                i <= self.active@.len(),
                forall|j: int| 0 <= j < i ==> (#[trigger] self.active@[j]).album_id@ != album_id@,
            decreases self.active.len() - i,
        {
            if str_equal(self.active[i].album_id.as_str(), album_id) {
                return Some(i);
            }
            i = i + 1;
        }
        None
    }

    /// The index of the first active job with an id.
    fn position_of_id(&self, id: &str) -> (r: Option<usize>)
        ensures
            match r {
                Some(i) => first_with_id(job_views(self.active@), id@) == Some(i as int) && i
                    < self.active@.len(),
                None => first_with_id(job_views(self.active@), id@) is None,
            },
    {
        let ghost v = job_views(self.active@);
        let mut i: usize = 0;
        while i < self.active.len()
            invariant
                i <= self.active@.len(),
                v == job_views(self.active@),
                forall|j: int| 0 <= j < i ==> (#[trigger] v[j]).id != id@,
            decreases self.active.len() - i,
        {
            if str_equal(self.active[i].id.as_str(), id) {
                proof {
                    lemma_first_with_id(v, id@, i as int);
                }
                return Some(i);
            }
            i = i + 1;
        }
        assert(!exists|i: int| 0 <= i < v.len() && (#[trigger] v[i]).id == id@);
        None
    }

    /// The index of the first queued active job with an id.
    fn position_of_queued(&self, id: &str) -> (r: Option<usize>)
        ensures
            match r {
                Some(i) => first_queued_with_id(job_views(self.active@), id@) == Some(i as int) && i
                    < self.active@.len(),
                None => first_queued_with_id(job_views(self.active@), id@) is None,
            },
    {
        let ghost v = job_views(self.active@);
        let mut i: usize = 0;
        while i < self.active.len()
            invariant
                i <= self.active@.len(),
                v == job_views(self.active@),
                forall|j: int| 0 <= j < i ==> (#[trigger] v[j]).id != id@ || v[j].status != JobStatus::Queued,
            decreases self.active.len() - i,
        {
            if self.active[i].status == JobStatus::Queued && str_equal(self.active[i].id.as_str(), id) {
                proof {
                    lemma_first_queued(v, id@, i as int);
                }
                return Some(i);
            }
            i = i + 1;
        }
        assert(!exists|k: int| 0 <= k < v.len() && (#[trigger] v[k]).id == id@ && v[k].status == JobStatus::Queued);
        None
    }

    /// Queues a download of an album with the given id and time, unless a job for the album
    /// is already active, which is then returned instead; says whether a job was added.
    pub fn enqueue_with(&mut self, album_id: String, id: String, now: i64) -> (r: (JobRecord, bool))
        requires
            queue_wf(job_views(old(self).active@), job_views(old(self).history@)),
        ensures
            queue_wf(job_views(final(self).active@), job_views(final(self).history@)),
            job_views(final(self).history@) == job_views(old(self).history@),
            match job_for_album(job_views(old(self).active@), album_id@) {
                Some(k) => !r.1 && r.0@ == job_views(old(self).active@)[k] && job_views(
                    final(self).active@,
                ) == job_views(old(self).active@),
                None => r.1 && r.0@ == (JobView {
                    id: id@,
                    album_id: album_id@,
                    status: JobStatus::Queued,
                    enqueued_at: now,
                    started_at: None,
                    finished_at: None,
                    failure_reason: None,
                }) && job_views(final(self).active@) == job_views(old(self).active@).push(r.0@),
            },
    {
        reveal(queue_wf);
        let ghost v = job_views(self.active@);
        match self.position_of_album(album_id.as_str()) {
            Some(i) => {
                proof {
                    assert(v[i as int].album_id == album_id@);
                    let k = choose|k: int| 0 <= k < v.len() && (#[trigger] v[k]).album_id == album_id@;
                    if k != i as int {
                        if k < i as int {
                            assert(v[k].album_id != v[i as int].album_id);
                        } else {
                            assert(v[i as int].album_id != v[k].album_id);
                        }
                    }
                }
                (self.active[i].copy(), false)
            },
            None => {
                proof {
                    assert forall|k: int| 0 <= k < v.len() implies (#[trigger] v[k]).album_id != album_id@ by {
                        assert(v[k] == self.active@[k]@);
                    }
                }
                let record = JobRecord {
                    id,
                    album_id,
                    status: JobStatus::Queued,
                    enqueued_at: now,
                    started_at: None,
                    finished_at: None,
                    failure_reason: None,
                };
                let copy = record.copy();
                self.active.push(record);
                assert(job_views(self.active@) =~= v.push(copy@));
                (copy, true)
            },
        }
    }

    /// Queues a download of an album under a fresh id and the current time, unless a job
    /// for the album is already active.
    pub fn enqueue(&mut self, album_id: String) -> (r: (JobRecord, bool))
        requires
            queue_wf(job_views(old(self).active@), job_views(old(self).history@)),
        ensures
            queue_wf(job_views(final(self).active@), job_views(final(self).history@)),
            job_views(final(self).history@) == job_views(old(self).history@),
            match job_for_album(job_views(old(self).active@), album_id@) {
                Some(k) => !r.1 && r.0@ == job_views(old(self).active@)[k] && job_views(
                    final(self).active@,
                ) == job_views(old(self).active@),
                None => r.1 && r.0@.album_id == album_id@ && r.0@.status == JobStatus::Queued
                    && r.0@.started_at is None && r.0@.finished_at is None
                    && r.0@.failure_reason is None && r.0@.id.len() == 21 && (forall|i: int|
                    0 <= i < 21 ==> is_id_char(#[trigger] r.0@.id[i])) && job_views(
                    final(self).active@,
                ) == job_views(old(self).active@).push(r.0@),
            },
    {
        let id = new_id();
        let now = now_micros();
        self.enqueue_with(album_id, id, now)
    }

    /// Takes back a job whose id could not be handed to the worker: every active job with
    /// that id leaves.
    pub fn withdraw(&mut self, id: &str)
        requires
            queue_wf(job_views(old(self).active@), job_views(old(self).history@)),
        ensures
            queue_wf(job_views(final(self).active@), job_views(final(self).history@)),
            job_views(final(self).active@) == job_views(old(self).active@).filter(
                |j: JobView| j.id != id@,
            ),
            job_views(final(self).history@) == job_views(old(self).history@),
    {
        reveal(queue_wf);
        let ghost v = job_views(self.active@);
        let mut kept: Vec<JobRecord> = Vec::new();
        let mut rest: Vec<JobRecord> = Vec::new();
        std::mem::swap(&mut rest, &mut self.active);
        let ghost all = rest@;
        let mut rev: Vec<JobRecord> = Vec::new();
        let n = rest.len();
        while rest.len() > 0
            invariant
                rest@.len() + rev@.len() == n,
                all.len() == n,
                forall|j: int| 0 <= j < rest@.len() ==> #[trigger] rest@[j] == all[j],
                forall|j: int| 0 <= j < rev@.len() ==> #[trigger] rev@[j] == all[n - 1 - j],
            decreases rest.len(),
        {
            let x = rest.pop().unwrap();
            rev.push(x);
        }
        let mut i: usize = 0;
        let ghost mut idx: Seq<int> = Seq::empty();
        while i < n
            invariant
                i <= n,
                all.len() == n,
                v == job_views(all),
                queue_wf(v, job_views(self.history@)),
                rev@.len() == n - i,
                forall|j: int| 0 <= j < rev@.len() ==> #[trigger] rev@[j] == all[n - 1 - j],
                job_views(kept@) == job_views(all.take(i as int)).filter(|j: JobView| j.id != id@),
                idx.len() == kept@.len(),
                forall|a: int| 0 <= a < idx.len() ==> 0 <= #[trigger] idx[a] < i && kept@[a] == all[idx[a]],
                forall|a: int, b: int| 0 <= a < b < idx.len() ==> #[trigger] idx[a] < #[trigger] idx[b],
            decreases n - i,
        {
            let x = rev.pop().unwrap();
            assert(x == all[i as int]);
            let ghost before = kept@;
            proof {
                assert(job_views(all.take(i + 1)) =~= job_views(all.take(i as int)).push(x@));
                job_views(all.take(i as int)).lemma_filter_push(x@, |j: JobView| j.id != id@);
            }
            if !str_equal(x.id.as_str(), id) {
                kept.push(x);
                proof {
                    idx = idx.push(i as int);
                }
                assert(job_views(kept@) =~= job_views(before).push(x@));
            }
            i = i + 1;
        }
        assert(all.take(n as int) =~= all);
        proof {
            let kv = job_views(kept@);
            assert forall|p: int, q: int| 0 <= p < q < kv.len() implies (#[trigger] kv[p]).album_id
                != (#[trigger] kv[q]).album_id by {
                assert(idx[p] < idx[q]);
                assert(kv[p] == v[idx[p]]);
                assert(kv[q] == v[idx[q]]);
            }
        }
        self.active = kept;
    }
}


impl QueueState {
    /// Copies of the active jobs and of the history.
    pub fn snapshot(&self) -> (r: (Vec<JobRecord>, Vec<JobRecord>))
        ensures
            job_views(r.0@) == job_views(self.active@),
            job_views(r.1@) == job_views(self.history@),
    {
        (copy_jobs(&self.active), copy_jobs(&self.history))
    }

    /// Cancels a job that is still queued, moving it to the history at `now`; an unknown
    /// job is not found, and one that has started cannot be cancelled.
    pub fn cancel_with(&mut self, id: &str, now: i64) -> (r: Result<JobRecord, CancelError>)
        requires
            queue_wf(job_views(old(self).active@), job_views(old(self).history@)),
        ensures
            queue_wf(job_views(final(self).active@), job_views(final(self).history@)),
            match first_with_id(job_views(old(self).active@), id@) {
                None => r == Err::<JobRecord, CancelError>(CancelError::NotFound) && job_views(
                    final(self).active@,
                ) == job_views(old(self).active@) && job_views(final(self).history@) == job_views(
                    old(self).history@,
                ),
                Some(k) => if job_views(old(self).active@)[k].status != JobStatus::Queued {
                    r == Err::<JobRecord, CancelError>(CancelError::Running) && job_views(
                        final(self).active@,
                    ) == job_views(old(self).active@) && job_views(final(self).history@)
                        == job_views(old(self).history@)
                } else {
                    let done = finished_view(
                        job_views(old(self).active@)[k],
                        JobStatus::Cancelled,
                        None,
                        now,
                    );
                    r matches Ok(job) && job@ == done && job_views(final(self).active@)
                        == job_views(old(self).active@).remove(k) && job_views(final(self).history@)
                        == with_finished(job_views(old(self).history@), done)
                },
            },
    {
        match self.position_of_id(id) {
            None => Err(CancelError::NotFound),
            Some(i) => {
                if self.active[i].status != JobStatus::Queued {
                    return Err(CancelError::Running);
                }
                let ghost old_active = job_views(self.active@);
                let ghost old_history = job_views(self.history@);
                proof {
                    reveal(queue_wf);
                }
                self.finish_at(i, JobStatus::Cancelled, None, now);
                proof {
                    lemma_remove_keeps_wf(old_active, old_history, i as int, job_views(self.history@));
                    let done = finished_view(old_active[i as int], JobStatus::Cancelled, None, now);
                    assert((seq![done] + old_history)[0] == done);
                    assert(job_views(self.history@)[0] == done);
                    assert(self.history@[0]@ == done);
                }
                Ok(self.history[0].copy())
            },
        }
    }

    /// Cancels a queued job at the current time.
    pub fn cancel(&mut self, id: &str) -> (r: Result<JobRecord, CancelError>)
        requires
            queue_wf(job_views(old(self).active@), job_views(old(self).history@)),
        ensures
            queue_wf(job_views(final(self).active@), job_views(final(self).history@)),
            match first_with_id(job_views(old(self).active@), id@) {
                None => r == Err::<JobRecord, CancelError>(CancelError::NotFound) && job_views(
                    final(self).active@,
                ) == job_views(old(self).active@) && job_views(final(self).history@) == job_views(
                    old(self).history@,
                ),
                Some(k) => if job_views(old(self).active@)[k].status != JobStatus::Queued {
                    r == Err::<JobRecord, CancelError>(CancelError::Running) && job_views(
                        final(self).active@,
                    ) == job_views(old(self).active@) && job_views(final(self).history@)
                        == job_views(old(self).history@)
                } else {
                    exists|now: i64|
                        {
                            let done = #[trigger] finished_view(
                                job_views(old(self).active@)[k],
                                JobStatus::Cancelled,
                                None,
                                now,
                            );
                            r matches Ok(job) && job@ == done && job_views(final(self).active@)
                                == job_views(old(self).active@).remove(k) && job_views(
                                final(self).history@,
                            ) == with_finished(job_views(old(self).history@), done)
                        }
                },
            },
    {
        let now = now_micros();
        let r = self.cancel_with(id, now);
        proof {
            if let Some(k) = first_with_id(job_views(old(self).active@), id@) {
                let _ = finished_view(job_views(old(self).active@)[k], JobStatus::Cancelled, None, now);
            }
        }
        r
    }

    /// Marks a queued job as running from `now` and returns it; a job that is not queued
    /// any more (cancelled meanwhile) is not started.
    pub fn mark_running_with(&mut self, id: &str, now: i64) -> (r: Option<JobRecord>)
        requires
            queue_wf(job_views(old(self).active@), job_views(old(self).history@)),
        ensures
            queue_wf(job_views(final(self).active@), job_views(final(self).history@)),
            job_views(final(self).history@) == job_views(old(self).history@),
            match first_queued_with_id(job_views(old(self).active@), id@) {
                None => r is None && job_views(final(self).active@) == job_views(old(self).active@),
                Some(k) => {
                    let started = JobView {
                        status: JobStatus::Running,
                        started_at: Some(now),
                        ..job_views(old(self).active@)[k]
                    };
                    r matches Some(job) && job@ == started && job_views(final(self).active@)
                        == job_views(old(self).active@).update(k, started)
                },
            },
    {
        let ghost v = job_views(self.active@);
        match self.position_of_queued(id) {
            None => None,
            Some(i) => {
                let mut job = self.active.remove(i);
                job.status = JobStatus::Running;
                job.started_at = Some(now);
                let copy = job.copy();
                self.active.insert(i, job);
                assert(job_views(self.active@) =~= v.update(i as int, copy@));
                proof {
                    lemma_update_keeps_wf(v, job_views(self.history@), i as int, copy@);
                }
                Some(copy)
            },
        }
    }

    /// Marks a queued job as running from the current time.
    pub fn mark_running(&mut self, id: &str) -> (r: Option<JobRecord>)
        requires
            queue_wf(job_views(old(self).active@), job_views(old(self).history@)),
        ensures
            queue_wf(job_views(final(self).active@), job_views(final(self).history@)),
            job_views(final(self).history@) == job_views(old(self).history@),
            match first_queued_with_id(job_views(old(self).active@), id@) {
                None => r is None && job_views(final(self).active@) == job_views(old(self).active@),
                Some(k) => exists|now: i64|
                    {
                        let started = #[trigger] started_view(job_views(old(self).active@)[k], now);
                        r matches Some(job) && job@ == started && job_views(final(self).active@)
                            == job_views(old(self).active@).update(k, started)
                    },
            },
    {
        let now = now_micros();
        let r = self.mark_running_with(id, now);
        proof {
            if let Some(k) = first_queued_with_id(job_views(old(self).active@), id@) {
                let _ = started_view(job_views(old(self).active@)[k], now);
            }
        }
        r
    }

    /// Ends the first active job with an id, at `now`; an unknown id changes nothing.
    pub fn finish_with(&mut self, id: &str, status: JobStatus, failure_reason: Option<String>, now: i64)
        requires
            queue_wf(job_views(old(self).active@), job_views(old(self).history@)),
        ensures
            queue_wf(job_views(final(self).active@), job_views(final(self).history@)),
            match first_with_id(job_views(old(self).active@), id@) {
                None => job_views(final(self).active@) == job_views(old(self).active@) && job_views(
                    final(self).history@,
                ) == job_views(old(self).history@),
                Some(k) => job_views(final(self).active@) == job_views(old(self).active@).remove(k)
                    && job_views(final(self).history@) == with_finished(
                    job_views(old(self).history@),
                    finished_view(job_views(old(self).active@)[k], status, opt_text(failure_reason), now),
                ),
            },
    {
        match self.position_of_id(id) {
            None => {},
            Some(i) => {
                let ghost old_active = job_views(self.active@);
                let ghost old_history = job_views(self.history@);
                proof {
                    reveal(queue_wf);
                }
                self.finish_at(i, status, failure_reason, now);
                proof {
                    lemma_remove_keeps_wf(old_active, old_history, i as int, job_views(self.history@));
                }
            },
        }
    }

    /// Ends the first active job with an id at the current time.
    pub fn finish(&mut self, id: &str, status: JobStatus, failure_reason: Option<String>)
        requires
            queue_wf(job_views(old(self).active@), job_views(old(self).history@)),
        ensures
            queue_wf(job_views(final(self).active@), job_views(final(self).history@)),
            match first_with_id(job_views(old(self).active@), id@) {
                None => job_views(final(self).active@) == job_views(old(self).active@) && job_views(
                    final(self).history@,
                ) == job_views(old(self).history@),
                Some(k) => job_views(final(self).active@) == job_views(old(self).active@).remove(k)
                    && exists|now: i64|
                    job_views(final(self).history@) == with_finished(
                        job_views(old(self).history@),
                        #[trigger] finished_view(job_views(old(self).active@)[k], status, opt_text(failure_reason), now),
                    ),
            },
    {
        let ghost reason = opt_text(failure_reason);
        let now = now_micros();
        self.finish_with(id, status, failure_reason, now);
        proof {
            if let Some(k) = first_with_id(job_views(old(self).active@), id@) {
                let _ = finished_view(job_views(old(self).active@)[k], status, reason, now);
            }
        }
    }
}

/// The index of the first queued active job with an id, if any.
pub open spec fn first_queued_with_id(active: Seq<JobView>, id: Seq<char>) -> Option<int> {
    if exists|i: int|
        0 <= i < active.len() && (#[trigger] active[i]).id == id && active[i].status
            == JobStatus::Queued && forall|j: int|
            0 <= j < i ==> !((#[trigger] active[j]).id == id && active[j].status
                == JobStatus::Queued) {
        Some(
            choose|i: int|
                0 <= i < active.len() && (#[trigger] active[i]).id == id && active[i].status
                    == JobStatus::Queued && forall|j: int|
                    0 <= j < i ==> !((#[trigger] active[j]).id == id && active[j].status
                        == JobStatus::Queued),
        )
    } else {
        None
    }
}

proof fn lemma_first_queued(active: Seq<JobView>, id: Seq<char>, k: int)
    requires
        0 <= k < active.len(),
        active[k].id == id,
        active[k].status == JobStatus::Queued,
        forall|j: int| 0 <= j < k ==> (#[trigger] active[j]).id != id || active[j].status != JobStatus::Queued,
    ensures
        first_queued_with_id(active, id) == Some(k),
{
    let c = choose|i: int|
        0 <= i < active.len() && (#[trigger] active[i]).id == id && active[i].status
            == JobStatus::Queued && forall|j: int|
            0 <= j < i ==> !((#[trigger] active[j]).id == id && active[j].status == JobStatus::Queued);
    assert(0 <= k < active.len() && active[k].id == id && active[k].status == JobStatus::Queued
        && forall|j: int| 0 <= j < k ==> !((#[trigger] active[j]).id == id && active[j].status == JobStatus::Queued));
    if c < k {
        assert(!(active[c].id == id && active[c].status == JobStatus::Queued));
    } else if c > k {
        assert(!(active[k].id == id && active[k].status == JobStatus::Queued));
    }
}

proof fn lemma_remove_keeps_wf(active: Seq<JobView>, history: Seq<JobView>, k: int, h2: Seq<JobView>)
    requires
        0 <= k < active.len(),
        queue_wf(active, history),
        h2.len() <= HISTORY_LIMIT,
    ensures
        queue_wf(active.remove(k), h2),
{
    reveal(queue_wf);
    let r = active.remove(k);
    assert forall|i: int, j: int| 0 <= i < j < r.len() implies (#[trigger] r[i]).album_id != (#[trigger] r[j]).album_id by {
        let a = if i < k { i } else { i + 1 };
        let b = if j < k { j } else { j + 1 };
        assert(r[i] == active[a]);
        assert(r[j] == active[b]);
    }
}

proof fn lemma_update_keeps_wf(active: Seq<JobView>, history: Seq<JobView>, k: int, job: JobView)
    requires
        0 <= k < active.len(),
        queue_wf(active, history),
        job.album_id == active[k].album_id,
    ensures
        queue_wf(active.update(k, job), history),
{
    reveal(queue_wf);
    let r = active.update(k, job);
    assert forall|i: int, j: int| 0 <= i < j < r.len() implies (#[trigger] r[i]).album_id != (#[trigger] r[j]).album_id by {
        assert(r[i].album_id == active[i].album_id);
        assert(r[j].album_id == active[j].album_id);
    }
}


/// `n * 100`, saturating at `u64::MAX`.
pub open spec fn saturating_hundredfold(n: u64) -> int {
    if n * 100 > u64::MAX {
        u64::MAX as int
    } else {
        n * 100
    }
}

/// The share of `total` bytes that `downloaded` bytes make, in whole percent, at most 100;
/// computed as `downloaded * 100 / total` with saturating multiplication.
pub open spec fn percent_of(downloaded: u64, total: u64) -> u64 {
    let p = if total == 0 {
        0
    } else {
        saturating_hundredfold(downloaded) / (total as int)
    };
    if p > 100 {
        100
    } else {
        p as u64
    }
}

/// How much of a transfer has arrived, and the percentage last reported.
pub struct DownloadProgress {
    pub total_bytes: Option<u64>,
    pub downloaded_bytes: u64,
    pub last_reported_percentage: u64,
}

impl DownloadProgress {
    /// A reported percentage never exceeds 100, and a known total is never zero.
    pub open spec fn wf(&self) -> bool {
        &&& self.last_reported_percentage <= 100
        &&& self.total_bytes != Some(0u64)
    }

    /// A transfer of `total_bytes`, when the length is known; a zero length counts as
    /// unknown.
    pub fn new(total_bytes: Option<u64>) -> (r: DownloadProgress)
        ensures
            r.wf(),
            r.total_bytes == (match total_bytes {
                Some(t) => if t > 0 {
                    Some(t)
                } else {
                    None
                },
                None => None,
            }),
            r.downloaded_bytes == 0,
            r.last_reported_percentage == 0,
    {
        let total = match total_bytes {
            Some(t) => if t > 0 {
                Some(t)
            } else {
                None
            },
            None => None,
        };
        DownloadProgress { total_bytes: total, downloaded_bytes: 0, last_reported_percentage: 0 }
    }

    /// The percentage arrived, when the length is known.
    pub fn percentage(&self) -> (r: Option<u64>)
        ensures
            r == (match self.total_bytes {
                Some(t) => Some(percent_of(self.downloaded_bytes, t)),
                None => None,
            }),
            r matches Some(p) ==> p <= 100,
    {
        match self.total_bytes {
            None => None,
            Some(total) => {
                let scaled: u64 = if self.downloaded_bytes > u64::MAX / 100 {
                    u64::MAX
                } else {
                    self.downloaded_bytes * 100
                };
                proof {
                    if self.downloaded_bytes > u64::MAX / 100 {
                        assert(self.downloaded_bytes * 100 > u64::MAX) by (nonlinear_arith)
                            requires self.downloaded_bytes > u64::MAX / 100;
                    } else {
                        assert(self.downloaded_bytes * 100 <= u64::MAX) by (nonlinear_arith)
                            requires self.downloaded_bytes <= u64::MAX / 100;
                    }
                }
                let p = if total == 0 {
                    0
                } else {
                    scaled / total
                };
                Some(if p > 100 {
                    100
                } else {
                    p
                })
            },
        }
    }

    /// Counts a chunk that arrived and says whether to report progress: when the length
    /// is known, each time the percentage has grown by the interval since the last report,
    /// and whenever all bytes have arrived.
    pub fn advance(&mut self, chunk_size: usize) -> (report: bool)
        requires
            old(self).wf(),
        ensures
            final(self).wf(),
            final(self).total_bytes == old(self).total_bytes,
            final(self).downloaded_bytes == (if old(self).downloaded_bytes + chunk_size > u64::MAX {
                u64::MAX as int
            } else {
                old(self).downloaded_bytes + chunk_size
            }),
            match old(self).total_bytes {
                None => !report && final(self).last_reported_percentage
                    == old(self).last_reported_percentage,
                Some(t) => {
                    let p = percent_of(final(self).downloaded_bytes, t);
                    &&& report == !(p < old(self).last_reported_percentage
                        + DOWNLOAD_PROGRESS_PERCENT_INTERVAL && final(self).downloaded_bytes < t)
                    &&& final(self).last_reported_percentage == if report {
                        p
                    } else {
                        old(self).last_reported_percentage
                    }
                },
            },
            old(self).total_bytes matches Some(t) ==> progress_step(
                t,
                old(self).downloaded_bytes,
                old(self).last_reported_percentage,
                chunk_size,
            ) == (final(self).downloaded_bytes, final(self).last_reported_percentage, report),
    {
        let chunk = chunk_size as u64;
        assert(chunk == chunk_size) by {
            assert(usize::MAX <= u64::MAX);
        }
        self.downloaded_bytes = if self.downloaded_bytes > u64::MAX - chunk {
            u64::MAX
        } else {
            self.downloaded_bytes + chunk
        };
        let total_bytes = match self.total_bytes {
            None => return false,
            Some(t) => t,
        };
        let percentage = match self.percentage() {
            Some(p) => p,
            None => 0,
        };
        if percentage < self.last_reported_percentage + DOWNLOAD_PROGRESS_PERCENT_INTERVAL
            && self.downloaded_bytes < total_bytes {
            return false;
        }
        self.last_reported_percentage = percentage;
        true
    }
}

/// Why a download job failed.
#[derive(Clone, Copy, Debug, PartialEq, Eq, Structural)]
pub enum DownloadError {
    Catalog,
    AlreadyDownloaded,
    DestinationExists,
    Transfer,
    Save,
}

impl DownloadError {
    /// The reason recorded on a failed job, for clients.
    pub fn client_message(&self) -> (r: &'static str)
        ensures
            r@ == match self {
                DownloadError::Catalog => "Could not load album metadata."@,
                DownloadError::AlreadyDownloaded => "Album is already downloaded."@,
                DownloadError::DestinationExists => "Album destination already exists."@,
                DownloadError::Transfer => "Album download failed."@,
                DownloadError::Save => "Could not save the completed download."@,
            },
    {
        match self {
            DownloadError::Catalog => "Could not load album metadata.",
            DownloadError::AlreadyDownloaded => "Album is already downloaded.",
            DownloadError::DestinationExists => "Album destination already exists.",
            DownloadError::Transfer => "Album download failed.",
            DownloadError::Save => "Could not save the completed download.",
        }
    }

    /// The error's own description.
    pub fn message(&self) -> (r: &'static str)
        ensures
            r@ == match self {
                DownloadError::Catalog => "could not load album metadata"@,
                DownloadError::AlreadyDownloaded => "album is already downloaded"@,
                DownloadError::DestinationExists => "album destination already exists"@,
                DownloadError::Transfer => "album transfer failed"@,
                DownloadError::Save => "could not save completed download"@,
            },
    {
        match self {
            DownloadError::Catalog => "could not load album metadata",
            DownloadError::AlreadyDownloaded => "album is already downloaded",
            DownloadError::DestinationExists => "album destination already exists",
            DownloadError::Transfer => "album transfer failed",
            DownloadError::Save => "could not save completed download",
        }
    }
}


/// Where a download goes: the album's catalog location, and the name of the staging
/// directory it is first written to.
#[derive(Debug, PartialEq, Eq)]
pub struct DownloadPlan {
    pub relative_path: String,
    pub staging_name: String,
}

/// The year an album's directory is named with: its release year, or the current year
/// while the release date has not been refreshed (a year of 0).
pub open spec fn directory_year(release_year: i32, current_year: i32) -> int {
    if release_year == 0 {
        current_year as int
    } else {
        release_year as int
    }
}

/// Plans a download from the album's catalog data, the current year and a fresh token:
/// an album that already has a location is not downloaded again, and one without a
/// primary artist cannot be placed.
pub fn plan_download_with(
    album_id: &str,
    title: &str,
    release_year: i32,
    recorded_path: &Option<String>,
    primary_artist: Option<&str>,
    current_year: i32,
    token: &str,
) -> (r: Result<DownloadPlan, DownloadError>)
    ensures
        recorded_path is Some ==> r == Err::<DownloadPlan, DownloadError>(
            DownloadError::AlreadyDownloaded,
        ),
        recorded_path is None && primary_artist is None ==> r == Err::<DownloadPlan, DownloadError>(
            DownloadError::Catalog,
        ),
        recorded_path is None && primary_artist is Some ==> (r matches Ok(plan)
            && plan.relative_path@ == album_location_spec(
            primary_artist.unwrap()@,
            title@,
            directory_year(release_year, current_year),
        ) && plan.staging_name@ == album_id@ + seq!['-'] + token@),
{
    if recorded_path.is_some() {
        return Err(DownloadError::AlreadyDownloaded);
    }
    let primary = match primary_artist {
        Some(p) => p,
        None => return Err(DownloadError::Catalog),
    };
    let year = if release_year == 0 {
        current_year
    } else {
        release_year
    };
    let relative_path = album_location(primary, title, year);
    let mut staging_name = album_id.to_owned();
    push_char(&mut staging_name, '-');
    staging_name.append(token);
    Ok(DownloadPlan { relative_path, staging_name })
}

/// A staging directory name for an album: its id, a hyphen and a fresh 21-character id.
pub open spec fn fresh_staging_name(name: Seq<char>, album_id: Seq<char>) -> bool {
    &&& name.len() == album_id.len() + 22
    &&& name.take(album_id.len() + 1int) == album_id + seq!['-']
    &&& forall|i: int| album_id.len() + 1 <= i < name.len() ==> is_id_char(#[trigger] name[i])
}

/// Plans a download, asking for the current year only when the release year is unknown,
/// and naming the staging directory with a fresh id.
pub fn plan_download(
    album_id: &str,
    title: &str,
    release_year: i32,
    recorded_path: &Option<String>,
    primary_artist: Option<&str>,
) -> (r: Result<DownloadPlan, DownloadError>)
    ensures
        recorded_path is Some ==> r == Err::<DownloadPlan, DownloadError>(
            DownloadError::AlreadyDownloaded,
        ),
        recorded_path is None && primary_artist is None ==> r == Err::<DownloadPlan, DownloadError>(
            DownloadError::Catalog,
        ),
        recorded_path is None && primary_artist is Some && release_year != 0 ==> (r matches Ok(plan)
            && plan.relative_path@ == album_location_spec(
            primary_artist.unwrap()@,
            title@,
            release_year as int,
        ) && fresh_staging_name(plan.staging_name@, album_id@)),
        recorded_path is None && primary_artist is Some && release_year == 0 ==> (r matches Ok(plan)
            && (exists|year: i32|
            year >= 1970 && plan.relative_path@ == #[trigger] album_location_spec(
                primary_artist.unwrap()@,
                title@,
                year as int,
            )) && fresh_staging_name(plan.staging_name@, album_id@)),
{
    let current_year = if release_year == 0 {
        current_year()
    } else {
        0
    };
    let token = new_id();
    let r = plan_download_with(album_id, title, release_year, recorded_path, primary_artist, current_year, token.as_str());
    proof {
        if r is Ok {
            let name = r->Ok_0.staging_name@;
            assert(name == album_id@ + seq!['-'] + token@);
            assert(name.take(album_id@.len() + 1int) =~= album_id@ + seq!['-']);
            assert forall|i: int| album_id@.len() + 1 <= i < name.len() implies is_id_char(#[trigger] name[i]) by {
                assert(name[i] == token@[i - album_id@.len() - 1]);
            }
        }
    }
    r
}


/// Progress reports never go back, and a finished transfer reports 100 percent; for
/// transfers of at most `u64::MAX / 100` bytes, where the percentage does not saturate.
pub proof fn law_progress_reports_never_go_back(downloaded: u64, total: u64, last: u64)
    requires
        0 < total <= u64::MAX / 100,
        last <= 100,
    ensures
        downloaded >= total ==> percent_of(downloaded, total) == 100,
        !(percent_of(downloaded, total) < last + DOWNLOAD_PROGRESS_PERCENT_INTERVAL && downloaded
            < total) ==> percent_of(downloaded, total) >= last,
        percent_of(downloaded, total) <= 100,
{
    if downloaded >= total {
        if downloaded * 100 > u64::MAX {
            assert((u64::MAX as int) / (total as int) >= 100) by (nonlinear_arith)
                requires 0 < total <= u64::MAX / 100;
        } else {
            assert((downloaded * 100) / (total as int) >= 100) by (nonlinear_arith)
                requires downloaded >= total, total > 0;
        }
    }
}

/// One chunk of a transfer of `total` bytes: the bytes arrived after it (saturating), the
/// percentage last reported after it, and whether it is reported.
pub open spec fn progress_step(total: u64, downloaded: u64, last: u64, chunk: usize) -> (u64, u64, bool) {
    let d = if downloaded + chunk > u64::MAX {
        u64::MAX
    } else {
        (downloaded + chunk) as u64
    };
    let p = percent_of(d, total);
    let report = !(p < last + DOWNLOAD_PROGRESS_PERCENT_INTERVAL && d < total);
    (d, if report { p } else { last }, report)
}

/// The steps of a transfer fed `chunks` in order, from `downloaded` bytes and the
/// percentage `last` reported.
pub open spec fn progress_run(total: u64, downloaded: u64, last: u64, chunks: Seq<usize>) -> Seq<(u64, u64, bool)>
    decreases chunks.len(),
{
    if chunks.len() == 0 {
        Seq::empty()
    } else {
        let s = progress_step(total, downloaded, last, chunks[0]);
        seq![s] + progress_run(total, s.0, s.1, chunks.drop_first())
    }
}

/// The sum of the chunk sizes.
pub open spec fn chunk_sum(chunks: Seq<usize>) -> int
    decreases chunks.len(),
{
    if chunks.len() == 0 {
        0
    } else {
        chunks[0] + chunk_sum(chunks.drop_first())
    }
}

/// Step `i` of a run comes before all bytes arrived, and is reported exactly when the
/// percentage after it has grown by the interval since the last report (`start` before
/// any).
pub open spec fn reported_when_grown(run: Seq<(u64, u64, bool)>, start: u64, total: u64, i: int) -> bool {
    let before = if i == 0 { start } else { run[i - 1].1 };
    &&& run[i].0 < total
    &&& run[i].2 == (percent_of(run[i].0, total) >= before + DOWNLOAD_PROGRESS_PERCENT_INTERVAL)
}

/// How many steps are reported.
pub open spec fn reported_count(run: Seq<(u64, u64, bool)>) -> int
    decreases run.len(),
{
    if run.len() == 0 {
        0
    } else {
        (if run[0].2 { 1int } else { 0int }) + reported_count(run.drop_first())
    }
}

proof fn lemma_percent_below_total(downloaded: u64, total: u64)
    requires
        0 < total,
        downloaded < total,
    ensures
        percent_of(downloaded, total) < 100,
{
    if downloaded * 100 > u64::MAX {
        assert(total * 100 > u64::MAX) by (nonlinear_arith)
            requires downloaded * 100 > u64::MAX, downloaded < total;
        assert((u64::MAX as int) / (total as int) < 100) by (nonlinear_arith)
            requires total * 100 > u64::MAX, total > 0;
    } else {
        assert((downloaded * 100) / (total as int) < 100) by (nonlinear_arith)
            requires downloaded < total, total > 0;
    }
}

proof fn lemma_progress_run(total: u64, downloaded: u64, last: u64, chunks: Seq<usize>)
    requires
        0 < total,
        downloaded < total,
        last <= 99,
        last == 0 || last >= DOWNLOAD_PROGRESS_PERCENT_INTERVAL,
        forall|i: int| 0 <= i < chunks.len() ==> #[trigger] chunks[i] > 0,
        downloaded + chunk_sum(chunks) == total,
    ensures
        chunks.len() > 0,
        progress_run(total, downloaded, last, chunks).len() == chunks.len(),
        progress_run(total, downloaded, last, chunks).last().2,
        progress_run(total, downloaded, last, chunks).last().0 == total,
        total <= u64::MAX / 100 ==> percent_of(progress_run(total, downloaded, last, chunks).last().0, total) == 100,
        forall|i: int|
            0 <= i < chunks.len() - 1 ==> #[trigger] reported_when_grown(
                progress_run(total, downloaded, last, chunks),
                last,
                total,
                i,
            ),
        reported_count(progress_run(total, downloaded, last, chunks)) <= (99 - last) / 5 + 1,
    decreases chunks.len(),
{
    if chunks.len() == 0 {
        assert(false);
    }
    let s = progress_step(total, downloaded, last, chunks[0]);
    let rest = chunks.drop_first();
    let run = progress_run(total, downloaded, last, chunks);
    assert(chunks[0] > 0);
    lemma_chunk_sum_nonneg(rest);
    assert(chunk_sum(chunks) == chunks[0] + chunk_sum(rest));
    assert(s.0 == downloaded + chunks[0]);
    if s.0 < total {
        lemma_percent_below_total(s.0, total);
        assert(chunk_sum(rest) > 0);
        assert forall|i: int| 0 <= i < rest.len() implies #[trigger] rest[i] > 0 by {
            assert(rest[i] == chunks[i + 1]);
        }
        lemma_progress_run(total, s.0, s.1, rest);
        let tail = progress_run(total, s.0, s.1, rest);
        assert(run == seq![s] + tail);
        assert(run.drop_first() =~= tail);
        assert(run.last() == tail.last());
        assert(reported_count(run) == (if s.2 { 1int } else { 0int }) + reported_count(tail));
        if s.2 {
            assert(s.1 >= last + 5);
            assert(s.1 <= 99);
            assert((99 - s.1) / 5 + 1 <= (99 - last) / 5);
        }
        assert forall|i: int| 0 <= i < chunks.len() - 1 implies #[trigger] reported_when_grown(
            run,
            last,
            total,
            i,
        ) by {
            if i > 0 {
                assert(run[i] == tail[i - 1]);
                assert(reported_when_grown(tail, s.1, total, i - 1));
                if i > 1 {
                    assert(run[i - 1] == tail[i - 2]);
                }
            }
        }
    } else {
        if total <= u64::MAX / 100 {
            law_progress_reports_never_go_back(s.0, total, last);
        }
        if rest.len() > 0 {
            assert(rest[0] == chunks[1]);
            assert(chunk_sum(rest) >= rest[0]) by {
                lemma_chunk_sum_nonneg(rest.drop_first());
            }
            assert(false);
        }
        assert(rest =~= Seq::<usize>::empty());
        assert(run =~= seq![s]);
        assert(run.drop_first() =~= Seq::<(u64, u64, bool)>::empty());
        assert(s.2);
        assert(reported_count(run.drop_first()) == 0);
        assert(run[0] == s);
        assert(reported_count(run) == 1);
    }
}

proof fn lemma_chunk_sum_nonneg(chunks: Seq<usize>)
    ensures
        chunk_sum(chunks) >= 0,
    decreases chunks.len(),
{
    if chunks.len() > 0 {
        lemma_chunk_sum_nonneg(chunks.drop_first());
    }
}

/// Over a whole transfer of a known length, fed in chunks that add up to it, the last
/// chunk is always reported; every earlier chunk is reported exactly when the percentage
/// has grown by the interval since the last report; and so at most twenty chunks are
/// reported. The last report is 100 percent for transfers of at most `u64::MAX / 100`
/// bytes; above that the hundredfold byte count saturates and the percentage stays lower.
pub proof fn law_a_transfer_reports_its_completion(total: u64, chunks: Seq<usize>)
    requires
        0 < total,
        forall|i: int| 0 <= i < chunks.len() ==> #[trigger] chunks[i] > 0,
        chunk_sum(chunks) == total,
    ensures
        progress_run(total, 0, 0, chunks).len() == chunks.len() > 0,
        progress_run(total, 0, 0, chunks).last().2,
        total <= u64::MAX / 100 ==> percent_of(progress_run(total, 0, 0, chunks).last().0, total)
            == 100,
        forall|i: int|
            0 <= i < chunks.len() - 1 ==> #[trigger] reported_when_grown(
                progress_run(total, 0, 0, chunks),
                0,
                total,
                i,
            ),
        reported_count(progress_run(total, 0, 0, chunks)) <= 20,
{
    lemma_progress_run(total, 0, 0, chunks);
}

} // verus!
