//! Background jobs and their lifecycle.
//!
//! Every status mutation goes through [`JobManager::apply`], which models
//! the single consuming task of the command channel: transitions are
//! applied one at a time, and no transition leaves a terminal status.

use vstd::prelude::*;

use crate::batch::{BatchOcrResult, BatchSolveResult, OcrResultView};

verus! {

/// Formats a book can be exported to.
#[derive(Clone, Copy, PartialEq, Eq, Structural)]
pub enum ExportFormat {
    Markdown,
    Latex,
    Json,
    Anki,
}

/// What kind of work a job performs.
pub enum JobType {
    BatchOcr { book_id: String, page_range: (u32, u32), chapter_id: String },
    BatchSolve { problem_ids: Vec<String>, provider: String },
    Export { book_id: String, format: ExportFormat },
}

/// The structured result a finished job reports.
pub enum JobResult {
    Ocr(BatchOcrResult),
    Solve(BatchSolveResult),
}

/// Lifecycle status of a background job.
pub enum JobStatus {
    Pending,
    Running { progress: u8, message: String },
    Completed { result: JobResult },
    Failed { error: String },
    Cancelled,
}

/// One background job.
pub struct BackgroundJob {
    pub id: String,
    pub job_type: JobType,
    pub status: JobStatus,
    pub created_at: u64,
    pub updated_at: u64,
}

/// A request sent to the single consuming task.
pub enum JobCommand {
    UpdateStatus(String, JobStatus),
    Cancel(String),
}

// --- views ---

pub enum JobTypeView {
    BatchOcr { book_id: Seq<char>, page_range: (u32, u32), chapter_id: Seq<char> },
    BatchSolve { problem_ids: Seq<Seq<char>>, provider: Seq<char> },
    Export { book_id: Seq<char>, format: ExportFormat },
}

pub enum JobResultView {
    Ocr(OcrResultView),
    Solve(BatchSolveResult),
}

pub enum JobStatusView {
    Pending,
    Running { progress: u8, message: Seq<char> },
    Completed { result: JobResultView },
    Failed { error: Seq<char> },
    Cancelled,
}

pub struct JobView {
    pub id: Seq<char>,
    pub job_type: JobTypeView,
    pub status: JobStatusView,
    pub created_at: u64,
    pub updated_at: u64,
}

impl View for JobType {
    type V = JobTypeView;

    open spec fn view(&self) -> JobTypeView {
        match self {
            JobType::BatchOcr { book_id, page_range, chapter_id } => JobTypeView::BatchOcr {
                book_id: book_id@,
                page_range: *page_range,
                chapter_id: chapter_id@,
            },
            JobType::BatchSolve { problem_ids, provider } => JobTypeView::BatchSolve {
                problem_ids: problem_ids@.map_values(|s: String| s@),
                provider: provider@,
            },
            JobType::Export { book_id, format } => JobTypeView::Export {
                book_id: book_id@,
                format: *format,
            },
        }
    }
}

impl View for JobResult {
    type V = JobResultView;

    open spec fn view(&self) -> JobResultView {
        match self {
            JobResult::Ocr(r) => JobResultView::Ocr(r@),
            JobResult::Solve(r) => JobResultView::Solve(*r),
        }
    }
}

impl View for JobStatus {
    type V = JobStatusView;

    open spec fn view(&self) -> JobStatusView {
        match self {
            JobStatus::Pending => JobStatusView::Pending,
            JobStatus::Running { progress, message } => JobStatusView::Running {
                progress: *progress,
                message: message@,
            },
            JobStatus::Completed { result } => JobStatusView::Completed { result: result@ },
            JobStatus::Failed { error } => JobStatusView::Failed { error: error@ },
            JobStatus::Cancelled => JobStatusView::Cancelled,
        }
    }
}

impl View for BackgroundJob {
    type V = JobView;

    open spec fn view(&self) -> JobView {
        JobView {
            id: self.id@,
            job_type: self.job_type@,
            status: self.status@,
            created_at: self.created_at,
            updated_at: self.updated_at,
        }
    }
}

// --- the lifecycle rules ---

/// A terminal status never changes again.
pub open spec fn spec_is_terminal(s: JobStatusView) -> bool {
    s is Completed || s is Failed || s is Cancelled
}

/// Index of the job with this id; `-1` when none has it.
pub open spec fn spec_job_index(jobs: Seq<JobView>, id: Seq<char>) -> int
    decreases jobs.len(),
{
    if jobs.len() == 0 {
        -1
    } else if jobs[0].id == id {
        0
    } else {
        let r = spec_job_index(jobs.drop_first(), id);
        if r < 0 {
            -1
        } else {
            r + 1
        }
    }
}

pub proof fn lemma_job_index_bounds(jobs: Seq<JobView>, id: Seq<char>)
    ensures
        -1 <= spec_job_index(jobs, id) < jobs.len(),
        spec_job_index(jobs, id) >= 0 ==> jobs[spec_job_index(jobs, id)].id == id,
    decreases jobs.len(),
{
    if jobs.len() > 0 && jobs[0].id != id {
        lemma_job_index_bounds(jobs.drop_first(), id);
    }
}

proof fn lemma_job_index_skip(jobs: Seq<JobView>, id: Seq<char>, i: int)
    requires
        0 <= i <= jobs.len(),
        forall|j: int| 0 <= j < i ==> jobs[j].id != id,
    ensures
        ({
            let r = spec_job_index(jobs.subrange(i, jobs.len() as int), id);
            spec_job_index(jobs, id) == if r < 0 {
                -1
            } else {
                i + r
            }
        }),
    decreases i,
{
    if i == 0 {
        assert(jobs.subrange(0, jobs.len() as int) =~= jobs);
    } else {
        let t = jobs.drop_first();
        assert forall|j: int| 0 <= j < i - 1 implies t[j].id != id by {
            assert(t[j] == jobs[j + 1]);
        }
        lemma_job_index_skip(t, id, i - 1);
        assert(t.subrange(i - 1, t.len() as int) =~= jobs.subrange(i, jobs.len() as int));
        lemma_job_index_bounds(t.subrange(i - 1, t.len() as int), id);
    }
}

/// The registry after a status change is requested: the job's status and
/// `updated_at` change only when the job exists and is not yet terminal.
pub open spec fn spec_apply_status(
    jobs: Seq<JobView>,
    id: Seq<char>,
    status: JobStatusView,
    now: u64,
) -> Seq<JobView> {
    let i = spec_job_index(jobs, id);
    if i < 0 {
        jobs
    } else if spec_is_terminal(jobs[i].status) {
        jobs
    } else {
        jobs.update(
            i,
            JobView {
                id: jobs[i].id,
                job_type: jobs[i].job_type,
                status,
                created_at: jobs[i].created_at,
                updated_at: now,
            },
        )
    }
}

/// View of a command.
pub open spec fn spec_command_view(cmd: JobCommand) -> (Seq<char>, JobStatusView) {
    match cmd {
        JobCommand::UpdateStatus(id, status) => (id@, status@),
        JobCommand::Cancel(id) => (id@, JobStatusView::Cancelled),
    }
}

/// Retention window for finished jobs, in milliseconds.
pub open spec fn spec_job_retention_ms() -> u64 {
    86400000
}

/// The registry after a sweep at `now`: terminal jobs older than the
/// retention window are dropped, everything else stays, in order.
pub open spec fn spec_cleanup_jobs(jobs: Seq<JobView>, now: u64) -> Seq<JobView>
    decreases jobs.len(),
{
    if jobs.len() == 0 {
        Seq::<JobView>::empty()
    } else {
        let rest = spec_cleanup_jobs(jobs.drop_first(), now);
        if spec_is_terminal(jobs[0].status) && jobs[0].updated_at + spec_job_retention_ms()
            <= now {
            rest
        } else {
            seq![jobs[0]] + rest
        }
    }
}

/// The job with this id exists and stands cancelled.
pub open spec fn spec_job_cancelled(jobs: Seq<JobView>, id: Seq<char>) -> bool {
    let i = spec_job_index(jobs, id);
    i >= 0 && jobs[i].status is Cancelled
}

/// A status change moves no id: every slot keeps its identifier.
pub proof fn lemma_apply_preserves_ids(
    jobs: Seq<JobView>,
    id: Seq<char>,
    status: JobStatusView,
    now: u64,
)
    ensures
        spec_apply_status(jobs, id, status, now).len() == jobs.len(),
        forall|j: int|
            0 <= j < jobs.len() ==> #[trigger] spec_apply_status(jobs, id, status, now)[j].id
                == jobs[j].id,
{
    lemma_job_index_bounds(jobs, id);
}

/// Registries with the same ids slot for slot index every id alike.
pub proof fn lemma_job_index_same_ids(a: Seq<JobView>, b: Seq<JobView>, id: Seq<char>)
    requires
        a.len() == b.len(),
        forall|j: int| 0 <= j < a.len() ==> #[trigger] a[j].id == b[j].id,
    ensures
        spec_job_index(a, id) == spec_job_index(b, id),
    decreases a.len(),
{
    if a.len() > 0 {
        assert(a[0].id == b[0].id);
        assert forall|j: int|
            0 <= j < a.drop_first().len() implies #[trigger] a.drop_first()[j].id
            == b.drop_first()[j].id by {
            assert(a.drop_first()[j] == a[j + 1]);
            assert(b.drop_first()[j] == b[j + 1]);
        }
        lemma_job_index_same_ids(a.drop_first(), b.drop_first(), id);
    }
}

/// A change to anything but `Cancelled` neither sets nor clears any
/// job's cancellation.
pub proof fn lemma_apply_keeps_cancelled(
    jobs: Seq<JobView>,
    id: Seq<char>,
    status: JobStatusView,
    now: u64,
    qid: Seq<char>,
)
    requires
        !(status is Cancelled),
    ensures
        spec_job_cancelled(spec_apply_status(jobs, id, status, now), qid) == spec_job_cancelled(
            jobs,
            qid,
        ),
{
    let after = spec_apply_status(jobs, id, status, now);
    lemma_job_index_bounds(jobs, id);
    lemma_apply_preserves_ids(jobs, id, status, now);
    lemma_job_index_same_ids(after, jobs, qid);
    lemma_job_index_bounds(jobs, qid);
}

// --- laws of the lifecycle ---

/// Cancelling a pending or running job leaves it cancelled, stamped with
/// the time of the cancellation.
pub proof fn lemma_cancel_from_live(jobs: Seq<JobView>, id: Seq<char>, now: u64)
    requires
        spec_job_index(jobs, id) >= 0,
        !spec_is_terminal(jobs[spec_job_index(jobs, id)].status),
    ensures
        ({
            let after = spec_apply_status(jobs, id, JobStatusView::Cancelled, now);
            &&& after[spec_job_index(jobs, id)].status is Cancelled
            &&& after[spec_job_index(jobs, id)].updated_at == now
        }),
{
    lemma_job_index_bounds(jobs, id);
    let i = spec_job_index(jobs, id);
    let after = spec_apply_status(jobs, id, JobStatusView::Cancelled, now);
    assert(after[i].status is Cancelled);
}

/// No command moves a job out of a terminal status: once cancelled, no
/// later progress update changes the job in any way.
pub proof fn lemma_terminal_is_final(
    jobs: Seq<JobView>,
    id: Seq<char>,
    status: JobStatusView,
    now: u64,
)
    requires
        spec_job_index(jobs, id) >= 0,
        spec_is_terminal(jobs[spec_job_index(jobs, id)].status),
    ensures
        spec_apply_status(jobs, id, status, now) == jobs,
{
}

/// A status change touches no other job.
pub proof fn lemma_apply_frames_others(
    jobs: Seq<JobView>,
    id: Seq<char>,
    status: JobStatusView,
    now: u64,
    j: int,
)
    requires
        0 <= j < jobs.len(),
        jobs[j].id != id,
    ensures
        spec_apply_status(jobs, id, status, now)[j] == jobs[j],
{
    lemma_job_index_bounds(jobs, id);
}

// --- the manager ---

/// Registry of background jobs; all mutation goes through [`Self::apply`].
pub struct JobManager {
    jobs: Vec<BackgroundJob>,
}

impl View for JobManager {
    type V = Seq<JobView>;

    closed spec fn view(&self) -> Seq<JobView> {
        self.jobs@.map_values(|j: BackgroundJob| j@)
    }
}

impl JobManager {
    pub fn new() -> (r: JobManager)
        ensures
            r@ == Seq::<JobView>::empty(),
    {
        let r = JobManager { jobs: Vec::new() };
        proof {
            assert(r@ =~= Seq::<JobView>::empty());
        }
        r
    }

    /// Find a job's position by its id.
    fn find_index(&self, id: &str) -> (r: Option<usize>)
        ensures
            match r {
                Some(i) => i == spec_job_index(self@, id@) && i < self@.len(),
                None => spec_job_index(self@, id@) == -1,
            },
    {
        let owned = id.to_owned();
        let n = self.jobs.len();
        let mut i: usize = 0;
        while i < n
            invariant
                i <= n,
                n == self@.len(),
                n == self.jobs@.len(),
                owned@ == id@,
                forall|j: int| 0 <= j < i ==> self@[j].id != id@,
            decreases n - i,
        {
            proof {
                assert(self@[i as int] == self.jobs@[i as int]@);
            }
            if self.jobs[i].id == owned {
                proof {
                    lemma_job_index_skip(self@, id@, i as int);
                    let t = self@.subrange(i as int, n as int);
                    assert(t[0] == self@[i as int]);
                }
                return Some(i);
            }
            i = i + 1;
        }
        proof {
            lemma_job_index_skip(self@, id@, n as int);
            assert(self@.subrange(n as int, n as int) =~= Seq::<JobView>::empty());
        }
        None
    }

    /// Register a new pending job and hand its fresh id back. When, against
    /// all odds, the drawn id is already taken, the registry is unchanged.
    pub fn create_job(&mut self, job_type: JobType, now: u64) -> (r: String)
        ensures
            r@.len() == 36,
            spec_job_index(old(self)@, r@) < 0 ==> final(self)@ == old(self)@.push(
                JobView {
                    id: r@,
                    job_type: job_type@,
                    status: JobStatusView::Pending,
                    created_at: now,
                    updated_at: now,
                },
            ),
            spec_job_index(old(self)@, r@) >= 0 ==> final(self)@ == old(self)@,
    {
        let id = crate::models::fresh_uuid();
        let existing = self.find_index(id.as_str());
        if existing.is_some() {
            return id;
        }
        let job = BackgroundJob {
            id: id.clone(),
            job_type,
            status: JobStatus::Pending,
            created_at: now,
            updated_at: now,
        };
        let ghost jv = job@;
        let ghost before = self@;
        self.jobs.push(job);
        proof {
            assert(self@ =~= before.push(jv));
        }
        id
    }

    /// Read one job.
    pub fn get_job(&self, id: &str) -> (r: Option<&BackgroundJob>)
        ensures
            match r {
                Some(j) => spec_job_index(self@, id@) >= 0 && j@ == self@[spec_job_index(
                    self@,
                    id@,
                )],
                None => spec_job_index(self@, id@) < 0,
            },
    {
        match self.find_index(id) {
            Some(i) => {
                proof {
                    assert(self@[i as int] == self.jobs@[i as int]@);
                }
                Some(&self.jobs[i])
            },
            None => None,
        }
    }

    /// Read every job.
    pub fn list_jobs(&self) -> (r: &Vec<BackgroundJob>)
        ensures
            r@.map_values(|j: BackgroundJob| j@) == self@,
    {
        &self.jobs
    }

    /// Apply one command, as the single consuming task does: linearized,
    /// and never out of a terminal status.
    pub fn apply(&mut self, cmd: JobCommand, now: u64)
        ensures
            final(self)@ == spec_apply_status(
                old(self)@,
                spec_command_view(cmd).0,
                spec_command_view(cmd).1,
                now,
            ),
    {
        let (id, status) = match cmd {
            JobCommand::UpdateStatus(id, status) => (id, status),
            JobCommand::Cancel(id) => (id, JobStatus::Cancelled),
        };
        let idx = self.find_index(id.as_str());
        let i = match idx {
            Some(i) => i,
            None => {
                return ;
            },
        };
        let terminal = match &self.jobs[i].status {
            JobStatus::Completed { .. } => true,
            JobStatus::Failed { .. } => true,
            JobStatus::Cancelled => true,
            _ => false,
        };
        proof {
            assert(self@[i as int] == self.jobs@[i as int]@);
            assert(terminal == spec_is_terminal(self@[i as int].status));
        }
        if terminal {
            return ;
        }
        let ghost before = self@;
        let ghost sv = status@;
        let slot = &mut self.jobs[i];
        slot.status = status;
        slot.updated_at = now;
        proof {
            assert(self.jobs@[i as int]@ == JobView {
                id: before[i as int].id,
                job_type: before[i as int].job_type,
                status: sv,
                created_at: before[i as int].created_at,
                updated_at: now,
            });
            assert(self@ =~= before.update(
                i as int,
                JobView {
                    id: before[i as int].id,
                    job_type: before[i as int].job_type,
                    status: sv,
                    created_at: before[i as int].created_at,
                    updated_at: now,
                },
            ));
        }
    }

    /// Request a progress update.
    pub fn update_progress(&mut self, id: &str, progress: u8, message: &str, now: u64)
        ensures
            exists|st: JobStatusView|
                st == (JobStatusView::Running { progress, message: message@ }) && final(self)@
                    == spec_apply_status(old(self)@, id@, st, now),
    {
        let status = JobStatus::Running { progress, message: message.to_owned() };
        let ghost sv = status@;
        self.apply(JobCommand::UpdateStatus(id.to_owned(), status), now);
        proof {
            assert(sv == (JobStatusView::Running { progress, message: message@ }));
        }
    }

    /// Mark a job completed with its structured result.
    pub fn complete_job(&mut self, id: &str, result: JobResult, now: u64)
        ensures
            exists|st: JobStatusView|
                st == (JobStatusView::Completed { result: result@ }) && final(self)@
                    == spec_apply_status(old(self)@, id@, st, now),
    {
        let ghost rv = result@;
        let status = JobStatus::Completed { result };
        let ghost sv = status@;
        self.apply(JobCommand::UpdateStatus(id.to_owned(), status), now);
        proof {
            assert(sv == (JobStatusView::Completed { result: rv }));
        }
    }

    /// Mark a job failed with an error message.
    pub fn fail_job(&mut self, id: &str, error: &str, now: u64)
        ensures
            exists|st: JobStatusView|
                st == (JobStatusView::Failed { error: error@ }) && final(self)@
                    == spec_apply_status(old(self)@, id@, st, now),
    {
        let status = JobStatus::Failed { error: error.to_owned() };
        let ghost sv = status@;
        self.apply(JobCommand::UpdateStatus(id.to_owned(), status), now);
        proof {
            assert(sv == (JobStatusView::Failed { error: error@ }));
        }
    }

    /// Request cancellation; a terminal job is left untouched.
    pub fn cancel_job(&mut self, id: &str, now: u64)
        ensures
            final(self)@ == spec_apply_status(old(self)@, id@, JobStatusView::Cancelled, now),
    {
        self.apply(JobCommand::Cancel(id.to_owned()), now);
    }

    /// Drop terminal jobs whose last update is older than the retention
    /// window.
    pub fn cleanup_old_jobs(&mut self, now: u64)
        ensures
            final(self)@ == spec_cleanup_jobs(old(self)@, now),
    {
        let ghost orig = old(self)@;
        let mut kept: Vec<BackgroundJob> = Vec::new();
        proof {
            assert(kept@.map_values(|j: BackgroundJob| j@) =~= Seq::<JobView>::empty());
        }
        while self.jobs.len() > 0
            invariant
                spec_cleanup_jobs(orig, now) == kept@.map_values(|j: BackgroundJob| j@)
                    + spec_cleanup_jobs(self.jobs@.map_values(|j: BackgroundJob| j@), now),
            decreases self.jobs@.len(),
        {
            let ghost f = |j: BackgroundJob| j@;
            let ghost old_jobs = self.jobs@;
            let ghost kept_before = kept@.map_values(f);
            proof {
                assert(old_jobs.map_values(f)[0] == old_jobs[0]@);
            }
            let j = self.jobs.remove(0);
            let ghost jv = j@;
            proof {
                assert(j == old_jobs[0]);
                assert forall|m: int|
                    0 <= m < self.jobs@.len() implies #[trigger] self.jobs@.map_values(f)[m]
                    == old_jobs.map_values(f).drop_first()[m] by {
                    assert(self.jobs@[m] == old_jobs[m + 1]);
                    assert(self.jobs@.map_values(f)[m] == f(self.jobs@[m]));
                    assert(old_jobs.map_values(f)[m + 1] == f(old_jobs[m + 1]));
                }
                assert(self.jobs@.map_values(f) =~= old_jobs.map_values(f).drop_first());
            }
            let terminal = match &j.status {
                JobStatus::Completed { .. } => true,
                JobStatus::Failed { .. } => true,
                JobStatus::Cancelled => true,
                _ => false,
            };
            let expired = terminal && (now >= 86400000 && j.updated_at <= now - 86400000);
            proof {
                assert(terminal == spec_is_terminal(jv.status));
                assert(expired == (spec_is_terminal(jv.status) && jv.updated_at
                    + spec_job_retention_ms() <= now));
                assert(spec_cleanup_jobs(old_jobs.map_values(f), now) == if expired {
                    spec_cleanup_jobs(self.jobs@.map_values(f), now)
                } else {
                    seq![jv] + spec_cleanup_jobs(self.jobs@.map_values(f), now)
                });
            }
            if !expired {
                kept.push(j);
                proof {
                    assert(kept@.map_values(f) =~= kept_before.push(jv));
                    assert(kept_before + (seq![jv] + spec_cleanup_jobs(
                        self.jobs@.map_values(f),
                        now,
                    )) =~= kept@.map_values(f) + spec_cleanup_jobs(
                        self.jobs@.map_values(f),
                        now,
                    ));
                }
            }
        }
        proof {
            let f = |j: BackgroundJob| j@;
            assert(self.jobs@.map_values(f).len() == 0);
            assert(spec_cleanup_jobs(self.jobs@.map_values(f), now) == Seq::<JobView>::empty());
            assert(kept@.map_values(f) + Seq::<JobView>::empty() =~= kept@.map_values(f));
        }
        self.jobs = kept;
    }
}

} // verus!
