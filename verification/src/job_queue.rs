//! The job queue as a state machine: jobs wait in the order of their
//! priority, are handed out to workers, and leave a result. Running the
//! workers and carrying the commands is left to the caller.

use crate::arith::{
    is_count, is_real_difference, is_real_exp, is_real_log, is_real_product, is_real_quotient,
    is_real_sum, Arithmetic,
};
use crate::error::{EngineError, UnsupportedFeature};
use crate::executor::BackendConfig;
use crate::scalar::Real;
use vstd::prelude::*;

verus! {

/// The identity of a job.
pub type JobId = u128;

/// How urgent a job is, in rising order.
#[derive(Clone, Copy, Debug, PartialEq, Eq, PartialOrd, Ord, Hash, Structural)]
pub enum Priority {
    Low,
    Normal,
    High,
    Critical,
}

/// Limits of a job.
#[derive(Clone, Copy, Debug, PartialEq, Eq, Structural)]
pub struct JobConfig {
    /// In milliseconds.
    pub timeout: u64,
    pub max_retries: usize,
    pub backend: BackendConfig,
}

/// How the points of a parameter grid are chosen.
#[derive(Clone, Copy, Debug, PartialEq, Eq, Structural)]
pub enum GridStrategy {
    /// Every combination.
    FullGrid,
    /// So many points at random.
    Random(usize),
    /// So many points of a Sobol sequence.
    Sobol(usize),
}

/// How the values of a parameter are spaced.
#[derive(Debug, PartialEq, Eq)]
pub enum ParameterScale {
    Linear,
    Log,
    Custom(Vec<Real>),
}

/// The values of one parameter of a sweep.
#[derive(Debug, PartialEq, Eq)]
pub struct ParameterRange {
    pub name: String,
    pub start: Real,
    pub end: Real,
    pub steps: usize,
    pub scale: ParameterScale,
}

/// The parameters of a sweep.
#[derive(Debug, PartialEq, Eq)]
pub struct ParameterGrid {
    pub params: Vec<ParameterRange>,
    pub strategy: GridStrategy,
}

/// What a job does.
#[derive(Debug, PartialEq, Eq)]
pub enum JobKind {
    Simulate { program: String },
    Prove { statement: String },
    Fit { program: String, data_path: String },
    Test { program: String, data_path: String },
    Sweep { base_job: Box<Job>, param_grid: ParameterGrid },
}

/// A job.
#[derive(Debug, PartialEq, Eq)]
pub struct Job {
    pub id: JobId,
    pub kind: JobKind,
    pub priority: Priority,
    pub params: Vec<(String, Real)>,
    pub config: JobConfig,
}

/// Diagnostics of a simulation.
#[derive(Debug, PartialEq, Eq)]
pub struct DiagnosticsSummary {
    pub max_trace_drift: Real,
    pub min_eigenvalue: Real,
    pub warnings: Vec<String>,
}

/// The result of a simulation.
#[derive(Debug, PartialEq, Eq)]
pub struct SimulationOutput {
    pub states: Vec<Vec<Real>>,
    pub diagnostics: DiagnosticsSummary,
}

/// The result of a proof.
#[derive(Debug, PartialEq, Eq)]
pub struct ProofOutput {
    pub proven: bool,
    pub steps: usize,
    pub certificate_hash: Option<String>,
}

/// The result of a fit.
#[derive(Debug, PartialEq, Eq)]
pub struct FitOutput {
    pub best_params: Vec<Real>,
    pub uncertainties: Vec<Real>,
    pub log_likelihood: Real,
}

/// The result of a statistical test.
#[derive(Debug, PartialEq, Eq)]
pub struct TestOutput {
    pub chi_square: Real,
    pub p_value: Real,
    pub decision: String,
}

/// Counts of a sweep; the duration in nanoseconds.
#[derive(Clone, Copy, Debug, PartialEq, Eq, Structural)]
pub struct SweepSummary {
    pub total_runs: usize,
    pub successful: usize,
    pub failed: usize,
    pub total_duration: u128,
}

/// The result of a sweep.
#[derive(Debug, PartialEq, Eq)]
pub struct SweepOutput {
    pub results: Vec<(Vec<(String, Real)>, JobResult)>,
    pub best_params: Vec<(String, Real)>,
    pub summary: SweepSummary,
}

/// What a job gives.
#[derive(Debug, PartialEq, Eq)]
pub enum JobOutput {
    Simulation(SimulationOutput),
    Proof(ProofOutput),
    Fit(FitOutput),
    Test(TestOutput),
    Sweep(SweepOutput),
}

/// The result of a job; times in milliseconds since the Unix epoch, the
/// duration in nanoseconds.
#[derive(Debug, PartialEq, Eq)]
pub struct JobResult {
    pub job_id: JobId,
    pub started_at: i64,
    pub completed_at: i64,
    pub duration: u128,
    pub output: JobOutput,
}

/// Where a job stands.
#[derive(Clone, Copy, Debug, PartialEq, Eq, Structural)]
pub enum JobStatus {
    /// Waiting, with so many jobs before it.
    Queued { position: usize },
    Running,
    Complete,
    Failed { retry_count: usize },
    Cancelled,
}

/// What the queue knows of a job.
pub struct JobInfo {
    pub job: Job,
    /// Milliseconds since the Unix epoch.
    pub submitted_at: i64,
    pub retry_count: usize,
}

/// The state of the queue.
pub struct QueueState {
    jobs: Vec<JobInfo>,
    queue: Vec<JobId>,
    running: Vec<JobId>,
    results: Vec<JobResult>,
}

impl Default for JobConfig {
    fn default() -> (c: JobConfig)
        ensures
            c.timeout == 300_000,
            c.max_retries == 3,
            c.backend == (BackendConfig {
                backend_type: crate::executor::BackendType::CpuDense,
                num_threads: None,
            }),
    {
        JobConfig { timeout: 300_000, max_retries: 3, backend: BackendConfig::default() }
    }
}

impl Priority {
    /// Position in the order of priorities, `Low` being 0.
    pub open spec fn rank(self) -> int {
        match self {
            Priority::Low => 0,
            Priority::Normal => 1,
            Priority::High => 2,
            Priority::Critical => 3,
        }
    }

    fn rank_of(self) -> (r: u8)
        ensures
            r == self.rank(),
    {
        match self {
            Priority::Low => 0,
            Priority::Normal => 1,
            Priority::High => 2,
            Priority::Critical => 3,
        }
    }

    /// Whether `self` is less urgent than `other`.
    pub fn below(self, other: Priority) -> (r: bool)
        ensures
            r == (self.rank() < other.rank()),
    {
        self.rank_of() < other.rank_of()
    }
}

/// The priority of the first job with the given id, and `Low` where there
/// is none.
pub open spec fn priority_of(jobs: Seq<(JobId, Priority)>, id: JobId, from: int) -> Priority
    decreases jobs.len() - from,
{
    if from < 0 || from >= jobs.len() {
        Priority::Low
    } else if jobs[from].0 == id {
        jobs[from].1
    } else {
        priority_of(jobs, id, from + 1)
    }
}

/// The first place at or after `from` in the queue whose job is less urgent
/// than `priority`, and the end of the queue where there is none.
pub open spec fn insertion_point(
    jobs: Seq<(JobId, Priority)>,
    queue: Seq<JobId>,
    priority: Priority,
    from: int,
) -> int
    decreases queue.len() - from,
{
    if from < 0 || from >= queue.len() {
        queue.len() as int
    } else if priority_of(jobs, queue[from], 0).rank() < priority.rank() {
        from
    } else {
        insertion_point(jobs, queue, priority, from + 1)
    }
}

/// The first place of `id` at or after `from`.
pub open spec fn place_of(ids: Seq<JobId>, id: JobId, from: int) -> Option<int>
    decreases ids.len() - from,
{
    if from < 0 || from >= ids.len() {
        None
    } else if ids[from] == id {
        Some(from)
    } else {
        place_of(ids, id, from + 1)
    }
}

/// The list without `id`.
pub open spec fn without(ids: Seq<JobId>, id: JobId) -> Seq<JobId>
    decreases ids.len(),
{
    if ids.len() == 0 {
        ids
    } else if ids.last() == id {
        without(ids.drop_last(), id)
    } else {
        without(ids.drop_last(), id).push(ids.last())
    }
}

/// The ids of a list of results.
pub open spec fn result_ids(results: Seq<JobResult>) -> Seq<JobId> {
    Seq::new(results.len(), |i: int| results[i].job_id)
}

/// Where a job stands: complete where it has a result, else running where
/// a worker has it, else waiting where it is in the queue.
pub open spec fn status_of(
    results: Seq<JobId>,
    running: Seq<JobId>,
    queue: Seq<JobId>,
    id: JobId,
) -> Option<JobStatus> {
    if place_of(results, id, 0) is Some {
        Some(JobStatus::Complete)
    } else if place_of(running, id, 0) is Some {
        Some(JobStatus::Running)
    } else {
        match place_of(queue, id, 0) {
            Some(p) => Some(JobStatus::Queued { position: p as usize }),
            None => None,
        }
    }
}

/// The first place of `id` in a list.
fn find(ids: &Vec<JobId>, id: JobId) -> (r: Option<usize>)
    ensures
        match r {
            Some(p) => place_of(ids@, id, 0) == Some(p as int),
            None => place_of(ids@, id, 0) is None,
        },
{
    let mut i: usize = 0;
    while i < ids.len()
        invariant
            i <= ids@.len(),
            place_of(ids@, id, 0) == place_of(ids@, id, i as int),
        decreases ids@.len() - i,
    {
        if ids[i] == id {
            return Some(i);
        }
        i += 1;
    }
    None
}

/// The list without `id`.
fn remove_all(ids: &Vec<JobId>, id: JobId) -> (r: Vec<JobId>)
    ensures
        r@ == without(ids@, id),
{
    let mut out: Vec<JobId> = Vec::new();
    let mut i: usize = 0;
    assert(ids@.take(0) =~= Seq::<JobId>::empty());
    while i < ids.len()
        invariant
            i <= ids@.len(),
            out@ == without(ids@.take(i as int), id),
        decreases ids@.len() - i,
    {
        proof {
            let t = ids@.take(i as int + 1);
            assert(t.drop_last() =~= ids@.take(i as int));
        }
        if ids[i] != id {
            out.push(ids[i]);
        }
        i += 1;
    }
    assert(ids@.take(ids@.len() as int) =~= ids@);
    out
}

impl QueueState {
    /// The jobs known, with their priorities, in the order they came.
    pub closed spec fn known(&self) -> Seq<(JobId, Priority)> {
        Seq::new(self.jobs@.len(), |i: int| (self.jobs@[i].job.id, self.jobs@[i].job.priority))
    }

    /// The jobs that wait, the next one first.
    pub closed spec fn waiting(&self) -> Seq<JobId> {
        self.queue@
    }

    /// The jobs that workers have.
    pub closed spec fn active(&self) -> Seq<JobId> {
        self.running@
    }

    /// The jobs that have a result.
    pub closed spec fn finished(&self) -> Seq<JobId> {
        result_ids(self.results@)
    }

    /// An empty queue.
    pub fn new() -> (s: QueueState)
        ensures
            s.known().len() == 0,
            s.waiting().len() == 0,
            s.active().len() == 0,
            s.finished().len() == 0,
    {
        QueueState { jobs: Vec::new(), queue: Vec::new(), running: Vec::new(), results: Vec::new() }
    }

    /// The priority of a job, and `Low` for one that is not known.
    fn priority(&self, id: JobId) -> (p: Priority)
        ensures
            p == priority_of(self.known(), id, 0),
    {
        let mut i: usize = 0;
        while i < self.jobs.len()
            invariant
                i <= self.jobs@.len(),
                priority_of(self.known(), id, 0) == priority_of(self.known(), id, i as int),
            decreases self.jobs@.len() - i,
        {
            if self.jobs[i].job.id == id {
                return self.jobs[i].job.priority;
            }
            i += 1;
        }
        Priority::Low
    }

    /// Takes a job in: it waits behind every job that is at least as
    /// urgent, and before the first that is less urgent.
    pub fn submit(&mut self, job: Job, now: i64) -> (id: JobId)
        ensures
            id == job.id,
            final(self).known() == old(self).known().push((job.id, job.priority)),
            final(self).waiting() == old(self).waiting().insert(
                insertion_point(old(self).known(), old(self).waiting(), job.priority, 0),
                job.id,
            ),
            final(self).active() == old(self).active(),
            final(self).finished() == old(self).finished(),
    {
        let id = job.id;
        let priority = job.priority;
        let mut pos: usize = 0;
        while pos < self.queue.len()
            invariant
                pos <= self.queue@.len(),
                self.known() == old(self).known(),
                self.queue == old(self).queue,
                self.running == old(self).running,
                self.results == old(self).results,
                self.jobs == old(self).jobs,
                insertion_point(self.known(), self.queue@, priority, 0) == insertion_point(
                    self.known(),
                    self.queue@,
                    priority,
                    pos as int,
                ),
            ensures
                pos <= self.queue@.len(),
                insertion_point(self.known(), self.queue@, priority, 0) == pos,
            decreases self.queue@.len() - pos,
        {
            if self.priority(self.queue[pos]).below(priority) {
                break ;
            }
            pos += 1;
        }
        let ghost before = self.known();
        self.jobs.push(JobInfo { job, submitted_at: now, retry_count: 0 });
        assert(self.known() =~= before.push((id, priority)));
        self.queue.insert(pos, id);
        id
    }

    /// Takes a job out of the queue and away from the workers.
    pub fn cancel(&mut self, id: JobId)
        ensures
            final(self).waiting() == without(old(self).waiting(), id),
            final(self).active() == without(old(self).active(), id),
            final(self).known() == old(self).known(),
            final(self).finished() == old(self).finished(),
    {
        self.queue = remove_all(&self.queue, id);
        self.running = remove_all(&self.running, id);
    }

    /// Where a job stands, if it is known at all.
    pub fn status(&self, id: JobId) -> (r: Option<JobStatus>)
        ensures
            r == status_of(self.finished(), self.active(), self.waiting(), id),
    {
        if self.result_place(id).is_some() {
            return Some(JobStatus::Complete);
        }
        if find(&self.running, id).is_some() {
            return Some(JobStatus::Running);
        }
        match find(&self.queue, id) {
            Some(p) => Some(JobStatus::Queued { position: p }),
            None => None,
        }
    }

    /// The place of the first result of a job.
    fn result_place(&self, id: JobId) -> (r: Option<usize>)
        ensures
            match r {
                Some(p) => place_of(self.finished(), id, 0) == Some(p as int) && p
                    < self.results@.len() && self.results@[p as int].job_id == id,
                None => place_of(self.finished(), id, 0) is None,
            },
    {
        let mut i: usize = 0;
        while i < self.results.len()
            invariant
                i <= self.results@.len(),
                place_of(self.finished(), id, 0) == place_of(self.finished(), id, i as int),
            decreases self.results@.len() - i,
        {
            if self.results[i].job_id == id {
                return Some(i);
            }
            i += 1;
        }
        None
    }

    /// The result of a job, if it has one.
    pub fn get_result(&self, id: JobId) -> (r: Option<&JobResult>)
        ensures
            match place_of(self.finished(), id, 0) {
                Some(p) => r is Some && r->Some_0.job_id == id,
                None => r is None,
            },
    {
        match self.result_place(id) {
            Some(p) => Some(&self.results[p]),
            None => None,
        }
    }

    /// The job with the given id that came first, if there is one.
    pub fn get_job(&self, id: JobId) -> (r: Option<&Job>)
        ensures
            match place_of(
                Seq::new(self.known().len(), |i: int| self.known()[i].0),
                id,
                0,
            ) {
                Some(p) => r is Some && r->Some_0.id == id,
                None => r is None,
            },
    {
        let ghost ids = Seq::new(self.known().len(), |i: int| self.known()[i].0);
        let mut i: usize = 0;
        while i < self.jobs.len()
            invariant
                i <= self.jobs@.len(),
                ids == Seq::new(self.known().len(), |i: int| self.known()[i].0),
                place_of(ids, id, 0) == place_of(ids, id, i as int),
            decreases self.jobs@.len() - i,
        {
            if self.jobs[i].job.id == id {
                return Some(&self.jobs[i].job);
            }
            i += 1;
        }
        None
    }

    /// Every known job with where it stands, in the order the jobs came. A
    /// job that stands nowhere counts as waiting at the front.
    pub fn list_jobs(&self) -> (r: Vec<(JobId, JobStatus)>)
        ensures
            r@.len() == self.known().len(),
            forall|i: int|
                0 <= i < r@.len() ==> (#[trigger] r@[i]).0 == self.known()[i].0 && r@[i].1
                    == match status_of(
                    self.finished(),
                    self.active(),
                    self.waiting(),
                    self.known()[i].0,
                ) {
                    Some(s) => s,
                    None => JobStatus::Queued { position: 0 },
                },
    {
        let mut out: Vec<(JobId, JobStatus)> = Vec::new();
        let mut i: usize = 0;
        while i < self.jobs.len()
            invariant
                i <= self.jobs@.len(),
                out@.len() == i,
                forall|k: int|
                    0 <= k < i ==> (#[trigger] out@[k]).0 == self.known()[k].0 && out@[k].1
                        == match status_of(
                        self.finished(),
                        self.active(),
                        self.waiting(),
                        self.known()[k].0,
                    ) {
                        Some(s) => s,
                        None => JobStatus::Queued { position: 0 },
                    },
            decreases self.jobs@.len() - i,
        {
            let id = self.jobs[i].job.id;
            let status = match self.status(id) {
                Some(s) => s,
                None => JobStatus::Queued { position: 0 },
            };
            out.push((id, status));
            i += 1;
        }
        out
    }

    /// Hands the next waiting job to a worker.
    pub fn next_job(&mut self) -> (r: Option<JobId>)
        ensures
            match r {
                Some(id) => old(self).waiting().len() > 0 && id == old(self).waiting()[0]
                    && final(self).waiting() == old(self).waiting().subrange(
                    1,
                    old(self).waiting().len() as int,
                ) && final(self).active() == old(self).active().push(id),
                None => old(self).waiting().len() == 0 && final(self).waiting() == old(self).waiting() && final(self).active() == old(self).active(),
            },
            final(self).known() == old(self).known(),
            final(self).finished() == old(self).finished(),
    {
        if self.queue.len() == 0 {
            return None;
        }
        let id = self.queue.remove(0);
        self.running.push(id);
        Some(id)
    }

    /// Records the result of a job that a worker had.
    pub fn complete(&mut self, result: JobResult)
        ensures
            final(self).active() == without(old(self).active(), result.job_id),
            final(self).finished() == old(self).finished().push(result.job_id),
            final(self).waiting() == old(self).waiting(),
            final(self).known() == old(self).known(),
    {
        self.running = remove_all(&self.running, result.job_id);
        let ghost before = self.finished();
        let ghost id = result.job_id;
        self.results.push(result);
        assert(self.finished() =~= before.push(id));
    }
}

/// What running a job gives: canned outputs for a simulation, a proof, a
/// fit and a test; a sweep within a sweep is not supported.
pub fn execute_job(job: &Job) -> (r: Result<JobOutput, EngineError>)
    ensures
        match job.kind {
            JobKind::Simulate { .. } => r is Ok && r->Ok_0 is Simulation,
            JobKind::Prove { .. } => r is Ok && r->Ok_0 is Proof && r->Ok_0->Proof_0.proven
                && r->Ok_0->Proof_0.steps == 5,
            JobKind::Fit { .. } => r is Ok && r->Ok_0 is Fit && r->Ok_0->Fit_0.log_likelihood == (
            Real { bits: MINUS_HUNDRED_BITS }),
            JobKind::Test { .. } => r is Ok && r->Ok_0 is Test,
            JobKind::Sweep { .. } => r == Err::<JobOutput, EngineError>(
                EngineError::Unsupported(UnsupportedFeature::NestedSweep),
            ),
        },
{
    match &job.kind {
        JobKind::Simulate { .. } => Ok(
            JobOutput::Simulation(
                SimulationOutput {
                    states: Vec::new(),
                    diagnostics: DiagnosticsSummary {
                        max_trace_drift: Real::from_bits(crate::VALIDATION_TOL_BITS),
                        min_eigenvalue: Real::from_bits(0xbda5fd7fe1796495),
                        warnings: Vec::new(),
                    },
                },
            ),
        ),
        JobKind::Prove { .. } => Ok(
            JobOutput::Proof(
                ProofOutput {
                    proven: true,
                    steps: 5,
                    certificate_hash: Some("abc123".to_string()),
                },
            ),
        ),
        JobKind::Fit { .. } => Ok(
            JobOutput::Fit(
                FitOutput {
                    best_params: vec![
                        Real::from_bits(crate::scalar::ONE_BITS),
                        Real::from_bits(0x3fc999999999999a),
                    ],
                    uncertainties: vec![
                        Real::from_bits(0x3f847ae147ae147b),
                        Real::from_bits(0x3f947ae147ae147b),
                    ],
                    log_likelihood: Real::from_bits(MINUS_HUNDRED_BITS),
                },
            ),
        ),
        JobKind::Test { .. } => Ok(
            JobOutput::Test(
                TestOutput {
                    chi_square: Real::from_bits(0x4046a66666666666),
                    p_value: Real::from_bits(0x3fdae147ae147ae1),
                    decision: "Accept".to_string(),
                },
            ),
        ),
        JobKind::Sweep { .. } => Err(EngineError::Unsupported(UnsupportedFeature::NestedSweep)),
    }
}

/// Bit pattern of `-100.0`.
pub const MINUS_HUNDRED_BITS: u64 = 0xc059000000000000;

/// The log-likelihood of a result, where it is that of a fit.
pub open spec fn likelihood(result: JobResult) -> Option<Real> {
    match result.output {
        JobOutput::Fit(fit) => Some(fit.log_likelihood),
        _ => None,
    }
}

/// The place of the best fit among the first `count` results: the last of
/// those whose log-likelihood is not below that of any fit before it.
pub open spec fn best_fit(results: Seq<JobResult>, count: nat) -> Option<int>
    decreases count,
{
    if count == 0 {
        None
    } else {
        let before = best_fit(results, (count - 1) as nat);
        match likelihood(results[count - 1]) {
            None => before,
            Some(l) => match before {
                None => Some(count - 1),
                Some(b) => if l.lt(likelihood(results[b])->Some_0) {
                    before
                } else {
                    Some(count - 1)
                },
            },
        }
    }
}

/// The place of the best fit among the results of a sweep.
pub fn best_fit_index(results: &Vec<JobResult>) -> (r: Option<usize>)
    ensures
        match r {
            Some(i) => best_fit(results@, results@.len()) == Some(i as int) && i < results@.len(),
            None => best_fit(results@, results@.len()) is None,
        },
{
    let mut best: Option<usize> = None;
    let mut k: usize = 0;
    while k < results.len()
        invariant
            k <= results@.len(),
            match best {
                Some(i) => best_fit(results@, k as nat) == Some(i as int) && i < k && likelihood(
                    results@[i as int],
                ) is Some,
                None => best_fit(results@, k as nat) is None,
            },
        decreases results@.len() - k,
    {
        match &results[k].output {
            JobOutput::Fit(fit) => {
                let better = match best {
                    None => true,
                    Some(b) => match &results[b].output {
                        JobOutput::Fit(held) => !fit.log_likelihood.less_than(held.log_likelihood),
                        _ => true,
                    },
                };
                if better {
                    best = Some(k);
                }
            },
            _ => {},
        }
        k += 1;
    }
    best
}

/// The counts of a sweep of `total` jobs of which `successful` have a
/// result.
pub fn summarize(total: usize, successful: usize, nanos: u128) -> (s: SweepSummary)
    requires
        successful <= total,
    ensures
        s == (SweepSummary {
            total_runs: total,
            successful,
            failed: (total - successful) as usize,
            total_duration: nanos,
        }),
{
    SweepSummary { total_runs: total, successful, failed: total - successful, total_duration: nanos }
}

/// The number of points of the full grid over the axes from `from` on:
/// the product of the numbers of their values.
pub open spec fn grid_size(axes: Seq<(String, Vec<Real>)>, from: int) -> nat
    decreases axes.len() - from,
{
    if from < 0 || from >= axes.len() {
        1
    } else {
        axes[from].1@.len() * grid_size(axes, from + 1)
    }
}

/// Point `index` of the full grid over the axes from `from` on: the first
/// axis turns slowest.
pub open spec fn grid_point(axes: Seq<(String, Vec<Real>)>, from: int, index: int) -> Seq<
    (Seq<char>, Real),
>
    decreases axes.len() - from,
{
    if from < 0 || from >= axes.len() {
        Seq::empty()
    } else {
        let rest = grid_size(axes, from + 1) as int;
        seq![(axes[from].0@, axes[from].1@[index / rest])] + grid_point(
            axes,
            from + 1,
            index % rest,
        )
    }
}

/// The names and values of a point.
pub open spec fn point_view(point: Seq<(String, Real)>) -> Seq<(Seq<char>, Real)> {
    Seq::new(point.len(), |i: int| (point[i].0@, point[i].1))
}

/// A copy of a point with one more value in front.
fn extended(name: &String, value: Real, point: &Vec<(String, Real)>) -> (r: Vec<(String, Real)>)
    ensures
        point_view(r@) == seq![(name@, value)] + point_view(point@),
{
    let mut out: Vec<(String, Real)> = Vec::new();
    out.push((name.clone(), value));
    let mut i: usize = 0;
    assert(point_view(out@) =~= seq![(name@, value)] + point_view(point@.take(0)));
    while i < point.len()
        invariant
            i <= point@.len(),
            point_view(out@) == seq![(name@, value)] + point_view(point@.take(i as int)),
        decreases point@.len() - i,
    {
        let ghost before = point_view(out@);
        out.push((point[i].0.clone(), point[i].1));
        assert(point_view(out@) =~= before.push((point@[i as int].0@, point@[i as int].1)));
        assert(point_view(point@.take(i as int + 1)) =~= point_view(point@.take(i as int)).push(
            (point@[i as int].0@, point@[i as int].1),
        ));
        assert(point_view(out@) =~= seq![(name@, value)] + point_view(point@.take(i as int + 1)));
        i += 1;
    }
    assert(point@.take(point@.len() as int) =~= point@);
    out
}

/// Every combination of one value from each axis, the first axis turning
/// slowest.
pub fn full_grid(axes: &Vec<(String, Vec<Real>)>) -> (r: Vec<Vec<(String, Real)>>)
    ensures
        r@.len() == grid_size(axes@, 0),
        forall|k: int| 0 <= k < r@.len() ==> point_view((#[trigger] r@[k])@) == grid_point(axes@, 0, k),
{
    let mut combos: Vec<Vec<(String, Real)>> = Vec::new();
    combos.push(Vec::new());
    assert(point_view(combos@[0]@) =~= Seq::<(Seq<char>, Real)>::empty());
    let mut a: usize = axes.len();
    while a > 0
        invariant
            a <= axes@.len(),
            combos@.len() == grid_size(axes@, a as int),
            forall|k: int|
                0 <= k < combos@.len() ==> point_view((#[trigger] combos@[k])@) == grid_point(
                    axes@,
                    a as int,
                    k,
                ),
        decreases a,
    {
        let name = &axes[a - 1].0;
        let values = &axes[a - 1].1;
        let ghost rest = combos@.len() as int;
        let mut next: Vec<Vec<(String, Real)>> = Vec::new();
        let mut v: usize = 0;
        while v < values.len()
            invariant
                v <= values@.len(),
                0 < a <= axes@.len(),
                *name == axes@[a - 1].0,
                *values == axes@[a - 1].1,
                rest == combos@.len(),
                rest == grid_size(axes@, a as int),
                next@.len() == v * rest,
                forall|k: int|
                    0 <= k < combos@.len() ==> point_view((#[trigger] combos@[k])@) == grid_point(
                        axes@,
                        a as int,
                        k,
                    ),
                forall|k: int|
                    0 <= k < next@.len() ==> point_view((#[trigger] next@[k])@) == grid_point(
                        axes@,
                        a - 1,
                        k,
                    ),
            decreases values@.len() - v,
        {
            let mut c: usize = 0;
            while c < combos.len()
                invariant
                    c <= combos@.len(),
                    v < values@.len(),
                    0 < a <= axes@.len(),
                    *name == axes@[a - 1].0,
                    *values == axes@[a - 1].1,
                    rest == combos@.len(),
                    rest == grid_size(axes@, a as int),
                    next@.len() == v * rest + c,
                    forall|k: int|
                        0 <= k < combos@.len() ==> point_view((#[trigger] combos@[k])@)
                            == grid_point(axes@, a as int, k),
                    forall|k: int|
                        0 <= k < next@.len() ==> point_view((#[trigger] next@[k])@) == grid_point(
                            axes@,
                            a - 1,
                            k,
                        ),
                decreases combos@.len() - c,
            {
                let point = extended(name, values[v], &combos[c]);
                let ghost before = next@;
                next.push(point);
                proof {
                    let k = v * rest + c;
                    crate::kernels::lemma_place(v as int, c as int, values@.len() as int, rest);
                    assert(k == (v as int) * rest + (c as int));
                    assert(grid_point(axes@, a - 1, k) =~= seq![
                        (axes@[a - 1].0@, axes@[a - 1].1@[k / rest]),
                    ] + grid_point(axes@, a as int, k % rest));
                    assert forall|j: int| 0 <= j < next@.len() implies point_view(
                        (#[trigger] next@[j])@,
                    ) == grid_point(axes@, a - 1, j) by {
                        if j < before.len() {
                            assert(next@[j] == before[j]);
                        }
                    }
                }
                c += 1;
            }
            assert((v + 1) * rest == v * rest + rest) by (nonlinear_arith);
            v += 1;
        }
        combos = next;
        a -= 1;
    }
    combos
}

/// The number of gaps between `steps` values, and 1 where there is none.
pub open spec fn gaps(steps: usize) -> usize {
    if steps > 1 {
        (steps - 1) as usize
    } else {
        1
    }
}

/// `t` is how far step `i` of `steps` lies along a range: `i` over the
/// number of gaps.
pub open spec fn is_fraction<A: Arithmetic>(ar: &A, i: usize, steps: usize, t: Real) -> bool {
    exists|a: Real, b: Real|
        is_count(ar, i, a) && is_count(ar, gaps(steps), b) && #[trigger] is_real_quotient(
            ar,
            a,
            b,
            t,
        )
}

/// `r` is `from + t * (to - from)`.
pub open spec fn is_between<A: Arithmetic>(ar: &A, from: Real, to: Real, t: Real, r: Real) -> bool {
    exists|span: Real, d: Real|
        #![trigger is_real_product(ar, t, span, d), is_real_sum(ar, from, d, r)]
        is_real_difference(ar, to, from, span) && is_real_product(ar, t, span, d) && is_real_sum(
            ar,
            from,
            d,
            r,
        )
}

/// `r` is value `i` of `steps` evenly spaced values from `from` to `to`.
pub open spec fn is_linear_value<A: Arithmetic>(
    ar: &A,
    from: Real,
    to: Real,
    steps: usize,
    i: usize,
    r: Real,
) -> bool {
    exists|t: Real| #[trigger] is_fraction(ar, i, steps, t) && is_between(ar, from, to, t, r)
}

/// `r` is the exponential of value `i` of `steps` evenly spaced values
/// from `from` to `to`.
pub open spec fn is_log_value<A: Arithmetic>(
    ar: &A,
    from: Real,
    to: Real,
    steps: usize,
    i: usize,
    r: Real,
) -> bool {
    exists|x: Real| #[trigger] is_linear_value(ar, from, to, steps, i, x) && is_real_exp(ar, x, r)
}

/// `values` are the values of a parameter: evenly spaced from its start to
/// its end; or with evenly spaced logarithms, between the logarithms of
/// start and end; or the values it lists.
pub open spec fn are_values<A: Arithmetic>(
    ar: &A,
    param: ParameterRange,
    values: Seq<Real>,
) -> bool {
    match param.scale {
        ParameterScale::Linear => values.len() == param.steps && forall|i: int|
            0 <= i < values.len() ==> #[trigger] is_linear_value(
                ar,
                param.start,
                param.end,
                param.steps,
                i as usize,
                values[i],
            ),
        ParameterScale::Log => values.len() == param.steps && exists|from: Real, to: Real|
            #![trigger is_real_log(ar, param.start, from), is_real_log(ar, param.end, to)]
            is_real_log(ar, param.start, from) && is_real_log(ar, param.end, to) && forall|i: int|
                0 <= i < values.len() ==> #[trigger] is_log_value(
                    ar,
                    from,
                    to,
                    param.steps,
                    i as usize,
                    values[i],
                ),
        ParameterScale::Custom(listed) => values == listed@,
    }
}

fn linear_value<A: Arithmetic>(ar: &A, from: Real, to: Real, steps: usize, i: usize) -> (r: Real)
    ensures
        is_linear_value(ar, from, to, steps, i, r),
{
    let between: usize = if steps > 1 {
        steps - 1
    } else {
        1
    };
    let a = ar.real_from_count(i);
    let b = ar.real_from_count(between);
    let t = ar.div_real(a, b);
    assert(is_count(ar, i, a) && is_count(ar, gaps(steps), b) && is_real_quotient(ar, a, b, t));
    assert(is_fraction(ar, i, steps, t));
    let span = ar.sub_real(to, from);
    let d = ar.mul_real(t, span);
    let r = ar.add_real(from, d);
    assert(is_real_product(ar, t, span, d) && is_real_sum(ar, from, d, r));
    assert(is_between(ar, from, to, t, r));
    r
}

/// The values of one parameter of a sweep.
pub fn generate_param_values<A: Arithmetic>(ar: &A, param: &ParameterRange) -> (values: Vec<Real>)
    ensures
        are_values(ar, *param, values@),
{
    let mut values: Vec<Real> = Vec::new();
    match &param.scale {
        ParameterScale::Linear => {
            let mut i: usize = 0;
            while i < param.steps
                invariant
                    i <= param.steps,
                    values@.len() == i,
                    forall|k: int|
                        0 <= k < i ==> #[trigger] is_linear_value(
                            ar,
                            param.start,
                            param.end,
                            param.steps,
                            k as usize,
                            values@[k],
                        ),
                decreases param.steps - i,
            {
                values.push(linear_value(ar, param.start, param.end, param.steps, i));
                i += 1;
            }
        },
        ParameterScale::Log => {
            let from = ar.ln_real(param.start);
            let to = ar.ln_real(param.end);
            let mut i: usize = 0;
            while i < param.steps
                invariant
                    i <= param.steps,
                    values@.len() == i,
                    forall|k: int|
                        0 <= k < i ==> #[trigger] is_log_value(
                            ar,
                            from,
                            to,
                            param.steps,
                            k as usize,
                            values@[k],
                        ),
                decreases param.steps - i,
            {
                let x = linear_value(ar, from, to, param.steps, i);
                let r = ar.exp_real(x);
                assert(is_log_value(ar, from, to, param.steps, i, r));
                values.push(r);
                i += 1;
            }
            assert(is_real_log(ar, param.start, from) && is_real_log(ar, param.end, to));
        },
        ParameterScale::Custom(listed) => {
            let mut i: usize = 0;
            while i < listed.len()
                invariant
                    i <= listed@.len(),
                    values@ == listed@.take(i as int),
                decreases listed@.len() - i,
            {
                values.push(listed[i]);
                assert(values@ =~= listed@.take(i as int + 1));
                i += 1;
            }
            assert(listed@.take(listed@.len() as int) =~= listed@);
        },
    }
    values
}

/// `axes` holds for each parameter its name and its values.
pub open spec fn are_axes<A: Arithmetic>(
    ar: &A,
    params: Seq<ParameterRange>,
    axes: Seq<(String, Vec<Real>)>,
) -> bool {
    &&& axes.len() == params.len()
    &&& forall|i: int|
        0 <= i < axes.len() ==> (#[trigger] axes[i]).0@ == params[i].name@ && are_values(
            ar,
            params[i],
            axes[i].1@,
        )
}

/// `grid` is the full grid over the values of the parameters: every
/// combination of one value of each, the first parameter turning slowest.
pub open spec fn is_full_grid<A: Arithmetic>(
    ar: &A,
    params: Seq<ParameterRange>,
    grid: Seq<Vec<(String, Real)>>,
) -> bool {
    exists|axes: Seq<(String, Vec<Real>)>| #[trigger]
        are_axes(ar, params, axes) && grid.len() == grid_size(axes, 0) && forall|k: int|
            0 <= k < grid.len() ==> point_view((#[trigger] grid[k])@) == grid_point(axes, 0, k)
}

/// Every combination of the values of the parameters of a sweep.
pub fn generate_full_grid<A: Arithmetic>(ar: &A, params: &Vec<ParameterRange>) -> (grid: Vec<
    Vec<(String, Real)>,
>)
    ensures
        is_full_grid(ar, params@, grid@),
{
    let mut axes: Vec<(String, Vec<Real>)> = Vec::new();
    let mut i: usize = 0;
    while i < params.len()
        invariant
            i <= params@.len(),
            axes@.len() == i,
            forall|k: int|
                0 <= k < i ==> (#[trigger] axes@[k]).0@ == params@[k].name@ && are_values(
                    ar,
                    params@[k],
                    axes@[k].1@,
                ),
        decreases params@.len() - i,
    {
        let values = generate_param_values(ar, &params[i]);
        axes.push((params[i].name.clone(), values));
        i += 1;
    }
    assert(are_axes(ar, params@, axes@));
    full_grid(&axes)
}

} // verus!
