//! The job queue: pending jobs admitted in FIFO order into a running set whose
//! size never exceeds the concurrency limit.
//!
//! The queue is a pure state machine. Everything that touches the operating
//! system — spawning the stage processes, killing them on cancellation,
//! reading their diagnostic streams — is done by the host program, which
//! reports outcomes back through the methods here. Process handles appear in
//! the model only as opaque tokens chosen by the host.

use vstd::prelude::*;

verus! {

/// Lifecycle of a job: `Queued -> Running -> {Completed | Failed}`, or
/// cancellation out of either non-terminal state.
#[derive(Clone, Copy, Debug, PartialEq, Eq, Structural)]
pub enum JobStatus {
    Queued,
    Running,
    Completed,
    Failed,
    Cancelled,
}

/// The one synchronous enqueue failure: the stage lists are malformed.
#[derive(Clone, Copy, Debug, PartialEq, Eq, Structural)]
pub enum EnqueueError {
    InvalidJob,
}

/// A queued unit of work: an ordered list of stage commands, one environment
/// block per stage, and a display description.
#[derive(Debug)]
pub struct TranscodeJob {
    pub id: u64,
    pub desc: String,
    pub cmds: Vec<String>,
    pub envs: Vec<String>,
    pub status: JobStatus,
}

/// The execution-time projection of a job: same identity, plus the opaque
/// process-handle tokens of its stages and the monotonic error flag.
#[derive(Debug)]
pub struct RunningJob {
    pub id: u64,
    pub desc: String,
    pub handles: Vec<u64>,
    pub error: bool,
}

/// Mathematical image of a [`TranscodeJob`].
#[verifier::ext_equal]
pub ghost struct JobModel {
    pub id: u64,
    pub desc: Seq<char>,
    pub cmds: Seq<Seq<char>>,
    pub envs: Seq<Seq<char>>,
    pub status: JobStatus,
}

/// Mathematical image of a [`RunningJob`].
#[verifier::ext_equal]
pub ghost struct RunModel {
    pub id: u64,
    pub desc: Seq<char>,
    pub handles: Seq<u64>,
    pub error: bool,
}

/// Mathematical image of the whole queue.
#[verifier::ext_equal]
pub ghost struct QueueModel {
    pub pending: Seq<JobModel>,
    pub running: Seq<RunModel>,
    pub max_concurrent: int,
    pub counter: u64,
}

impl View for TranscodeJob {
    type V = JobModel;

    open spec fn view(&self) -> JobModel {
        JobModel {
            id: self.id,
            desc: self.desc@,
            cmds: self.cmds.deep_view(),
            envs: self.envs.deep_view(),
            status: self.status,
        }
    }
}

impl View for RunningJob {
    type V = RunModel;

    open spec fn view(&self) -> RunModel {
        RunModel { id: self.id, desc: self.desc@, handles: self.handles@, error: self.error }
    }
}

/// The scheduler state: FIFO pending jobs, bounded running set, concurrency
/// limit (at least 1), and the id counter from which job ids are assigned.
pub struct TranscodeQueue {
    pub queue: std::collections::VecDeque<TranscodeJob>,
    pub running: Vec<RunningJob>,
    pub max_concurrent: usize,
    pub job_counter: u64,
}

impl View for TranscodeQueue {
    type V = QueueModel;

    open spec fn view(&self) -> QueueModel {
        QueueModel {
            pending: self.queue@.map_values(|j: TranscodeJob| j@),
            running: self.running@.map_values(|r: RunningJob| r@),
            max_concurrent: self.max_concurrent as int,
            counter: self.job_counter,
        }
    }
}

impl QueueModel {
    /// Job ids are pairwise distinct, within and across the two collections.
    /// This is all the queue operations themselves depend on.
    pub open spec fn ids_unique(self) -> bool {
        &&& forall|i: int, j: int|
            0 <= i < j < self.pending.len() ==> self.pending[i].id != self.pending[j].id
        &&& forall|i: int, j: int|
            0 <= i < j < self.running.len() ==> self.running[i].id != self.running[j].id
        &&& forall|i: int, j: int|
            0 <= i < self.pending.len() && 0 <= j < self.running.len() ==> self.pending[i].id
                != self.running[j].id
    }

    /// Well-formedness: the limit is positive, the running set respects it,
    /// ids are pairwise distinct, no id exceeds the counter, and every pending
    /// job is still marked `Queued`.
    pub open spec fn wf(self) -> bool {
        &&& self.max_concurrent >= 1
        &&& self.running.len() <= self.max_concurrent
        &&& self.ids_unique()
        &&& forall|i: int|
            0 <= i < self.pending.len() ==> 1 <= #[trigger] self.pending[i].id <= self.counter
        &&& forall|i: int|
            0 <= i < self.running.len() ==> 1 <= #[trigger] self.running[i].id <= self.counter
        &&& forall|i: int|
            0 <= i < self.pending.len() ==> #[trigger] self.pending[i].status == JobStatus::Queued
    }
}

/// Stage lists are acceptable when they pair up and name at least one stage.
pub open spec fn enqueue_ok(cmds: Seq<Seq<char>>, envs: Seq<Seq<char>>) -> bool {
    cmds.len() == envs.len() && cmds.len() >= 1
}

/// The job a successful enqueue appends: next id, status `Queued`.
pub open spec fn enqueued_job(
    m: QueueModel,
    cmds: Seq<Seq<char>>,
    envs: Seq<Seq<char>>,
    desc: Seq<char>,
) -> JobModel {
    JobModel {
        id: (m.counter + 1) as u64,
        desc: desc,
        cmds: cmds,
        envs: envs,
        status: JobStatus::Queued,
    }
}

/// Successful enqueue: bump the counter and append the new job at the back of
/// the pending list. Nothing else moves.
pub open spec fn spec_enqueue(
    m: QueueModel,
    cmds: Seq<Seq<char>>,
    envs: Seq<Seq<char>>,
    desc: Seq<char>,
) -> QueueModel {
    QueueModel {
        pending: m.pending.push(enqueued_job(m, cmds, envs, desc)),
        counter: (m.counter + 1) as u64,
        ..m
    }
}

/// Concurrency-limit update: the new limit is `max(n, 1)`.
pub open spec fn spec_set_max(m: QueueModel, n: int) -> QueueModel {
    QueueModel { max_concurrent: if n >= 1 { n } else { 1 }, ..m }
}

/// The running-set entry a job receives on admission: no handles yet, error
/// flag clear.
pub open spec fn run_of(j: JobModel) -> RunModel {
    RunModel { id: j.id, desc: j.desc, handles: Seq::empty(), error: false }
}

/// A job as it leaves the pending list: same contents, status `Running`.
pub open spec fn admitted_job(j: JobModel) -> JobModel {
    JobModel { status: JobStatus::Running, ..j }
}

/// How many jobs one admission pass moves: as many as there are both free
/// slots and pending jobs.
pub open spec fn admit_count(m: QueueModel) -> int {
    let slots = m.max_concurrent - m.running.len();
    if slots <= 0 {
        0
    } else if slots <= m.pending.len() {
        slots
    } else {
        m.pending.len() as int
    }
}

/// The admission step, run to quiescence: while a slot is free and a job is
/// pending, the front pending job moves into the running set.
pub open spec fn spec_admit(m: QueueModel) -> QueueModel
    decreases m.pending.len(),
{
    if m.running.len() < m.max_concurrent && m.pending.len() > 0 {
        spec_admit(
            QueueModel {
                pending: m.pending.drop_first(),
                running: m.running.push(run_of(m.pending[0])),
                ..m
            },
        )
    } else {
        m
    }
}

/// Whether some pending job carries this id.
pub open spec fn has_pending(m: QueueModel, id: u64) -> bool {
    exists|i: int| 0 <= i < m.pending.len() && m.pending[i].id == id
}

/// The position of the pending job with this id (meaningful only under
/// `has_pending`; unique under `wf`).
pub open spec fn pending_idx(m: QueueModel, id: u64) -> int {
    choose|i: int| 0 <= i < m.pending.len() && m.pending[i].id == id
}

/// Whether some running job carries this id.
pub open spec fn has_running(m: QueueModel, id: u64) -> bool {
    exists|i: int| 0 <= i < m.running.len() && m.running[i].id == id
}

/// The position of the running job with this id (meaningful only under
/// `has_running`; unique under `wf`).
pub open spec fn running_idx(m: QueueModel, id: u64) -> int {
    choose|i: int| 0 <= i < m.running.len() && m.running[i].id == id
}

/// Under `wf`, any pending position holding `id` is THE pending position.
pub proof fn lemma_pending_idx_is(m: QueueModel, id: u64, i: int)
    requires
        m.ids_unique(),
        0 <= i < m.pending.len(),
        m.pending[i].id == id,
    ensures
        has_pending(m, id),
        pending_idx(m, id) == i,
{
    assert(has_pending(m, id));
    let j = pending_idx(m, id);
    assert(0 <= j < m.pending.len() && m.pending[j].id == id);
    if i < j {
        assert(m.pending[i].id != m.pending[j].id);
    } else if j < i {
        assert(m.pending[j].id != m.pending[i].id);
    }
}

/// Under `wf`, any running position holding `id` is THE running position.
pub proof fn lemma_running_idx_is(m: QueueModel, id: u64, i: int)
    requires
        m.ids_unique(),
        0 <= i < m.running.len(),
        m.running[i].id == id,
    ensures
        has_running(m, id),
        running_idx(m, id) == i,
{
    assert(has_running(m, id));
    let j = running_idx(m, id);
    assert(0 <= j < m.running.len() && m.running[j].id == id);
    if i < j {
        assert(m.running[i].id != m.running[j].id);
    } else if j < i {
        assert(m.running[j].id != m.running[i].id);
    }
}

/// How a running job appears to observers: identity and status only, stage
/// contents omitted.
pub open spec fn running_view(r: RunModel) -> JobModel {
    JobModel {
        id: r.id,
        desc: r.desc,
        cmds: Seq::empty(),
        envs: Seq::empty(),
        status: JobStatus::Running,
    }
}

/// The observable queue state: running jobs first, then pending jobs in FIFO
/// order.
pub open spec fn spec_snapshot(m: QueueModel) -> Seq<JobModel> {
    m.running.map_values(|r: RunModel| running_view(r)) + m.pending
}

/// Cancellation: a pending job is removed outright; a running job leaves the
/// running set (the host kills its handles); an unknown id changes nothing.
pub open spec fn spec_cancel(m: QueueModel, id: u64) -> QueueModel {
    if has_pending(m, id) {
        QueueModel { pending: m.pending.remove(pending_idx(m, id)), ..m }
    } else if has_running(m, id) {
        QueueModel { running: m.running.remove(running_idx(m, id)), ..m }
    } else {
        m
    }
}

/// Every process handle of the running set, front to back.
pub open spec fn all_handles(rs: Seq<RunModel>) -> Seq<u64>
    decreases rs.len(),
{
    if rs.len() == 0 {
        Seq::empty()
    } else {
        rs[0].handles + all_handles(rs.drop_first())
    }
}

/// Full cancellation: both collections empty, limit and counter untouched.
pub open spec fn spec_cancel_all(m: QueueModel) -> QueueModel {
    QueueModel { pending: Seq::empty(), running: Seq::empty(), ..m }
}

/// Raise the error flag of the running job with this id, if present. The
/// flag is monotonic: no transition ever clears it.
pub open spec fn spec_flag_error(m: QueueModel, id: u64) -> QueueModel {
    if has_running(m, id) {
        let i = running_idx(m, id);
        QueueModel { running: m.running.update(i, RunModel { error: true, ..m.running[i] }), ..m }
    } else {
        m
    }
}

/// Record one more spawned stage handle on the running job with this id.
pub open spec fn spec_add_handle(m: QueueModel, id: u64, h: u64) -> QueueModel {
    if has_running(m, id) {
        let i = running_idx(m, id);
        QueueModel {
            running: m.running.update(
                i,
                RunModel { handles: m.running[i].handles.push(h), ..m.running[i] },
            ),
            ..m
        }
    } else {
        m
    }
}

/// A finished job leaves the running set; its terminal status is decided by
/// the error flag alone.
pub open spec fn spec_finish(m: QueueModel, id: u64) -> QueueModel {
    if has_running(m, id) {
        QueueModel { running: m.running.remove(running_idx(m, id)), ..m }
    } else {
        m
    }
}

/// What one admission pass does, in closed form: the first `admit_count(m)`
/// pending jobs move, in order, to the back of the running set.
pub proof fn lemma_spec_admit(m: QueueModel)
    ensures
        spec_admit(m).pending =~= m.pending.skip(admit_count(m)),
        spec_admit(m).running =~= m.running + m.pending.take(admit_count(m)).map_values(|j: JobModel| run_of(j)),
        spec_admit(m).max_concurrent == m.max_concurrent,
        spec_admit(m).counter == m.counter,
    decreases m.pending.len(),
{
    if m.running.len() < m.max_concurrent && m.pending.len() > 0 {
        let m2 = QueueModel {
            pending: m.pending.drop_first(),
            running: m.running.push(run_of(m.pending[0])),
            ..m
        };
        lemma_spec_admit(m2);
        assert(admit_count(m2) == admit_count(m) - 1);
        assert(m2.pending.skip(admit_count(m2)) =~= m.pending.skip(admit_count(m)));
        assert(m2.running + m2.pending.take(admit_count(m2)).map_values(|j: JobModel| run_of(j)) =~= m.running
            + m.pending.take(admit_count(m)).map_values(|j: JobModel| run_of(j)));
    }
}

/// Admission preserves well-formedness.
pub proof fn lemma_admit_wf(m: QueueModel)
    requires
        m.wf(),
    ensures
        spec_admit(m).wf(),
    decreases m.pending.len(),
{
    if m.running.len() < m.max_concurrent && m.pending.len() > 0 {
        let m2 = QueueModel {
            pending: m.pending.drop_first(),
            running: m.running.push(run_of(m.pending[0])),
            ..m
        };
        assert(m2.wf());
        lemma_admit_wf(m2);
    }
}

impl Default for TranscodeQueue {
    /// An empty queue with a concurrency limit of one.
    fn default() -> (q: TranscodeQueue)
        ensures
            q@.pending =~= Seq::<JobModel>::empty(),
            q@.running =~= Seq::<RunModel>::empty(),
            q@.max_concurrent == 1,
            q@.counter == 0,
            q@.wf(),
    {
        TranscodeQueue {
            queue: std::collections::VecDeque::new(),
            running: Vec::new(),
            max_concurrent: 1,
            job_counter: 0,
        }
    }
}

impl TranscodeQueue {
    /// Enqueue a job made of `cmds[i]` run under environment block `envs[i]`.
    /// A mismatched or empty stage list is rejected as `InvalidJob` and the
    /// queue is left exactly as it was — whatever the id counter holds;
    /// otherwise the job is appended at the back of the pending list and its
    /// fresh id is returned, which asks for headroom on the counter.
    pub fn add_job(&mut self, cmds: Vec<String>, envs: Vec<String>, desc: String) -> (r: Result<
        u64,
        EnqueueError,
    >)
        requires
            enqueue_ok(cmds.deep_view(), envs.deep_view()) ==> old(self).job_counter < u64::MAX,
        ensures
            enqueue_ok(cmds.deep_view(), envs.deep_view()) ==> {
                &&& r == Ok::<u64, EnqueueError>((old(self)@.counter + 1) as u64)
                &&& final(self)@ == spec_enqueue(old(self)@, cmds.deep_view(), envs.deep_view(), desc@)
            },
            !enqueue_ok(cmds.deep_view(), envs.deep_view()) ==> {
                &&& r == Err::<u64, EnqueueError>(EnqueueError::InvalidJob)
                &&& final(self)@ == old(self)@
            },
    {
        if cmds.len() != envs.len() || cmds.len() == 0 {
            return Err(EnqueueError::InvalidJob);
        }
        proof {
            assert(enqueue_ok(cmds.deep_view(), envs.deep_view()));
        }
        let ghost cspec = cmds.deep_view();
        let ghost espec = envs.deep_view();
        let ghost dspec = desc@;
        self.job_counter = self.job_counter + 1;
        let job = TranscodeJob {
            id: self.job_counter,
            desc: desc,
            cmds: cmds,
            envs: envs,
            status: JobStatus::Queued,
        };
        self.queue.push_back(job);
        assert(self@.pending =~= spec_enqueue(old(self)@, cspec, espec, dspec).pending);
        Ok(self.job_counter)
    }

    /// The current concurrency limit.
    pub fn get_max_concurrent(&self) -> (n: usize)
        ensures
            n as int == self@.max_concurrent,
    {
        self.max_concurrent
    }

    /// Set the concurrency limit to `max(n, 1)`. Admission of newly allowed
    /// jobs is a separate step: call [`Self::process_queue`] afterwards.
    pub fn set_max_concurrent(&mut self, n: usize)
        ensures
            final(self)@ == spec_set_max(old(self)@, n as int),
    {
        self.max_concurrent = if n >= 1 {
            n
        } else {
            1
        };
    }

    /// The scheduling step: move pending jobs into the running set, strictly
    /// front first, while a concurrency slot is free. Returns the admitted
    /// jobs (stage contents included) so the host can realize each one as a
    /// process chain. A call with no free slot or no pending job is a no-op.
    pub fn process_queue(&mut self) -> (admitted: Vec<TranscodeJob>)
        ensures
            final(self)@ == spec_admit(old(self)@),
            admitted@.len() == admit_count(old(self)@),
            forall|i: int|
                0 <= i < admitted@.len() ==> #[trigger] admitted@[i]@ == admitted_job(
                    old(self)@.pending[i],
                ),
    {
        let ghost m0 = self@;
        let mut admitted: Vec<TranscodeJob> = Vec::new();
        loop
            invariant
                admitted@.len() <= m0.pending.len(),
                self@.max_concurrent == m0.max_concurrent,
                self@.counter == m0.counter,
                m0.running.len() + admitted@.len() == self@.running.len(),
                self@.running.len() <= m0.max_concurrent || admitted@.len() == 0,
                self@.pending =~= m0.pending.skip(admitted@.len() as int),
                self@.running =~= m0.running + m0.pending.take(
                    admitted@.len() as int,
                ).map_values(|j: JobModel| run_of(j)),
                forall|i: int|
                    0 <= i < admitted@.len() ==> #[trigger] admitted@[i]@ == admitted_job(
                        m0.pending[i],
                    ),
            ensures
                !(self.running.len() < self.max_concurrent && self.queue.len() > 0),
            decreases m0.pending.len() - admitted@.len(),
        {
            if !(self.running.len() < self.max_concurrent && self.queue.len() > 0) {
                break ;
            }
            let ghost k = admitted@.len() as int;
            let ghost pend_before = self@.pending;
            let ghost run_before = self@.running;
            proof {
                assert(k < m0.pending.len()) by {
                    assert(self.queue@.len() > 0);
                    assert(self@.pending.len() == self.queue@.len());
                    assert(self@.pending =~= m0.pending.skip(k));
                    assert(m0.pending.skip(k).len() == m0.pending.len() - k);
                }
                assert(pend_before[0] == m0.pending[k]);
            }
            let mut job = self.queue.pop_front().unwrap();
            proof {
                assert(job@ == m0.pending[k]);
                assert(self@.pending =~= pend_before.drop_first());
                assert(self@.pending =~= m0.pending.skip(k + 1));
            }
            let ghost j0 = job@;
            job.status = JobStatus::Running;
            let entry = RunningJob {
                id: job.id,
                desc: job.desc.clone(),
                handles: Vec::new(),
                error: false,
            };
            proof {
                assert(entry@ =~= run_of(m0.pending[k]));
            }
            self.running.push(entry);
            admitted.push(job);
            proof {
                assert(job@ =~= admitted_job(j0));
                assert(self@.running =~= run_before.push(run_of(m0.pending[k])));
                assert(m0.pending.take(k + 1).map_values(|j: JobModel| run_of(j)) =~= m0.pending.take(
                    k,
                ).map_values(|j: JobModel| run_of(j)).push(run_of(m0.pending[k])));
                assert(self@.running =~= m0.running + m0.pending.take(k + 1).map_values(
                    |j: JobModel| run_of(j),
                ));
            }
        }
        proof {
            let k = admitted@.len() as int;
            assert(admit_count(m0) == k);
            lemma_spec_admit(m0);
            assert(self@ =~= spec_admit(m0));
        }
        admitted
    }

    /// Find the position of a running job by id: `Some` exactly when the id is
    /// in the running set.
    fn find_running(&self, job_id: u64) -> (pos: Option<usize>)
        ensures
            pos matches Some(i) ==> 0 <= i < self@.running.len() && self@.running[i as int].id
                == job_id,
            pos is None ==> !has_running(self@, job_id),
    {
        let mut i: usize = 0;
        while i < self.running.len()
            invariant
                i <= self@.running.len(),
                forall|k: int| 0 <= k < i ==> (#[trigger] self@.running[k]).id != job_id,
            decreases self@.running.len() - i,
        {
            if self.running[i].id == job_id {
                return Some(i);
            }
            i = i + 1;
        }
        None
    }

    /// The observable queue state: a view of every running job (stage contents
    /// omitted) followed by every pending job, in FIFO order.
    pub fn get_queue_status(&self) -> (r: Vec<TranscodeJob>)
        ensures
            r@.len() == spec_snapshot(self@).len(),
            forall|i: int| 0 <= i < r@.len() ==> #[trigger] r@[i]@ == spec_snapshot(self@)[i],
    {
        let ghost snap = spec_snapshot(self@);
        let nrun = self.running.len();
        let mut r: Vec<TranscodeJob> = Vec::new();
        let mut i: usize = 0;
        while i < self.running.len()
            invariant
                i <= self@.running.len(),
                r@.len() == i,
                snap == spec_snapshot(self@),
                forall|k: int| 0 <= k < i ==> #[trigger] r@[k]@ == snap[k],
            decreases self@.running.len() - i,
        {
            let rj = &self.running[i];
            let view = TranscodeJob {
                id: rj.id,
                desc: rj.desc.clone(),
                cmds: Vec::new(),
                envs: Vec::new(),
                status: JobStatus::Running,
            };
            proof {
                assert(view@ =~= running_view(self@.running[i as int]));
            }
            r.push(view);
            i = i + 1;
        }
        let mut j: usize = 0;
        while j < self.queue.len()
            invariant
                j <= self@.pending.len(),
                nrun == self@.running.len(),
                r@.len() == nrun + j,
                snap == spec_snapshot(self@),
                forall|k: int| 0 <= k < r@.len() ==> #[trigger] r@[k]@ == snap[k],
            decreases self@.pending.len() - j,
        {
            let job = &self.queue[j];
            let copy = TranscodeJob {
                id: job.id,
                desc: job.desc.clone(),
                cmds: clone_string_vec(&job.cmds),
                envs: clone_string_vec(&job.envs),
                status: job.status,
            };
            proof {
                assert(copy@ =~= self@.pending[j as int]);
            }
            r.push(copy);
            j = j + 1;
        }
        r
    }

    /// Cancel a job. A pending job is simply removed; a running job leaves
    /// the running set and its stage handles are returned so the host can
    /// terminate every one of them. `None` means the id was not found (the
    /// job is already terminal or unknown) and nothing changed.
    pub fn cancel_job(&mut self, job_id: u64) -> (r: Option<Vec<u64>>)
        requires
            old(self)@.ids_unique(),
        ensures
            final(self)@ == spec_cancel(old(self)@, job_id),
            r is Some <==> has_pending(old(self)@, job_id) || has_running(old(self)@, job_id),
            has_pending(old(self)@, job_id) ==> (r matches Some(v) && v@ == Seq::<u64>::empty()),
            !has_pending(old(self)@, job_id) && has_running(old(self)@, job_id) ==> (
            r matches Some(v) && v@ == old(self)@.running[running_idx(old(self)@, job_id)].handles),
    {
        let ghost m0 = self@;
        let mut i: usize = 0;
        while i < self.queue.len()
            invariant
                self@ == m0,
                m0 == old(self)@,
                m0.ids_unique(),
                i <= m0.pending.len(),
                forall|k: int| 0 <= k < i ==> (#[trigger] m0.pending[k]).id != job_id,
            decreases m0.pending.len() - i,
        {
            if self.queue[i].id == job_id {
                proof {
                    lemma_pending_idx_is(m0, job_id, i as int);
                }
                let _ = self.queue.remove(i);
                proof {
                    assert(self@.pending =~= m0.pending.remove(i as int));
                    assert(self@ =~= spec_cancel(m0, job_id));
                }
                return Some(Vec::new());
            }
            i = i + 1;
        }
        assert(!has_pending(m0, job_id));
        match self.find_running(job_id) {
            Some(pos) => {
                proof {
                    lemma_running_idx_is(m0, job_id, pos as int);
                }
                let job = self.running.remove(pos);
                proof {
                    assert(self@.running =~= m0.running.remove(pos as int));
                    assert(self@ =~= spec_cancel(m0, job_id));
                }
                Some(job.handles)
            },
            None => {
                assert(self@ =~= spec_cancel(m0, job_id));
                None
            },
        }
    }

    /// Cancel everything: the pending list is cleared and every running job's
    /// handles are returned for the host to terminate. Returns how many jobs
    /// were cancelled together with those handles.
    pub fn cancel_all_jobs(&mut self) -> (r: (usize, Vec<u64>))
        requires
            old(self)@.pending.len() + old(self)@.running.len() <= usize::MAX,
        ensures
            final(self)@ == spec_cancel_all(old(self)@),
            r.0 == old(self)@.pending.len() + old(self)@.running.len(),
            r.1@ == all_handles(old(self)@.running),
    {
        let ghost m0 = self@;
        let count = self.queue.len() + self.running.len();
        let mut handles: Vec<u64> = Vec::new();
        proof {
            assert(m0.running.skip(0) =~= m0.running);
            assert(Seq::<u64>::empty() + all_handles(m0.running) =~= all_handles(m0.running));
        }
        let mut i: usize = 0;
        while i < self.running.len()
            invariant
                self@ == m0,
                i <= m0.running.len(),
                all_handles(m0.running) =~= handles@ + all_handles(m0.running.skip(i as int)),
            decreases m0.running.len() - i,
        {
            let ghost pre = handles@;
            let nh = self.running[i].handles.len();
            let mut j: usize = 0;
            while j < nh
                invariant
                    self@ == m0,
                    i < m0.running.len(),
                    nh == m0.running[i as int].handles.len(),
                    j <= nh,
                    handles@ =~= pre + m0.running[i as int].handles.take(j as int),
                decreases nh - j,
            {
                let h = self.running[i].handles[j];
                handles.push(h);
                proof {
                    assert(m0.running[i as int].handles.take(j + 1) =~= m0.running[i as int].handles.take(j as int).push(h));
                }
                j = j + 1;
            }
            proof {
                assert(m0.running[i as int].handles.take(nh as int) =~= m0.running[i as int].handles);
                let rest = m0.running.skip(i as int);
                assert(rest[0] == m0.running[i as int]);
                assert(rest.drop_first() =~= m0.running.skip(i + 1));
                assert(all_handles(rest) == rest[0].handles + all_handles(rest.drop_first()));
                assert(all_handles(m0.running) =~= handles@ + all_handles(
                    m0.running.skip(i + 1),
                ));
            }
            i = i + 1;
        }
        proof {
            assert(m0.running.skip(m0.running.len() as int) =~= Seq::<RunModel>::empty());
            assert(all_handles(m0.running) =~= handles@);
        }
        self.queue.clear();
        self.running.clear();
        proof {
            assert(self@ =~= spec_cancel_all(m0));
        }
        (count, handles)
    }

    /// Raise the error flag of a running job. Returns whether the id was
    /// found. The flag is monotonic: nothing ever clears it.
    pub fn flag_error(&mut self, job_id: u64) -> (found: bool)
        requires
            old(self)@.ids_unique(),
        ensures
            final(self)@ == spec_flag_error(old(self)@, job_id),
            found == has_running(old(self)@, job_id),
    {
        let ghost m0 = self@;
        match self.find_running(job_id) {
            Some(pos) => {
                proof {
                    lemma_running_idx_is(m0, job_id, pos as int);
                }
                let mut job = self.running.remove(pos);
                job.error = true;
                self.running.insert(pos, job);
                proof {
                    assert(self@.running =~= spec_flag_error(m0, job_id).running);
                    assert(self@ =~= spec_flag_error(m0, job_id));
                }
                true
            },
            None => {
                assert(self@ =~= spec_flag_error(m0, job_id));
                false
            },
        }
    }

    /// Record one classified diagnostic line of a running job: a line that
    /// matches the error vocabulary raises the job's error flag, any other
    /// line changes nothing. Returns whether the line matched. Forwarding the
    /// line verbatim to observers is the host's business.
    pub fn note_diagnostic_line(&mut self, job_id: u64, line: &str) -> (is_err: bool)
        requires
            old(self)@.ids_unique(),
        ensures
            is_err == crate::classifier::is_error_line_spec(line@),
            is_err ==> final(self)@ == spec_flag_error(old(self)@, job_id),
            !is_err ==> final(self)@ == old(self)@,
    {
        if crate::classifier::is_error_line(line) {
            let _ = self.flag_error(job_id);
            true
        } else {
            false
        }
    }

    /// Record a stage's exit as observed by the watcher: a non-zero exit
    /// status raises the job's error flag; a clean exit changes nothing.
    pub fn note_stage_exit(&mut self, job_id: u64, exit_ok: bool) -> (found: bool)
        requires
            old(self)@.ids_unique(),
        ensures
            exit_ok ==> final(self)@ == old(self)@,
            !exit_ok ==> final(self)@ == spec_flag_error(old(self)@, job_id),
            found == has_running(old(self)@, job_id),
    {
        if exit_ok {
            self.find_running(job_id).is_some()
        } else {
            self.flag_error(job_id)
        }
    }

    /// Record one spawned stage handle on a running job, in stage order.
    /// Returns whether the id was found.
    pub fn add_handle(&mut self, job_id: u64, handle: u64) -> (found: bool)
        requires
            old(self)@.ids_unique(),
        ensures
            final(self)@ == spec_add_handle(old(self)@, job_id, handle),
            found == has_running(old(self)@, job_id),
    {
        let ghost m0 = self@;
        match self.find_running(job_id) {
            Some(pos) => {
                proof {
                    lemma_running_idx_is(m0, job_id, pos as int);
                }
                let mut job = self.running.remove(pos);
                job.handles.push(handle);
                self.running.insert(pos, job);
                proof {
                    assert(self@.running =~= spec_add_handle(m0, job_id, handle).running);
                    assert(self@ =~= spec_add_handle(m0, job_id, handle));
                }
                true
            },
            None => {
                assert(self@ =~= spec_add_handle(m0, job_id, handle));
                false
            },
        }
    }

    /// Conclude a running job once every stage has exited: it leaves the
    /// running set, `Failed` if the error flag was ever raised and `Completed`
    /// otherwise. `None` means the id was not running.
    pub fn finish_job(&mut self, job_id: u64) -> (r: Option<JobStatus>)
        requires
            old(self)@.ids_unique(),
        ensures
            final(self)@ == spec_finish(old(self)@, job_id),
            r is Some <==> has_running(old(self)@, job_id),
            has_running(old(self)@, job_id) ==> r == Some(
                if old(self)@.running[running_idx(old(self)@, job_id)].error {
                    JobStatus::Failed
                } else {
                    JobStatus::Completed
                },
            ),
    {
        let ghost m0 = self@;
        match self.find_running(job_id) {
            Some(pos) => {
                proof {
                    lemma_running_idx_is(m0, job_id, pos as int);
                }
                let job = self.running.remove(pos);
                proof {
                    assert(self@.running =~= m0.running.remove(pos as int));
                    assert(self@ =~= spec_finish(m0, job_id));
                }
                if job.error {
                    Some(JobStatus::Failed)
                } else {
                    Some(JobStatus::Completed)
                }
            },
            None => {
                assert(self@ =~= spec_finish(m0, job_id));
                None
            },
        }
    }
}

/// The status word observers receive; a terminal event carries exactly one of
/// `"completed"`, `"failed"` or `"cancelled"` per job.
pub fn status_label(status: JobStatus) -> (s: &'static str)
    ensures
        status == JobStatus::Queued ==> s@ == "queued"@,
        status == JobStatus::Running ==> s@ == "running"@,
        status == JobStatus::Completed ==> s@ == "completed"@,
        status == JobStatus::Failed ==> s@ == "failed"@,
        status == JobStatus::Cancelled ==> s@ == "cancelled"@,
{
    match status {
        JobStatus::Queued => "queued",
        JobStatus::Running => "running",
        JobStatus::Completed => "completed",
        JobStatus::Failed => "failed",
        JobStatus::Cancelled => "cancelled",
    }
}

/// An element-for-element copy of a list of strings.
fn clone_string_vec(v: &Vec<String>) -> (r: Vec<String>)
    ensures
        r.deep_view() == v.deep_view(),
{
    let mut r: Vec<String> = Vec::new();
    let mut i: usize = 0;
    while i < v.len()
        invariant
            i <= v@.len(),
            r@.len() == i,
            forall|k: int| 0 <= k < i ==> #[trigger] r@[k]@ == v@[k]@,
        decreases v@.len() - i,
    {
        r.push(v[i].clone());
        i = i + 1;
    }
    proof {
        assert(r.deep_view() =~~= v.deep_view());
    }
    r
}

} // verus!
