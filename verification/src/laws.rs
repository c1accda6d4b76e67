//! Queue-wide laws: how the observable state evolves across operations.
//!
//! Each lemma is stated over the ghost transition functions of
//! [`crate::queue`]; the executable methods there tie the running program to
//! those transitions through their postconditions.

use crate::classifier::is_error_line_spec;
use crate::queue::{
    admit_count, enqueued_job, has_pending, has_running, lemma_spec_admit, pending_idx,
    run_of, running_idx, spec_add_handle, spec_admit, spec_cancel, spec_cancel_all,
    spec_enqueue, spec_finish, spec_flag_error, spec_set_max, spec_snapshot, JobModel,
    QueueModel,
};
use crate::text::{lower_seq, seq_contains};
use vstd::prelude::*;

verus! {

/// Enqueueing appends the new job at the back of the snapshot: pending jobs
/// are observed in exactly the order they were enqueued, whatever sequence of
/// enqueue calls produced them.
pub proof fn lemma_enqueue_snapshot_fifo(
    m: QueueModel,
    cmds: Seq<Seq<char>>,
    envs: Seq<Seq<char>>,
    desc: Seq<char>,
)
    ensures
        spec_snapshot(spec_enqueue(m, cmds, envs, desc)) == spec_snapshot(m).push(
            enqueued_job(m, cmds, envs, desc),
        ),
{
    assert(spec_snapshot(spec_enqueue(m, cmds, envs, desc)) =~= spec_snapshot(m).push(
        enqueued_job(m, cmds, envs, desc),
    ));
}

/// Enqueueing preserves well-formedness; in particular the running set — and
/// with it the bound `running.len() <= max_concurrent` — is untouched.
pub proof fn lemma_enqueue_wf(
    m: QueueModel,
    cmds: Seq<Seq<char>>,
    envs: Seq<Seq<char>>,
    desc: Seq<char>,
)
    requires
        m.wf(),
        m.counter < u64::MAX,
    ensures
        spec_enqueue(m, cmds, envs, desc).wf(),
{
    let m2 = spec_enqueue(m, cmds, envs, desc);
    assert(m2.pending[m2.pending.len() - 1].id == m.counter + 1);
    assert(forall|i: int| 0 <= i < m.pending.len() ==> m2.pending[i] == m.pending[i]);
}

/// Admission keeps the bound: it fills free slots but never pushes the
/// running set past the concurrency limit.
pub proof fn lemma_admit_bound(m: QueueModel)
    requires
        m.running.len() <= m.max_concurrent,
    ensures
        spec_admit(m).running.len() <= m.max_concurrent,
        spec_admit(m).max_concurrent == m.max_concurrent,
    decreases m.pending.len(),
{
    if m.running.len() < m.max_concurrent && m.pending.len() > 0 {
        lemma_admit_bound(
            QueueModel {
                pending: m.pending.drop_first(),
                running: m.running.push(run_of(m.pending[0])),
                ..m
            },
        );
    }
}

/// Cancellation removes the id for good: afterwards it is in neither
/// collection, so it no longer appears in any snapshot and a second
/// cancellation of the same id reports that nothing was found.
pub proof fn lemma_cancel_removes_id(m: QueueModel, id: u64)
    requires
        m.ids_unique(),
    ensures
        !has_pending(spec_cancel(m, id), id),
        !has_running(spec_cancel(m, id), id),
        spec_cancel(spec_cancel(m, id), id) == spec_cancel(m, id),
{
    let m2 = spec_cancel(m, id);
    if has_pending(m, id) {
        let i = pending_idx(m, id);
        assert(0 <= i < m.pending.len() && m.pending[i].id == id);
        assert forall|k: int| 0 <= k < m2.pending.len() implies (#[trigger] m2.pending[k]).id
            != id by {
            if k < i {
                assert(m2.pending[k] == m.pending[k]);
            } else {
                assert(m2.pending[k] == m.pending[k + 1]);
            }
        }
    } else if has_running(m, id) {
        let i = running_idx(m, id);
        assert(0 <= i < m.running.len() && m.running[i].id == id);
        assert forall|k: int| 0 <= k < m2.running.len() implies (#[trigger] m2.running[k]).id
            != id by {
            if k < i {
                assert(m2.running[k] == m.running[k]);
            } else {
                assert(m2.running[k] == m.running[k + 1]);
            }
        }
    }
}

/// Cancellation preserves well-formedness.
pub proof fn lemma_cancel_wf(m: QueueModel, id: u64)
    requires
        m.wf(),
    ensures
        spec_cancel(m, id).wf(),
{
    let m2 = spec_cancel(m, id);
    if has_pending(m, id) {
        let i = pending_idx(m, id);
        assert(forall|k: int|
            0 <= k < m2.pending.len() ==> #[trigger] m2.pending[k] == if k < i {
                m.pending[k]
            } else {
                m.pending[k + 1]
            });
    } else if has_running(m, id) {
        let i = running_idx(m, id);
        assert(forall|k: int|
            0 <= k < m2.running.len() ==> #[trigger] m2.running[k] == if k < i {
                m.running[k]
            } else {
                m.running[k + 1]
            });
    }
}

/// Cancelling a running job leaves no trace of it — the host receives every
/// one of its handles to kill and the model keeps none — and the freed slot
/// is backfilled at the next admission step: if the queue was saturated and
/// work was pending, the front pending job is running afterwards, with no
/// other event in between.
pub proof fn lemma_cancel_running_frees_slot(m: QueueModel, id: u64)
    requires
        m.wf(),
        has_running(m, id),
    ensures
        !has_running(spec_cancel(m, id), id),
        spec_cancel(m, id).running.len() == m.running.len() - 1,
        m.running.len() == m.max_concurrent && m.pending.len() > 0 ==> has_running(
            spec_admit(spec_cancel(m, id)),
            m.pending[0].id,
        ),
{
    lemma_cancel_removes_id(m, id);
    let m2 = spec_cancel(m, id);
    assert(!has_pending(m, id)) by {
        if has_pending(m, id) {
            let i = pending_idx(m, id);
            let j = running_idx(m, id);
            assert(m.pending[i].id != m.running[j].id);
        }
    }
    if m.running.len() == m.max_concurrent && m.pending.len() > 0 {
        lemma_spec_admit(m2);
        assert(admit_count(m2) >= 1);
        let after = spec_admit(m2);
        assert(after.running[m2.running.len() as int] == m2.pending.take(admit_count(m2)).map_values(
            |j: JobModel| run_of(j),
        )[0]);
        assert(after.running[m2.running.len() as int] == run_of(m.pending[0]));
        assert(has_running(after, m.pending[0].id));
    }
}

/// Raising the concurrency limit while jobs are pending admits, at the very
/// next admission step, exactly as many extra jobs as there are new slots or
/// pending jobs, whichever runs out first — no other event is needed.
pub proof fn lemma_raise_limit_admits(m: QueueModel, n: int)
    requires
        m.wf(),
        n >= m.max_concurrent,
    ensures
        spec_admit(spec_set_max(m, n)).running.len() == if m.running.len() + m.pending.len() <= n {
            (m.running.len() + m.pending.len()) as int
        } else {
            n as int
        },
        spec_admit(spec_set_max(m, n)).running.len() <= n,
{
    let m1 = spec_set_max(m, n);
    lemma_spec_admit(m1);
}

/// Recording a stage handle preserves well-formedness: it touches one running
/// entry and neither ids nor lengths.
pub proof fn lemma_add_handle_wf(m: QueueModel, id: u64, h: u64)
    requires
        m.wf(),
    ensures
        spec_add_handle(m, id, h).wf(),
{
}

/// Full cancellation leaves a well-formed, empty queue.
pub proof fn lemma_cancel_all_wf(m: QueueModel)
    requires
        m.wf(),
    ensures
        spec_cancel_all(m).wf(),
        spec_cancel_all(m).pending.len() == 0,
        spec_cancel_all(m).running.len() == 0,
{
}

/// Changing the concurrency limit preserves well-formedness as long as the
/// new limit is not pushed below the number of jobs already running; the
/// running set itself is never touched by a limit change.
pub proof fn lemma_set_max_wf(m: QueueModel, n: int)
    requires
        m.wf(),
        m.running.len() <= (if n >= 1 {
            n
        } else {
            1
        }),
    ensures
        spec_set_max(m, n).wf(),
        spec_set_max(m, n).running == m.running,
        spec_set_max(m, n).pending == m.pending,
{
}

/// A diagnostic line that contains `"no such file or directory"` in any
/// letter case matches the error vocabulary.
pub proof fn lemma_no_such_file_is_error(line: Seq<char>)
    requires
        seq_contains(lower_seq(line), "no such file or directory"@),
    ensures
        is_error_line_spec(line),
{
}

/// Once a diagnostic line raises a job's error flag, the flag stays raised:
/// recording a clean stage exit changes nothing at all (the watcher's
/// postconditions), so when every stage has exited — even all with status
/// zero — the job still finishes as `Failed`, never `Completed`.
pub proof fn lemma_flagged_job_fails(m: QueueModel, id: u64)
    requires
        m.ids_unique(),
        has_running(m, id),
    ensures
        has_running(spec_flag_error(m, id), id),
        spec_flag_error(m, id).running[running_idx(spec_flag_error(m, id), id)].error,
{
    let i = running_idx(m, id);
    assert(0 <= i < m.running.len() && m.running[i].id == id);
    let m2 = spec_flag_error(m, id);
    assert(m2.running[i].id == id);
    assert(has_running(m2, id));
    let j = running_idx(m2, id);
    assert(0 <= j < m2.running.len() && m2.running[j].id == id);
    if i != j {
        assert(m2.running[j] == m.running[j]);
        assert(m.running[i].id != m.running[j].id);
    }
}

/// Raising the error flag preserves well-formedness, as does recording a
/// stage handle: both touch one running entry and neither ids nor lengths.
pub proof fn lemma_flag_error_wf(m: QueueModel, id: u64)
    requires
        m.wf(),
    ensures
        spec_flag_error(m, id).wf(),
{
}

/// Finishing a job preserves well-formedness and removes exactly that job
/// from the running set.
pub proof fn lemma_finish_wf(m: QueueModel, id: u64)
    requires
        m.wf(),
    ensures
        spec_finish(m, id).wf(),
        has_running(m, id) ==> spec_finish(m, id).running.len() == m.running.len() - 1,
        !has_running(spec_finish(m, id), id),
{
    let m2 = spec_finish(m, id);
    if has_running(m, id) {
        let i = running_idx(m, id);
        assert(forall|k: int|
            0 <= k < m2.running.len() ==> #[trigger] m2.running[k] == if k < i {
                m.running[k]
            } else {
                m.running[k + 1]
            });
        assert forall|k: int| 0 <= k < m2.running.len() implies (#[trigger] m2.running[k]).id
            != id by {
            if k < i {
                assert(m2.running[k] == m.running[k]);
            } else {
                assert(m2.running[k] == m.running[k + 1]);
            }
        }
    }
}

} // verus!
