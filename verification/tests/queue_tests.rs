use ffstudio::queue::{JobStatus, TranscodeQueue};

fn new_queue() -> TranscodeQueue {
    TranscodeQueue::default()
}

fn enqueue_one(q: &mut TranscodeQueue, cmd: &str, desc: &str) -> u64 {
    q.add_job(vec![cmd.to_string()], vec![String::new()], desc.to_string())
        .expect("valid job")
}

#[test]
fn snapshot_lists_pending_in_fifo_order() {
    let mut q = new_queue();
    let a = enqueue_one(&mut q, "prog a", "first");
    let b = enqueue_one(&mut q, "prog b", "second");
    let c = enqueue_one(&mut q, "prog c", "third");
    let snap = q.get_queue_status();
    assert_eq!(snap.len(), 3);
    assert_eq!(snap[0].id, a);
    assert_eq!(snap[1].id, b);
    assert_eq!(snap[2].id, c);
    assert!(snap.iter().all(|j| j.status == JobStatus::Queued));
}

#[test]
fn running_never_exceeds_limit() {
    let mut q = new_queue();
    q.set_max_concurrent(2);
    for i in 0..5 {
        enqueue_one(&mut q, "prog", &format!("job {i}"));
        let admitted = q.process_queue();
        assert!(admitted.len() <= 2);
        assert!(q.running.len() <= 2);
    }
    assert_eq!(q.running.len(), 2);
    assert_eq!(q.queue.len(), 3);
}

#[test]
fn snapshot_shows_running_first_without_stage_contents() {
    let mut q = new_queue();
    let a = enqueue_one(&mut q, "prog a", "running one");
    let b = enqueue_one(&mut q, "prog b", "pending one");
    let admitted = q.process_queue();
    assert_eq!(admitted.len(), 1);
    assert_eq!(admitted[0].id, a);
    assert_eq!(admitted[0].status, JobStatus::Running);
    let snap = q.get_queue_status();
    assert_eq!(snap.len(), 2);
    assert_eq!(snap[0].id, a);
    assert_eq!(snap[0].status, JobStatus::Running);
    assert!(snap[0].cmds.is_empty());
    assert!(snap[0].envs.is_empty());
    assert_eq!(snap[1].id, b);
    assert_eq!(snap[1].status, JobStatus::Queued);
    assert_eq!(snap[1].cmds, vec!["prog b".to_string()]);
}

#[test]
fn mismatched_stage_lists_are_rejected_without_a_trace() {
    let mut q = new_queue();
    enqueue_one(&mut q, "prog", "ok");
    let before = q.get_queue_status().len();
    let r = q.add_job(
        vec!["one".to_string(), "two".to_string()],
        vec![String::new()],
        "bad".to_string(),
    );
    assert!(r.is_err());
    assert_eq!(q.get_queue_status().len(), before);
}

#[test]
fn empty_stage_list_is_rejected() {
    let mut q = new_queue();
    let r = q.add_job(Vec::new(), Vec::new(), "empty".to_string());
    assert!(r.is_err());
    assert_eq!(q.get_queue_status().len(), 0);
}

#[test]
fn cancelling_a_pending_job_removes_it_and_repeats_return_false() {
    let mut q = new_queue();
    let a = enqueue_one(&mut q, "prog a", "first");
    let b = enqueue_one(&mut q, "prog b", "second");
    let r = q.cancel_job(b);
    assert!(r.is_some());
    assert!(r.unwrap().is_empty());
    let snap = q.get_queue_status();
    assert_eq!(snap.len(), 1);
    assert_eq!(snap[0].id, a);
    assert!(q.cancel_job(b).is_none());
}

#[test]
fn cancelling_a_running_job_returns_its_handles_and_frees_the_slot() {
    let mut q = new_queue();
    let a = enqueue_one(&mut q, "prog a", "first");
    let b = enqueue_one(&mut q, "prog b", "second");
    let admitted = q.process_queue();
    assert_eq!(admitted.len(), 1);
    assert!(q.add_handle(a, 101));
    assert!(q.add_handle(a, 102));
    let handles = q.cancel_job(a).expect("job was running");
    assert_eq!(handles, vec![101, 102]);
    assert_eq!(q.running.len(), 0);
    let admitted = q.process_queue();
    assert_eq!(admitted.len(), 1);
    assert_eq!(admitted[0].id, b);
    assert_eq!(q.running.len(), 1);
}

#[test]
fn cancel_all_clears_both_collections_and_reports_every_handle() {
    let mut q = new_queue();
    let a = enqueue_one(&mut q, "prog a", "first");
    enqueue_one(&mut q, "prog b", "second");
    enqueue_one(&mut q, "prog c", "third");
    q.process_queue();
    q.add_handle(a, 7);
    q.add_handle(a, 8);
    let (count, handles) = q.cancel_all_jobs();
    assert_eq!(count, 3);
    assert_eq!(handles, vec![7, 8]);
    assert!(q.get_queue_status().is_empty());
}

#[test]
fn raising_the_limit_admits_pending_jobs_without_another_event() {
    let mut q = new_queue();
    for i in 0..4 {
        enqueue_one(&mut q, "prog", &format!("job {i}"));
    }
    let admitted = q.process_queue();
    assert_eq!(admitted.len(), 1);
    q.set_max_concurrent(3);
    let admitted = q.process_queue();
    assert_eq!(admitted.len(), 2);
    assert_eq!(q.running.len(), 3);
    assert_eq!(q.queue.len(), 1);
}

#[test]
fn single_clean_job_completes_and_leaves_nothing_running() {
    let mut q = new_queue();
    assert_eq!(q.get_max_concurrent(), 1);
    let id = enqueue_one(&mut q, "prog", "quick job");
    let admitted = q.process_queue();
    assert_eq!(admitted.len(), 1);
    q.add_handle(id, 1);
    // the stage exits immediately with status 0 and wrote no diagnostics
    assert!(q.note_stage_exit(id, true));
    let status = q.finish_job(id).expect("job was running");
    assert_eq!(status, JobStatus::Completed);
    assert_eq!(ffstudio::queue::status_label(status), "completed");
    assert!(q.get_queue_status().is_empty());
}

#[test]
fn second_job_waits_until_the_first_reaches_a_terminal_state() {
    let mut q = new_queue();
    let a = enqueue_one(&mut q, "prog a", "first");
    let b = enqueue_one(&mut q, "prog b", "second");
    q.process_queue();
    let snap = q.get_queue_status();
    assert_eq!(snap[0].id, a);
    assert_eq!(snap[0].status, JobStatus::Running);
    assert_eq!(snap[1].id, b);
    assert_eq!(snap[1].status, JobStatus::Queued);
    // first job exits cleanly; the completion watcher re-runs admission
    q.note_stage_exit(a, true);
    assert_eq!(q.finish_job(a), Some(JobStatus::Completed));
    let admitted = q.process_queue();
    assert_eq!(admitted.len(), 1);
    assert_eq!(admitted[0].id, b);
    let snap = q.get_queue_status();
    assert_eq!(snap.len(), 1);
    assert_eq!(snap[0].id, b);
    assert_eq!(snap[0].status, JobStatus::Running);
}

#[test]
fn error_line_forces_failure_despite_clean_exits() {
    let mut q = new_queue();
    let id = enqueue_one(&mut q, "prog", "doomed");
    q.process_queue();
    assert!(q.note_diagnostic_line(id, "path: No Such FILE or Directory"));
    // every stage still exits with status 0
    q.note_stage_exit(id, true);
    assert_eq!(q.finish_job(id), Some(JobStatus::Failed));
}

#[test]
fn nonzero_exit_alone_fails_the_job() {
    let mut q = new_queue();
    let id = enqueue_one(&mut q, "prog", "crasher");
    q.process_queue();
    assert!(!q.note_diagnostic_line(id, "frame=  10 fps=0.0"));
    q.note_stage_exit(id, false);
    assert_eq!(q.finish_job(id), Some(JobStatus::Failed));
}

#[test]
fn job_ids_are_fresh_and_monotonic() {
    let mut q = new_queue();
    let a = enqueue_one(&mut q, "prog", "one");
    let b = enqueue_one(&mut q, "prog", "two");
    assert!(b > a);
    q.cancel_job(a);
    let c = enqueue_one(&mut q, "prog", "three");
    assert!(c > b);
}

#[test]
fn a_job_finishes_at_most_once() {
    let mut q = new_queue();
    let id = enqueue_one(&mut q, "prog", "once");
    q.process_queue();
    assert_eq!(q.finish_job(id), Some(JobStatus::Completed));
    assert_eq!(q.finish_job(id), None);
}

#[test]
fn unknown_ids_are_quiet_no_ops() {
    let mut q = new_queue();
    enqueue_one(&mut q, "prog", "real");
    assert!(q.cancel_job(999).is_none());
    assert!(!q.add_handle(999, 1));
    assert!(!q.note_stage_exit(999, false));
    assert_eq!(q.finish_job(999), None);
    assert_eq!(q.get_queue_status().len(), 1);
}

#[test]
fn set_max_concurrent_enforces_a_floor_of_one() {
    let mut q = new_queue();
    q.set_max_concurrent(0);
    assert_eq!(q.get_max_concurrent(), 1);
    q.set_max_concurrent(4);
    assert_eq!(q.get_max_concurrent(), 4);
}
