//! End-to-end scenarios over the scheduler, the project model and the
//! session machine, run without any transport.

use tinyrf::ext::FileExt;
use tinyrf::project::Project;
use tinyrf::scheduler::ManageOutcome;
use tinyrf::scheduler::Scheduler;
use tinyrf::scheduler::SchedulerEvent;
use tinyrf::scheduler::SchedulerManageMessage;
use tinyrf::scheduler::SchedulerResultMessage;
use tinyrf::session::Connection;
use tinyrf::session::TaskOutcome;
use tinyrf::task::RenderTask;

fn project(uuid: u128, name: &[u8], start: u32, end: u32) -> Project {
    Project::with_uuid(uuid, name.to_vec(), FileExt::PNG, start, end)
}

fn frames(q: &std::collections::VecDeque<u32>) -> Vec<u32> {
    q.iter().copied().collect()
}

fn feed_ok(s: &mut Scheduler, t: RenderTask) -> Option<SchedulerEvent> {
    s.handle_result_msg(SchedulerResultMessage(t, Ok(())))
}

fn feed_err(s: &mut Scheduler, t: RenderTask) -> Option<SchedulerEvent> {
    s.handle_result_msg(SchedulerResultMessage(t, Err(())))
}

#[test]
fn single_project_single_worker() {
    let mut s = Scheduler::new();
    assert_eq!(
        s.handle_manage_msg(SchedulerManageMessage::AddProject(project(1, b"P", 1, 3))),
        ManageOutcome::Added
    );

    let mut seen: Vec<u32> = Vec::new();
    for _ in 0..3 {
        let t = s.next_task().expect("a task should be dispatched");
        assert_eq!(t.project_uuid, 1);
        assert_eq!(t.project_name, b"P".to_vec());
        seen.push(t.frame);
        let ev = feed_ok(&mut s, t);
        if seen.len() == 3 {
            assert_eq!(ev, Some(SchedulerEvent::ProjectFinished));
        } else {
            assert_eq!(ev, None);
        }
    }
    assert_eq!(seen, vec![1, 2, 3]);
    assert!(s.next_task().is_none());

    let p = &s.projects[0];
    assert_eq!(frames(&p.completed_frames), vec![1, 2, 3]);
    assert!(p.waiting_frames.is_empty());
    assert!(p.assigned_frames.is_empty());
    assert!(p.failed_frames.is_empty());
    assert_eq!(p.progress(), (3, 3));
    assert!(p.complete());
}

#[test]
fn two_projects_alternate_fairly() {
    let mut s = Scheduler::new();
    s.handle_manage_msg(SchedulerManageMessage::AddProject(project(0xa, b"A", 1, 4)));
    s.handle_manage_msg(SchedulerManageMessage::AddProject(project(0xb, b"B", 1, 4)));

    let mut order: Vec<(u128, u32)> = Vec::new();
    for _ in 0..8 {
        let t = s.next_task().expect("a task should be dispatched");
        order.push((t.project_uuid, t.frame));
        feed_ok(&mut s, t);
    }
    assert_eq!(
        order,
        vec![
            (0xa, 1),
            (0xb, 1),
            (0xa, 2),
            (0xb, 2),
            (0xa, 3),
            (0xb, 3),
            (0xa, 4),
            (0xb, 4),
        ]
    );
    assert!(s.next_task().is_none());
}

#[test]
fn transient_worker_failure_and_retry() {
    let mut s = Scheduler::new();
    s.handle_manage_msg(SchedulerManageMessage::AddProject(project(7, b"P", 1, 2)));

    // The first worker fails frame 1 and disconnects.
    let t1 = s.next_task().unwrap();
    assert_eq!(t1.frame, 1);
    assert_eq!(feed_err(&mut s, t1), None);

    // A second worker completes frame 2; the failure is now operator-visible.
    let t2 = s.next_task().unwrap();
    assert_eq!(t2.frame, 2);
    assert_eq!(feed_ok(&mut s, t2), None);
    assert!(s.next_task().is_none());
    {
        let p = &s.projects[0];
        assert_eq!(frames(&p.failed_frames), vec![1]);
        assert_eq!(frames(&p.completed_frames), vec![2]);
        assert!(p.assigned_frames.is_empty());
    }

    // Retry the failed frames and let the worker finish.
    assert_eq!(
        s.handle_manage_msg(SchedulerManageMessage::RetryFailed(7)),
        ManageOutcome::Retried
    );
    let t3 = s.next_task().unwrap();
    assert_eq!(t3.frame, 1);
    assert_eq!(feed_ok(&mut s, t3), Some(SchedulerEvent::ProjectFinished));
    let p = &s.projects[0];
    assert_eq!(frames(&p.completed_frames), vec![2, 1]);
    assert!(p.failed_frames.is_empty());
}

#[test]
fn last_failed_frame_raises_the_error_event() {
    let mut s = Scheduler::new();
    s.handle_manage_msg(SchedulerManageMessage::AddProject(project(9, b"P", 5, 5)));
    let t = s.next_task().unwrap();
    assert_eq!(feed_err(&mut s, t), Some(SchedulerEvent::FramesFailed));
}

#[test]
fn retry_of_unknown_project_is_ignored() {
    let mut s = Scheduler::new();
    s.handle_manage_msg(SchedulerManageMessage::AddProject(project(1, b"P", 1, 1)));
    assert_eq!(
        s.handle_manage_msg(SchedulerManageMessage::RetryFailed(999)),
        ManageOutcome::UnknownProject
    );
    assert_eq!(s.projects.len(), 1);
}

#[test]
fn session_crash_mid_task_releases_the_frame() {
    let mut s = Scheduler::new();
    s.handle_manage_msg(SchedulerManageMessage::AddProject(project(3, b"P", 1, 2)));

    let mut conn = Connection::new();
    assert!(conn.handle_init(tinyrf::message::WorkerMessage::Init { name: Some(b"w".to_vec()) }));

    // The handler claims frame 1, then the worker vanishes before replying.
    let t = s.next_task().unwrap();
    assert_eq!(t.frame, 1);
    let _start = conn.claim_task(t);
    let (reported, result) = conn.finish_task(TaskOutcome::SessionBroken);
    assert_eq!(reported.frame, 1);
    assert!(result.is_err());

    // Exactly one report reaches the scheduler; the frame moves to failed.
    assert!(s.has_assigned_frame(3, 1));
    s.handle_result_msg(SchedulerResultMessage(reported, result));
    assert!(!s.has_assigned_frame(3, 1));
    let p = &s.projects[0];
    assert_eq!(frames(&p.failed_frames), vec![1]);
    assert_eq!(frames(&p.waiting_frames), vec![2]);
    assert!(p.assigned_frames.is_empty());
    // The partition still covers the whole range, with nothing duplicated.
    assert_eq!(p.num_frames(), 2);
}

#[test]
fn partition_and_conservation_hold_across_operations() {
    let mut p = project(1, b"P", 10, 14);
    assert_eq!(p.num_frames(), 5);

    let f1 = p.take_next_waiting();
    let f2 = p.take_next_waiting();
    assert_eq!((f1, f2), (10, 11));
    assert_eq!(p.num_frames(), 5);
    // A frame sits in exactly one container at a time.
    assert_eq!(p.assigned_frames.len(), 2);
    assert!(!frames(&p.waiting_frames).contains(&10));
    assert!(!frames(&p.waiting_frames).contains(&11));

    p.complete_frame(10);
    p.fail_frame(11);
    assert_eq!(p.num_frames(), 5);
    assert_eq!(frames(&p.completed_frames), vec![10]);
    assert_eq!(frames(&p.failed_frames), vec![11]);
    assert!(p.assigned_frames.is_empty());

    p.retry_failed();
    assert_eq!(p.num_frames(), 5);
    assert_eq!(frames(&p.waiting_frames), vec![12, 13, 14, 11]);
    assert!(p.failed_frames.is_empty());
    assert_eq!(p.progress(), (1, 5));
}

#[test]
fn dispatch_never_hands_out_a_frame_twice() {
    let mut s = Scheduler::new();
    s.handle_manage_msg(SchedulerManageMessage::AddProject(project(1, b"P", 1, 4)));
    let mut handed: Vec<u32> = Vec::new();
    while let Some(t) = s.next_task() {
        assert!(!handed.contains(&t.frame));
        handed.push(t.frame);
    }
    assert_eq!(handed, vec![1, 2, 3, 4]);
    let p = &s.projects[0];
    assert_eq!(p.assigned_frames.len(), 4);
}

#[test]
fn fresh_identifiers_carry_the_version_bits() {
    let a = Project::new(b"A".to_vec(), FileExt::PNG, 1, 1);
    let b = Project::new(b"B".to_vec(), FileExt::PNG, 1, 1);
    assert_eq!((a.uuid >> 76) & 0xf, 4);
    assert_eq!((a.uuid >> 62) & 3, 2);
    assert_ne!(a.uuid, b.uuid);
}

#[test]
fn session_serves_tasks_until_the_transport_breaks() {
    let mut conn = Connection::new();
    assert!(matches!(conn.phase, tinyrf::session::SessionPhase::AwaitingInit));
    assert!(conn.handle_init(tinyrf::message::WorkerMessage::Init { name: None }));

    // First task: rendered and collected.
    let t1 = RenderTask {
        project_uuid: 5,
        project_name: b"P".to_vec(),
        frame: 1,
        output_ext: FileExt::PNG,
    };
    let start = conn.claim_task(t1);
    let tinyrf::message::ServerMessage::StartRender(inner) = &start;
    assert_eq!(inner.frame, 1);
    let (rep, res) = conn.finish_task(TaskOutcome::Done);
    assert_eq!(rep.frame, 1);
    assert!(res.is_ok());

    // The session is ready again: a second task flows, this one failing.
    let t2 = RenderTask {
        project_uuid: 5,
        project_name: b"P".to_vec(),
        frame: 2,
        output_ext: FileExt::PNG,
    };
    conn.claim_task(t2);
    let (rep, res) = conn.finish_task(TaskOutcome::RenderFailed);
    assert_eq!(rep.frame, 2);
    assert!(res.is_err());
    assert!(matches!(conn.phase, tinyrf::session::SessionPhase::Ready));
}

#[test]
fn a_session_that_opens_without_init_ends_at_once() {
    let mut conn = Connection::new();
    let wrong = tinyrf::message::WorkerMessage::RenderResult(Ok(()));
    assert!(!conn.handle_init(wrong));
    assert!(matches!(conn.phase, tinyrf::session::SessionPhase::Terminal));
}
