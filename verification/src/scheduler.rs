//! The scheduler: sole owner of all project state.  It picks the next
//! frame to render in round-robin order over the projects that still have
//! waiting frames, applies per-frame results, and applies management
//! commands.
//!
//! The blocking loop around these decisions (channels, the rendezvous
//! handoff, thread start-up) lives outside the library; every decision the
//! loop takes is a function here with a contract.

use vstd::prelude::*;

use std::collections::VecDeque;

use crate::project::Project;
use crate::seqtools::lemma_push_keeps_no_duplicates;
use crate::seqtools::lemma_remove_insert_is_update;
use crate::seqtools::lemma_skip_keeps_no_duplicates;
use crate::task::Frame;
use crate::task::RenderTask;
use crate::task::RenderTaskResult;
use crate::task::clone_bytes;

verus! {

broadcast use vstd::seq_lib::group_seq_properties;

/// A message sent by the scheduler with a frame to render.
pub struct SchedulerRenderMessage(pub RenderTask);

/// A message sent to the scheduler with the result of a render.
pub struct SchedulerResultMessage(pub RenderTask, pub RenderTaskResult);

/// A message sent to the scheduler with a project management task.
pub enum SchedulerManageMessage {
    /// Add a project to the queue.
    AddProject(Project),
    /// Retry a project's failed frames.
    RetryFailed(u128),
}

/// An operator-visible event that results from applying a message.
#[derive(Clone, Copy, Debug, PartialEq, Eq, Structural)]
pub enum SchedulerEvent {
    /// Every frame of the project has been rendered.
    ProjectFinished,
    /// The project has no waiting or assigned frames left, and some failed.
    FramesFailed,
}

/// The outcome of a management message.
#[derive(Clone, Copy, Debug, PartialEq, Eq, Structural)]
pub enum ManageOutcome {
    /// The project was added and queued.
    Added,
    /// The project's failed frames were moved back to waiting.
    Retried,
    /// No project has the given identifier; the message is ignored.
    UnknownProject,
}

/// Whether some project in `s` has the identifier `uuid`.
pub open spec fn has_proj(s: Seq<Project>, uuid: u128) -> bool {
    exists|i: int| 0 <= i < s.len() && s[i].uuid == uuid
}

/// The index of the project with identifier `uuid`.
pub open spec fn idx_of(s: Seq<Project>, uuid: u128) -> int {
    choose|i: int| 0 <= i < s.len() && s[i].uuid == uuid
}

/// No two projects share an identifier.
pub open spec fn uuids_unique(s: Seq<Project>) -> bool {
    forall|i: int, j: int| 0 <= i < j < s.len() ==> s[i].uuid != s[j].uuid
}

/// `t` is the render task for the first waiting frame of `p`.
pub open spec fn task_for(p: Project, t: RenderTask) -> bool {
    &&& t.project_uuid == p.uuid
    &&& t.project_name@ == p.name@
    &&& t.frame == p.waiting()[0]
    &&& t.output_ext == p.output_ext
}

/// `q` is `p` after its first waiting frame moved to the assigned set.
pub open spec fn project_after_take(p: Project, q: Project) -> bool {
    &&& p.same_identity(q)
    &&& q.waiting() == p.waiting().skip(1)
    &&& q.assigned() == p.assigned().push(p.waiting()[0])
    &&& q.completed() == p.completed()
    &&& q.failed() == p.failed()
}

/// One scheduling step, as a relation between the state before, the state
/// after, and the dispatched task: pop the front of the round-robin
/// queue; if that project has a waiting frame, dispatch its first waiting
/// frame and re-enqueue the project exactly when it still has more; a
/// queued project without waiting frames is dropped from the queue and
/// nothing is dispatched.  An empty queue changes nothing.
pub open spec fn dispatch_step(pre: Scheduler, post: Scheduler, r: Option<RenderTask>) -> bool {
    if pre.queue@.len() == 0 {
        &&& post.projects@ == pre.projects@
        &&& post.queue@ == pre.queue@
        &&& r is None
    } else {
        let u = pre.queue@[0];
        let i = idx_of(pre.projects@, u);
        let p = pre.projects@[i];
        &&& has_proj(pre.projects@, u)
        &&& if p.waiting().len() > 0 {
            &&& r matches Some(t) && task_for(p, t)
            &&& post.projects@.len() == pre.projects@.len()
            &&& (forall|j: int|
                0 <= j < pre.projects@.len() && j != i ==> post.projects@[j] == pre.projects@[j])
            &&& project_after_take(p, post.projects@[i])
            &&& post.queue@ == if p.waiting().len() > 1 {
                pre.queue@.skip(1).push(u)
            } else {
                pre.queue@.skip(1)
            }
        } else {
            &&& r is None
            &&& post.projects@ == pre.projects@
            &&& post.queue@ == pre.queue@.skip(1)
        }
    }
}

/// The scheduler state: every project, keyed by identifier, and the
/// round-robin queue of projects that may still have waiting frames.
pub struct Scheduler {
    /// All projects ever added, each with a distinct identifier.
    pub projects: Vec<Project>,
    /// Identifiers of projects to visit, front first, each at most once.
    pub queue: VecDeque<u128>,
}

impl Scheduler {
    /// Scheduler invariant: every project is well formed, identifiers are
    /// distinct, and the queue holds identifiers of existing projects,
    /// each at most once.
    pub open spec fn wf(self) -> bool {
        &&& forall|i: int| 0 <= i < self.projects@.len() ==> (#[trigger] self.projects@[i]).wf()
        &&& uuids_unique(self.projects@)
        &&& self.queue@.no_duplicates()
        &&& forall|k: int|
            0 <= k < self.queue@.len() ==> has_proj(self.projects@, #[trigger] self.queue@[k])
    }

    /// A scheduler with no projects.
    pub fn new() -> (s: Scheduler)
        ensures
            s.wf(),
            s.projects@ == Seq::<Project>::empty(),
            s.queue@ == Seq::<u128>::empty(),
    {
        let s = Scheduler { projects: Vec::new(), queue: VecDeque::new() };
        proof {
            assert(s.projects@ =~= Seq::<Project>::empty());
            assert(s.queue@ =~= Seq::<u128>::empty());
        }
        s
    }

    /// Find the index of the project with the given identifier.
    fn find_project(&self, uuid: u128) -> (r: Option<usize>)
        ensures
            match r {
                Some(i) => i < self.projects@.len() && self.projects@[i as int].uuid == uuid,
                None => !has_proj(self.projects@, uuid),
            },
    {
        let mut i: usize = 0;
        while i < self.projects.len()
            invariant
                i <= self.projects@.len(),
                forall|k: int| 0 <= k < i ==> self.projects@[k].uuid != uuid,
            decreases self.projects@.len() - i,
        {
            if self.projects[i].uuid == uuid {
                return Some(i);
            }
            i = i + 1;
        }
        proof {
            if has_proj(self.projects@, uuid) {
                let k = choose|k: int|
                    0 <= k < self.projects@.len() && self.projects@[k].uuid == uuid;
                assert(false);
            }
        }
        None
    }

    /// Whether the project with identifier `uuid` exists and currently has
    /// `frame` assigned.
    pub fn has_assigned_frame(&self, uuid: u128, frame: Frame) -> (r: bool)
        requires
            self.wf(),
        ensures
            r == (has_proj(self.projects@, uuid) && self.projects@[idx_of(
                self.projects@,
                uuid,
            )].assigned().contains(frame)),
    {
        match self.find_project(uuid) {
            Some(i) => {
                proof {
                    lemma_idx_of_unique(self.projects@, i as int, uuid);
                }
                let p = &self.projects[i];
                let mut k: usize = 0;
                while k < p.assigned_frames.len()
                    invariant
                        k <= p.assigned().len(),
                        i < self.projects@.len(),
                        *p == self.projects@[i as int],
                        has_proj(self.projects@, uuid),
                        idx_of(self.projects@, uuid) == i as int,
                        forall|m: int| 0 <= m < k ==> p.assigned()[m] != frame,
                    decreases p.assigned().len() - k,
                {
                    if p.assigned_frames[k] == frame {
                        proof {
                            assert(p.assigned().contains(frame)) by {
                                assert(p.assigned()[k as int] == frame);
                            }
                        }
                        return true;
                    }
                    k = k + 1;
                }
                proof {
                    if p.assigned().contains(frame) {
                        let m = choose|m: int|
                            0 <= m < p.assigned().len() && p.assigned()[m] == frame;
                        assert(false);
                    }
                }
                false
            },
            None => false,
        }
    }

    /// Assign the first waiting frame of the given project and return the
    /// render task for it.
    pub fn assign_first_waiting_frame(&mut self, uuid: u128) -> (t: RenderTask)
        requires
            old(self).wf(),
            has_proj(old(self).projects@, uuid),
            old(self).projects@[idx_of(old(self).projects@, uuid)].waiting().len() > 0,
        ensures
            final(self).wf(),
            final(self).queue@ == old(self).queue@,
            final(self).projects@.len() == old(self).projects@.len(),
            forall|j: int|
                0 <= j < old(self).projects@.len() && j != idx_of(old(self).projects@, uuid)
                    ==> final(self).projects@[j] == old(self).projects@[j],
            task_for(old(self).projects@[idx_of(old(self).projects@, uuid)], t),
            project_after_take(
                old(self).projects@[idx_of(old(self).projects@, uuid)],
                final(self).projects@[idx_of(old(self).projects@, uuid)],
            ),
    {
        let ghost pre = old(self).projects@;
        let i = match self.find_project(uuid) {
            Some(i) => i,
            None => {
                proof {
                    assert(false);
                }
                vstd::pervasive::unreached()
            },
        };
        proof {
            lemma_idx_of_unique(pre, i as int, uuid);
        }
        let mut p = self.projects.remove(i);
        let frame = p.take_next_waiting();
        let t = RenderTask {
            project_uuid: p.uuid,
            project_name: clone_bytes(&p.name),
            frame,
            output_ext: p.output_ext,
        };
        self.projects.insert(i, p);
        proof {
            lemma_remove_insert_is_update(pre, i as int, self.projects@[i as int]);
            assert(self.projects@ =~= pre.update(i as int, self.projects@[i as int]));
            assert(uuids_unique(self.projects@)) by {
                assert(forall|j: int|
                    0 <= j < self.projects@.len() ==> (#[trigger] self.projects@[j]).uuid
                        == pre[j].uuid);
            }
            assert forall|k: int| 0 <= k < self.queue@.len() implies has_proj(
                self.projects@,
                #[trigger] self.queue@[k],
            ) by {
                let m = choose|m: int| 0 <= m < pre.len() && pre[m].uuid == self.queue@[k];
                assert(self.projects@[m].uuid == self.queue@[k]);
            }
        }
        t
    }

    /// One scheduling step: pop the front of the round-robin queue,
    /// dispatch that project's first waiting frame, and re-enqueue the
    /// project exactly when it still has waiting frames.  Returns the
    /// dispatched task, or nothing when the queue is empty or the popped
    /// project has no waiting frame.
    pub fn next_task(&mut self) -> (r: Option<RenderTask>)
        requires
            old(self).wf(),
        ensures
            final(self).wf(),
            dispatch_step(*old(self), *final(self), r),
    {
        let u = match self.queue.pop_front() {
            None => {
                return None;
            },
            Some(u) => u,
        };
        let ghost pre = *old(self);
        proof {
            assert(pre.queue@[0] == u);
            assert(has_proj(pre.projects@, u));
            lemma_skip_keeps_no_duplicates(pre.queue@);
        }
        let i = match self.find_project(u) {
            Some(i) => i,
            None => {
                proof {
                    assert(false);
                }
                vstd::pervasive::unreached()
            },
        };
        proof {
            lemma_idx_of_unique(pre.projects@, i as int, u);
        }
        if self.projects[i].num_waiting() == 0 {
            return None;
        }
        let t = self.assign_first_waiting_frame(u);
        proof {
            lemma_idx_of_unique(pre.projects@, i as int, u);
        }
        if self.projects[i].num_waiting() > 0 {
            self.queue.push_back(u);
            proof {
                assert(!pre.queue@.skip(1).contains(u)) by {
                    if pre.queue@.skip(1).contains(u) {
                        let k = choose|k: int|
                            0 <= k < pre.queue@.skip(1).len() && pre.queue@.skip(1)[k] == u;
                        assert(pre.queue@[k + 1] == u);
                        assert(pre.queue@[0] == u);
                    }
                }
                lemma_push_keeps_no_duplicates(pre.queue@.skip(1), u);
                assert(has_proj(self.projects@, u)) by {
                    assert(self.projects@[i as int].uuid == u);
                }
            }
        }
        Some(t)
    }

    /// Apply the result of a render task: remove the frame from the
    /// project's assigned set and record it as completed or failed.
    /// Returns the operator-visible event this gives rise to: the project
    /// finishing on a success, or — when a failure leaves the project with
    /// no waiting and no assigned frames but some failed ones — the fact
    /// that frames failed and recovery needs an explicit retry.
    pub fn handle_result_msg(&mut self, message: SchedulerResultMessage) -> (r: Option<
        SchedulerEvent,
    >)
        requires
            old(self).wf(),
            has_proj(old(self).projects@, message.0.project_uuid),
            old(self).projects@[idx_of(
                old(self).projects@,
                message.0.project_uuid,
            )].assigned().contains(message.0.frame),
        ensures
            final(self).wf(),
            final(self).queue@ == old(self).queue@,
            final(self).projects@.len() == old(self).projects@.len(),
            forall|j: int|
                0 <= j < old(self).projects@.len() && j != idx_of(
                    old(self).projects@,
                    message.0.project_uuid,
                ) ==> final(self).projects@[j] == old(self).projects@[j],
            ({
                let p = old(self).projects@[idx_of(old(self).projects@, message.0.project_uuid)];
                let q = final(self).projects@[idx_of(old(self).projects@, message.0.project_uuid)];
                &&& p.same_identity(q)
                &&& q.waiting() == p.waiting()
                &&& q.assigned().to_set() == p.assigned().to_set().remove(message.0.frame)
                &&& q.assigned().len() == p.assigned().len() - 1
                &&& (message.1 is Ok ==> q.completed() == p.completed() + seq![message.0.frame]
                    && q.failed() == p.failed())
                &&& (message.1 is Err ==> q.failed() == p.failed() + seq![message.0.frame]
                    && q.completed() == p.completed())
                &&& q.spec_num_frames() == p.spec_num_frames()
                &&& r == Some(SchedulerEvent::ProjectFinished) <==> (message.1 is Ok
                    && q.completed().len() == q.spec_num_frames())
                &&& r == Some(SchedulerEvent::FramesFailed) <==> (message.1 is Err
                    && q.waiting().len() == 0 && q.assigned().len() == 0 && q.failed().len() > 0)
            }),
    {
        let SchedulerResultMessage(task, result) = message;
        let ghost pre = old(self).projects@;
        let i = match self.find_project(task.project_uuid) {
            Some(i) => i,
            None => {
                proof {
                    assert(false);
                }
                vstd::pervasive::unreached()
            },
        };
        proof {
            lemma_idx_of_unique(pre, i as int, task.project_uuid);
        }
        let mut p = self.projects.remove(i);
        let event: Option<SchedulerEvent> = match result {
            Ok(()) => {
                p.complete_frame(task.frame);
                if p.complete() {
                    Some(SchedulerEvent::ProjectFinished)
                } else {
                    None
                }
            },
            Err(()) => {
                p.fail_frame(task.frame);
                if p.num_waiting() == 0 && p.num_assigned() == 0 && p.num_failed() > 0 {
                    Some(SchedulerEvent::FramesFailed)
                } else {
                    None
                }
            },
        };
        self.projects.insert(i, p);
        proof {
            lemma_remove_insert_is_update(pre, i as int, self.projects@[i as int]);
            assert(self.projects@ =~= pre.update(i as int, self.projects@[i as int]));
            assert(uuids_unique(self.projects@)) by {
                assert(forall|j: int|
                    0 <= j < self.projects@.len() ==> (#[trigger] self.projects@[j]).uuid
                        == pre[j].uuid);
            }
            assert forall|k: int| 0 <= k < self.queue@.len() implies has_proj(
                self.projects@,
                #[trigger] self.queue@[k],
            ) by {
                let m = choose|m: int| 0 <= m < pre.len() && pre[m].uuid == self.queue@[k];
                assert(self.projects@[m].uuid == self.queue@[k]);
            }
        }
        event
    }

    /// Apply a management message: add a new project (and queue it), or
    /// move a project's failed frames back to waiting (and queue it if it
    /// is not queued).  An unknown identifier is reported and otherwise
    /// ignored.  A duplicate identifier on `AddProject` is a bug, so it is
    /// a precondition.
    pub fn handle_manage_msg(&mut self, message: SchedulerManageMessage) -> (r: ManageOutcome)
        requires
            old(self).wf(),
            message matches SchedulerManageMessage::AddProject(p) ==> p.wf() && !has_proj(
                old(self).projects@,
                p.uuid,
            ),
        ensures
            final(self).wf(),
            match message {
                SchedulerManageMessage::AddProject(p) => {
                    &&& r == ManageOutcome::Added
                    &&& final(self).projects@ == old(self).projects@.push(p)
                    &&& final(self).queue@ == old(self).queue@.push(p.uuid)
                },
                SchedulerManageMessage::RetryFailed(uuid) => {
                    if has_proj(old(self).projects@, uuid) {
                        let i = idx_of(old(self).projects@, uuid);
                        let p = old(self).projects@[i];
                        let q = final(self).projects@[i];
                        &&& r == ManageOutcome::Retried
                        &&& final(self).projects@.len() == old(self).projects@.len()
                        &&& (forall|j: int|
                            0 <= j < old(self).projects@.len() && j != i
                                ==> final(self).projects@[j] == old(self).projects@[j])
                        &&& p.same_identity(q)
                        &&& q.waiting() == p.waiting() + p.failed()
                        &&& q.assigned() == p.assigned()
                        &&& q.completed() == p.completed()
                        &&& q.failed() == Seq::<Frame>::empty()
                        &&& q.spec_num_frames() == p.spec_num_frames()
                        &&& final(self).queue@ == if old(self).queue@.contains(uuid) {
                            old(self).queue@
                        } else {
                            old(self).queue@.push(uuid)
                        }
                    } else {
                        &&& r == ManageOutcome::UnknownProject
                        &&& final(self).projects@ == old(self).projects@
                        &&& final(self).queue@ == old(self).queue@
                    }
                },
            },
    {
        match message {
            SchedulerManageMessage::AddProject(project) => {
                let ghost pre = *old(self);
                proof {
                    assert(!pre.queue@.contains(project.uuid)) by {
                        if pre.queue@.contains(project.uuid) {
                            let k = choose|k: int|
                                0 <= k < pre.queue@.len() && pre.queue@[k] == project.uuid;
                            assert(has_proj(pre.projects@, project.uuid));
                        }
                    }
                    lemma_push_keeps_no_duplicates(pre.queue@, project.uuid);
                }
                self.queue.push_back(project.uuid);
                self.projects.push(project);
                proof {
                    assert(uuids_unique(self.projects@)) by {
                        assert forall|i: int, j: int|
                            0 <= i < j < self.projects@.len() implies self.projects@[i].uuid
                            != self.projects@[j].uuid by {
                            if j == self.projects@.len() - 1 {
                                if self.projects@[i].uuid == self.projects@[j].uuid {
                                    assert(has_proj(pre.projects@, self.projects@[j].uuid)) by {
                                        assert(pre.projects@[i].uuid == self.projects@[i].uuid);
                                    }
                                }
                            }
                        }
                    }
                    assert forall|k: int| 0 <= k < self.queue@.len() implies has_proj(
                        self.projects@,
                        #[trigger] self.queue@[k],
                    ) by {
                        if k < pre.queue@.len() {
                            let m = choose|m: int|
                                0 <= m < pre.projects@.len() && pre.projects@[m].uuid
                                    == self.queue@[k];
                            assert(self.projects@[m].uuid == self.queue@[k]);
                        } else {
                            assert(self.projects@[self.projects@.len() - 1].uuid
                                == self.queue@[k]);
                        }
                    }
                }
                ManageOutcome::Added
            },
            SchedulerManageMessage::RetryFailed(uuid) => {
                let ghost pre = *old(self);
                match self.find_project(uuid) {
                    Some(i) => {
                        proof {
                            lemma_idx_of_unique(pre.projects@, i as int, uuid);
                        }
                        let mut p = self.projects.remove(i);
                        p.retry_failed();
                        self.projects.insert(i, p);
                        proof {
                            lemma_remove_insert_is_update(
                                pre.projects@,
                                i as int,
                                self.projects@[i as int],
                            );
                            assert(self.projects@ =~= pre.projects@.update(
                                i as int,
                                self.projects@[i as int],
                            ));
                            assert(uuids_unique(self.projects@)) by {
                                assert(forall|j: int|
                                    0 <= j < self.projects@.len()
                                        ==> (#[trigger] self.projects@[j]).uuid
                                        == pre.projects@[j].uuid);
                            }
                        }
                        if !queue_contains(&self.queue, uuid) {
                            self.queue.push_back(uuid);
                            proof {
                                lemma_push_keeps_no_duplicates(pre.queue@, uuid);
                            }
                        }
                        proof {
                            assert forall|k: int| 0 <= k < self.queue@.len() implies has_proj(
                                self.projects@,
                                #[trigger] self.queue@[k],
                            ) by {
                                if k < pre.queue@.len() {
                                    let m = choose|m: int|
                                        0 <= m < pre.projects@.len() && pre.projects@[m].uuid
                                            == self.queue@[k];
                                    assert(self.projects@[m].uuid == self.queue@[k]);
                                } else {
                                    assert(self.queue@[k] == uuid);
                                    assert(self.projects@[i as int].uuid == uuid);
                                }
                            }
                        }
                        ManageOutcome::Retried
                    },
                    None => ManageOutcome::UnknownProject,
                }
            },
        }
    }
}

/// Whether the round-robin queue holds `uuid`.
fn queue_contains(q: &VecDeque<u128>, uuid: u128) -> (r: bool)
    ensures
        r == q@.contains(uuid),
{
    let mut k: usize = 0;
    while k < q.len()
        invariant
            k <= q@.len(),
            forall|m: int| 0 <= m < k ==> q@[m] != uuid,
        decreases q@.len() - k,
    {
        if q[k] == uuid {
            proof {
                assert(q@.contains(uuid)) by {
                    assert(q@[k as int] == uuid);
                }
            }
            return true;
        }
        k = k + 1;
    }
    proof {
        if q@.contains(uuid) {
            let m = choose|m: int| 0 <= m < q@.len() && q@[m] == uuid;
            assert(false);
        }
    }
    false
}

/// With distinct identifiers, the index of a project is determined.
pub proof fn lemma_idx_of_unique(s: Seq<Project>, i: int, uuid: u128)
    requires
        uuids_unique(s),
        0 <= i < s.len(),
        s[i].uuid == uuid,
    ensures
        has_proj(s, uuid),
        idx_of(s, uuid) == i,
{
    assert(has_proj(s, uuid));
    let j = idx_of(s, uuid);
    if j != i {
        if j < i {
            assert(s[j].uuid != s[i].uuid);
        } else {
            assert(s[i].uuid != s[j].uuid);
        }
    }
}

/// Round-robin fairness: from a state whose queue holds exactly the two
/// projects `a` then `b`, each with at least two waiting frames, four
/// scheduling steps dispatch frames of `a`, `b`, `a` and `b`, in that
/// order.  No project starves another: at most one frame of a project is
/// dispatched before the other project gets a turn.
pub proof fn lemma_round_robin_fairness(
    s0: Scheduler,
    s1: Scheduler,
    s2: Scheduler,
    s3: Scheduler,
    s4: Scheduler,
    r1: Option<RenderTask>,
    r2: Option<RenderTask>,
    r3: Option<RenderTask>,
    r4: Option<RenderTask>,
    a: u128,
    b: u128,
)
    requires
        s0.wf(),
        a != b,
        s0.queue@ == seq![a, b],
        has_proj(s0.projects@, a),
        has_proj(s0.projects@, b),
        s0.projects@[idx_of(s0.projects@, a)].waiting().len() >= 2,
        s0.projects@[idx_of(s0.projects@, b)].waiting().len() >= 2,
        dispatch_step(s0, s1, r1),
        dispatch_step(s1, s2, r2),
        dispatch_step(s2, s3, r3),
        dispatch_step(s3, s4, r4),
    ensures
        r1 matches Some(t) && t.project_uuid == a,
        r2 matches Some(t) && t.project_uuid == b,
        r3 matches Some(t) && t.project_uuid == a,
        r4 matches Some(t) && t.project_uuid == b,
{
    let ia = idx_of(s0.projects@, a);
    let ib = idx_of(s0.projects@, b);
    assert(0 <= ia < s0.projects@.len() && s0.projects@[ia].uuid == a);
    assert(0 <= ib < s0.projects@.len() && s0.projects@[ib].uuid == b);
    assert(ia != ib);

    // Step one: the queue front is a; a's project has waiting frames.
    assert(s0.queue@[0] == a);
    assert(s1.queue@ =~= seq![b, a]) by {
        assert(s0.queue@.skip(1) =~= seq![b]);
    }
    assert(r1 matches Some(t) && t.project_uuid == a);
    assert(forall|j: int|
        0 <= j < s1.projects@.len() ==> (#[trigger] s1.projects@[j]).uuid == s0.projects@[j].uuid);
    assert(s1.projects@[ia].waiting().len() >= 1);
    assert(s1.projects@[ib] == s0.projects@[ib]);
    assert(uuids_unique(s1.projects@));

    // Step two: the queue front is b.
    lemma_idx_of_unique(s1.projects@, ib, b);
    assert(s1.queue@[0] == b);
    assert(s2.queue@ =~= seq![a, b]) by {
        assert(s1.queue@.skip(1) =~= seq![a]);
    }
    assert(r2 matches Some(t) && t.project_uuid == b);
    assert(forall|j: int|
        0 <= j < s2.projects@.len() ==> (#[trigger] s2.projects@[j]).uuid == s1.projects@[j].uuid);
    assert(s2.projects@[ib].waiting().len() >= 1);
    assert(s2.projects@[ia] == s1.projects@[ia]);
    assert(uuids_unique(s2.projects@));

    // Step three: a again.
    lemma_idx_of_unique(s2.projects@, ia, a);
    assert(s2.queue@[0] == a);
    assert(r3 matches Some(t) && t.project_uuid == a);
    assert(forall|j: int|
        0 <= j < s3.projects@.len() ==> (#[trigger] s3.projects@[j]).uuid == s2.projects@[j].uuid);
    assert(s3.projects@[ib] == s2.projects@[ib]);
    assert(uuids_unique(s3.projects@));
    assert(s3.queue@[0] == b) by {
        assert(s2.queue@.skip(1) =~= seq![b]);
        if s2.projects@[ia].waiting().len() > 1 {
            assert(s3.queue@ =~= seq![b, a]);
        } else {
            assert(s3.queue@ =~= seq![b]);
        }
    }

    // Step four: b again.
    lemma_idx_of_unique(s3.projects@, ib, b);
    assert(s3.projects@[ib].waiting().len() >= 1);
    assert(r4 matches Some(t) && t.project_uuid == b);
}

} // verus!
