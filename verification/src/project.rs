//! Server-side project state: a named frame range and the four disjoint
//! containers a frame moves through while it is scheduled.
//!
//! The partition invariant (`wf`) and the conservation of the frame count
//! are stated on every mutator: the containers stay pairwise disjoint and
//! duplicate-free, and no frame ever appears or disappears.

use vstd::prelude::*;

use std::collections::VecDeque;

use crate::ext::FileExt;
use crate::seqtools::lemma_push_keeps_no_duplicates;
use crate::seqtools::lemma_remove_at_unique;
use crate::seqtools::lemma_skip_keeps_no_duplicates;
use crate::task::Frame;

verus! {

broadcast use vstd::seq_lib::group_seq_properties;

/// The frames `start ..= end`, ascending.
pub open spec fn frame_range(start: Frame, end: Frame) -> Seq<Frame>
    recommends
        start <= end,
{
    Seq::new((end - start + 1) as nat, |i: int| (start + i) as Frame)
}

/// No frame occurs in both sequences.
pub open spec fn disjoint_frames(a: Seq<Frame>, b: Seq<Frame>) -> bool {
    forall|f: Frame| !(#[trigger] a.contains(f) && #[trigger] b.contains(f))
}

/// A project submitted to the server: a bundle of frames sharing one
/// output format, owned and mutated only by the scheduler.
pub struct Project {
    /// The project's identifier (the 128 bits of its UUID).
    pub uuid: u128,
    /// Display name, as UTF-8 bytes.
    pub name: Vec<u8>,
    /// Format of the rendered output files.
    pub output_ext: FileExt,
    /// Frames not yet handed to any worker, in dispatch order.
    pub waiting_frames: VecDeque<Frame>,
    /// Frames currently in flight on some worker (an unordered set).
    pub assigned_frames: Vec<Frame>,
    /// Frames rendered successfully, in completion order.
    pub completed_frames: VecDeque<Frame>,
    /// Frames whose render failed, in failure order.
    pub failed_frames: VecDeque<Frame>,
}

impl Project {
    pub open spec fn waiting(self) -> Seq<Frame> {
        self.waiting_frames@
    }

    pub open spec fn assigned(self) -> Seq<Frame> {
        self.assigned_frames@
    }

    pub open spec fn completed(self) -> Seq<Frame> {
        self.completed_frames@
    }

    pub open spec fn failed(self) -> Seq<Frame> {
        self.failed_frames@
    }

    /// The total number of frames across all four containers.
    pub open spec fn spec_num_frames(self) -> int {
        self.waiting().len() + self.assigned().len() + self.completed().len()
            + self.failed().len() as int
    }

    /// Whether the project owns frame `f` (in whichever container).
    pub open spec fn holds_frame(self, f: Frame) -> bool {
        ||| self.waiting().contains(f)
        ||| self.assigned().contains(f)
        ||| self.completed().contains(f)
        ||| self.failed().contains(f)
    }

    /// Partition invariant: the four containers are pairwise disjoint and
    /// free of duplicates, so together they partition the project's frame
    /// range; the total count fits the frame type.
    pub open spec fn wf(self) -> bool {
        &&& self.waiting().no_duplicates()
        &&& self.assigned().no_duplicates()
        &&& self.completed().no_duplicates()
        &&& self.failed().no_duplicates()
        &&& disjoint_frames(self.waiting(), self.assigned())
        &&& disjoint_frames(self.waiting(), self.completed())
        &&& disjoint_frames(self.waiting(), self.failed())
        &&& disjoint_frames(self.assigned(), self.completed())
        &&& disjoint_frames(self.assigned(), self.failed())
        &&& disjoint_frames(self.completed(), self.failed())
        &&& self.spec_num_frames() <= u32::MAX
    }

    /// The fields every mutator leaves untouched: same project identity.
    pub open spec fn same_identity(self, other: Project) -> bool {
        &&& self.uuid == other.uuid
        &&& self.name@ == other.name@
        &&& self.output_ext == other.output_ext
    }

    /// Create a new project with a fresh random identifier.  Nothing is
    /// known of the identifier beyond its fixed version and variant bits,
    /// so a caller that must rely on identity uses the `uuid` field or
    /// builds the project with `with_uuid`.
    pub fn new(name: Vec<u8>, output_ext: FileExt, start_frame: Frame, end_frame: Frame) -> (p:
        Project)
        requires
            start_frame <= end_frame,
            end_frame - start_frame < u32::MAX,
        ensures
            p.wf(),
            p.name@ == name@,
            p.output_ext == output_ext,
            p.waiting() == frame_range(start_frame, end_frame),
            p.assigned() == Seq::<Frame>::empty(),
            p.completed() == Seq::<Frame>::empty(),
            p.failed() == Seq::<Frame>::empty(),
            p.spec_num_frames() == end_frame - start_frame + 1,
            (p.uuid >> 76) & 0xf == 4,
            (p.uuid >> 62) & 3 == 2,
    {
        let uuid = fresh_uuid();
        Project::with_uuid(uuid, name, output_ext, start_frame, end_frame)
    }

    /// Create a new project with the given identifier; its waiting queue
    /// holds every frame of `start ..= end` in ascending order and its
    /// other containers are empty.  The bound on `end - start` is a
    /// machine limit: the frame count must fit the frame type.
    pub fn with_uuid(
        uuid: u128,
        name: Vec<u8>,
        output_ext: FileExt,
        start_frame: Frame,
        end_frame: Frame,
    ) -> (p: Project)
        requires
            start_frame <= end_frame,
            end_frame - start_frame < u32::MAX,
        ensures
            p.wf(),
            p.uuid == uuid,
            p.name@ == name@,
            p.output_ext == output_ext,
            p.waiting() == frame_range(start_frame, end_frame),
            p.assigned() == Seq::<Frame>::empty(),
            p.completed() == Seq::<Frame>::empty(),
            p.failed() == Seq::<Frame>::empty(),
            p.spec_num_frames() == end_frame - start_frame + 1,
    {
        let mut waiting: VecDeque<Frame> = VecDeque::new();
        let mut f: Frame = start_frame;
        loop
            invariant_except_break
                start_frame <= f <= end_frame,
                waiting@ =~= frame_range(start_frame, end_frame).take(f - start_frame),
            ensures
                waiting@ == frame_range(start_frame, end_frame),
            decreases end_frame - f,
        {
            waiting.push_back(f);
            proof {
                assert(waiting@ =~= frame_range(start_frame, end_frame).take(f + 1 - start_frame));
            }
            if f == end_frame {
                proof {
                    assert(frame_range(start_frame, end_frame).take(
                        end_frame + 1 - start_frame,
                    ) =~= frame_range(start_frame, end_frame));
                }
                break;
            }
            f = f + 1;
        }
        let p = Project {
            uuid,
            name,
            output_ext,
            waiting_frames: waiting,
            assigned_frames: Vec::new(),
            completed_frames: VecDeque::new(),
            failed_frames: VecDeque::new(),
        };
        proof {
            let r = frame_range(start_frame, end_frame);
            assert(p.waiting().no_duplicates()) by {
                assert(forall|i: int, j: int|
                    0 <= i < j < r.len() ==> #[trigger] r[i] != #[trigger] r[j]);
            }
            assert(p.assigned() =~= Seq::<Frame>::empty());
            assert(p.completed() =~= Seq::<Frame>::empty());
            assert(p.failed() =~= Seq::<Frame>::empty());
        }
        p
    }

    /// Whether all of the frames have been rendered.
    pub fn complete(&self) -> (r: bool)
        requires
            self.wf(),
        ensures
            r == (self.spec_num_frames() == self.completed().len()),
    {
        self.num_completed() == self.num_frames()
    }

    /// The completed count and the total count; their ratio is the
    /// project's progress, which therefore always lies between zero and
    /// one.
    pub fn progress(&self) -> (r: (u32, u32))
        requires
            self.wf(),
        ensures
            r.0 == self.completed().len(),
            r.1 == self.spec_num_frames(),
            r.0 <= r.1,
    {
        (self.num_completed(), self.num_frames())
    }

    /// The total number of frames.
    pub fn num_frames(&self) -> (r: Frame)
        requires
            self.wf(),
        ensures
            r == self.spec_num_frames(),
    {
        self.num_waiting() + self.num_assigned() + self.num_completed() + self.num_failed()
    }

    /// The number of waiting frames.
    pub fn num_waiting(&self) -> (r: Frame)
        requires
            self.spec_num_frames() <= u32::MAX,
        ensures
            r == self.waiting().len(),
    {
        self.waiting_frames.len() as Frame
    }

    /// The number of assigned frames.
    pub fn num_assigned(&self) -> (r: Frame)
        requires
            self.spec_num_frames() <= u32::MAX,
        ensures
            r == self.assigned().len(),
    {
        self.assigned_frames.len() as Frame
    }

    /// The number of completed frames.
    pub fn num_completed(&self) -> (r: Frame)
        requires
            self.spec_num_frames() <= u32::MAX,
        ensures
            r == self.completed().len(),
    {
        self.completed_frames.len() as Frame
    }

    /// The number of failed frames.
    pub fn num_failed(&self) -> (r: Frame)
        requires
            self.spec_num_frames() <= u32::MAX,
        ensures
            r == self.failed().len(),
    {
        self.failed_frames.len() as Frame
    }

    /// Move the first waiting frame to the assigned set and return it.
    pub fn take_next_waiting(&mut self) -> (f: Frame)
        requires
            old(self).wf(),
            old(self).waiting().len() > 0,
        ensures
            final(self).wf(),
            old(self).same_identity(*final(self)),
            f == old(self).waiting()[0],
            final(self).waiting() == old(self).waiting().skip(1),
            final(self).assigned() == old(self).assigned().push(f),
            final(self).completed() == old(self).completed(),
            final(self).failed() == old(self).failed(),
            final(self).spec_num_frames() == old(self).spec_num_frames(),
            forall|g: Frame| final(self).holds_frame(g) == old(self).holds_frame(g),
    {
        let f = self.waiting_frames.pop_front().unwrap();
        self.assigned_frames.push(f);
        proof {
            let oldw = old(self).waiting();
            let olda = old(self).assigned();
            let neww = self.waiting();
            let newa = self.assigned();
            assert(neww =~= oldw.skip(1));
            assert(oldw.contains(f)) by {
                assert(oldw[0] == f);
            }
            lemma_skip_keeps_no_duplicates(oldw);
            assert(!olda.contains(f));
            lemma_push_keeps_no_duplicates(olda, f);
            assert(!neww.contains(f)) by {
                if neww.contains(f) {
                    let i = choose|i: int| 1 <= i < oldw.len() && oldw[i] == f;
                    assert(oldw[i] == oldw[0]);
                }
            }
            assert(disjoint_frames(neww, newa)) by {
                assert forall|g: Frame| !(#[trigger] neww.contains(g) && #[trigger] newa.contains(g)) by {
                    if neww.contains(g) && newa.contains(g) {
                        assert(oldw.contains(g));
                        assert(olda.contains(g) || g == f);
                    }
                }
            }
            assert(disjoint_frames(neww, old(self).completed())) by {
                assert forall|g: Frame|
                    !(#[trigger] neww.contains(g) && #[trigger] old(self).completed().contains(
                        g,
                    )) by {
                    if neww.contains(g) {
                        assert(oldw.contains(g));
                    }
                }
            }
            assert(disjoint_frames(neww, old(self).failed())) by {
                assert forall|g: Frame|
                    !(#[trigger] neww.contains(g) && #[trigger] old(self).failed().contains(g)) by {
                    if neww.contains(g) {
                        assert(oldw.contains(g));
                    }
                }
            }
            assert(disjoint_frames(newa, old(self).completed())) by {
                assert forall|g: Frame|
                    !(#[trigger] newa.contains(g) && #[trigger] old(self).completed().contains(
                        g,
                    )) by {
                    if newa.contains(g) {
                        assert(olda.contains(g) || g == f);
                    }
                }
            }
            assert(disjoint_frames(newa, old(self).failed())) by {
                assert forall|g: Frame|
                    !(#[trigger] newa.contains(g) && #[trigger] old(self).failed().contains(g)) by {
                    if newa.contains(g) {
                        assert(olda.contains(g) || g == f);
                    }
                }
            }
            assert forall|g: Frame| final(self).holds_frame(g) == old(self).holds_frame(g) by {
                if oldw.contains(g) {
                    let i = choose|i: int| 0 <= i < oldw.len() && oldw[i] == g;
                    if i == 0 {
                        assert(newa.contains(g));
                    } else {
                        assert(neww[i - 1] == g);
                        assert(neww.contains(g));
                    }
                }
                if neww.contains(g) {
                    assert(oldw.contains(g));
                }
                if newa.contains(g) {
                    assert(olda.contains(g) || g == f);
                }
            }
        }
        f
    }

    /// Record a successful render: move `f` from the assigned set to the
    /// back of the completed queue.
    pub fn complete_frame(&mut self, f: Frame)
        requires
            old(self).wf(),
            old(self).assigned().contains(f),
        ensures
            final(self).wf(),
            old(self).same_identity(*final(self)),
            final(self).waiting() == old(self).waiting(),
            final(self).assigned().to_set() == old(self).assigned().to_set().remove(f),
            final(self).assigned().len() == old(self).assigned().len() - 1,
            !final(self).assigned().contains(f),
            final(self).completed() == old(self).completed() + seq![f],
            final(self).failed() == old(self).failed(),
            final(self).spec_num_frames() == old(self).spec_num_frames(),
            forall|g: Frame| final(self).holds_frame(g) == old(self).holds_frame(g),
    {
        let i = position_of(&self.assigned_frames, f);
        self.assigned_frames.remove(i);
        self.completed_frames.push_back(f);
        proof {
            let olda = old(self).assigned();
            let oldc = old(self).completed();
            let newa = self.assigned();
            let newc = self.completed();
            lemma_remove_at_unique(olda, i as int, f);
            assert(newc =~= oldc.push(f));
            assert(!oldc.contains(f));
            lemma_push_keeps_no_duplicates(oldc, f);
            assert(disjoint_frames(newa, newc)) by {
                assert forall|g: Frame| !(#[trigger] newa.contains(g) && #[trigger] newc.contains(g)) by {
                    if newa.contains(g) && newc.contains(g) {
                        assert(olda.contains(g) && g != f);
                        assert(oldc.contains(g) || g == f);
                    }
                }
            }
            assert forall|g: Frame| final(self).holds_frame(g) == old(self).holds_frame(g) by {
                if olda.contains(g) {
                    if g == f {
                        assert(newc.contains(g));
                    } else {
                        assert(newa.contains(g));
                    }
                }
                if newa.contains(g) {
                    assert(olda.contains(g));
                }
            }
        }
    }

    /// Record a failed render: move `f` from the assigned set to the back
    /// of the failed queue.
    pub fn fail_frame(&mut self, f: Frame)
        requires
            old(self).wf(),
            old(self).assigned().contains(f),
        ensures
            final(self).wf(),
            old(self).same_identity(*final(self)),
            final(self).waiting() == old(self).waiting(),
            final(self).assigned().to_set() == old(self).assigned().to_set().remove(f),
            final(self).assigned().len() == old(self).assigned().len() - 1,
            !final(self).assigned().contains(f),
            final(self).completed() == old(self).completed(),
            final(self).failed() == old(self).failed() + seq![f],
            final(self).spec_num_frames() == old(self).spec_num_frames(),
            forall|g: Frame| final(self).holds_frame(g) == old(self).holds_frame(g),
    {
        let i = position_of(&self.assigned_frames, f);
        self.assigned_frames.remove(i);
        self.failed_frames.push_back(f);
        proof {
            let olda = old(self).assigned();
            let oldq = old(self).failed();
            let newa = self.assigned();
            let newq = self.failed();
            lemma_remove_at_unique(olda, i as int, f);
            assert(newq =~= oldq.push(f));
            assert(!oldq.contains(f));
            lemma_push_keeps_no_duplicates(oldq, f);
            assert(disjoint_frames(newa, newq)) by {
                assert forall|g: Frame| !(#[trigger] newa.contains(g) && #[trigger] newq.contains(g)) by {
                    if newa.contains(g) && newq.contains(g) {
                        assert(olda.contains(g) && g != f);
                        assert(oldq.contains(g) || g == f);
                    }
                }
            }
            assert forall|g: Frame| final(self).holds_frame(g) == old(self).holds_frame(g) by {
                if olda.contains(g) {
                    if g == f {
                        assert(newq.contains(g));
                    } else {
                        assert(newa.contains(g));
                    }
                }
                if newa.contains(g) {
                    assert(olda.contains(g));
                }
            }
        }
    }

    /// Move all of the failed frames back to the waiting queue, in order.
    pub fn retry_failed(&mut self)
        requires
            old(self).wf(),
        ensures
            final(self).wf(),
            old(self).same_identity(*final(self)),
            final(self).waiting() == old(self).waiting() + old(self).failed(),
            final(self).assigned() == old(self).assigned(),
            final(self).completed() == old(self).completed(),
            final(self).failed() == Seq::<Frame>::empty(),
            final(self).spec_num_frames() == old(self).spec_num_frames(),
            forall|g: Frame| final(self).holds_frame(g) == old(self).holds_frame(g),
    {
        self.waiting_frames.append(&mut self.failed_frames);
        proof {
            let oldw = old(self).waiting();
            let oldf = old(self).failed();
            let neww = self.waiting();
            assert(self.failed() =~= Seq::<Frame>::empty());
            assert(neww.no_duplicates()) by {
                assert forall|i: int, j: int| 0 <= i < j < neww.len() implies neww[i] != neww[j] by {
                    if j < oldw.len() {
                    } else if i >= oldw.len() {
                        assert(neww[i] == oldf[i - oldw.len()]);
                        assert(neww[j] == oldf[j - oldw.len()]);
                    } else {
                        assert(oldw.contains(neww[i])) by {
                            assert(oldw[i] == neww[i]);
                        }
                        assert(oldf.contains(neww[j])) by {
                            assert(oldf[j - oldw.len()] == neww[j]);
                        }
                    }
                }
            }
        }
    }
}


/// A frame is assigned at most once at any instant: in a well-formed
/// project the assigned set counts no frame twice (and the partition
/// invariant keeps a dispatched frame out of the waiting queue until its
/// result moves it on).
pub proof fn lemma_assigned_at_most_once(p: Project, f: Frame)
    requires
        p.wf(),
    ensures
        p.assigned().to_multiset().count(f) <= 1,
{
    p.assigned().lemma_multiset_has_no_duplicates();
}

/// Relies on `uuid::Uuid::new_v4`: a fresh random version-4 identifier.
/// The generator masks in the version and variant bits; nothing else holds
/// of every outcome, so nothing else is stated.
#[verifier::external_body]
fn fresh_uuid() -> (r: u128)
    ensures
        (r >> 76) & 0xf == 4,
        (r >> 62) & 3 == 2,
{
    uuid::Uuid::new_v4().as_u128()
}

/// The index of `f` in `v`, which must contain it.
fn position_of(v: &Vec<Frame>, f: Frame) -> (i: usize)
    requires
        v@.contains(f),
    ensures
        i < v@.len(),
        v@[i as int] == f,
{
    let mut i: usize = 0;
    while i < v.len()
        invariant
            i <= v@.len(),
            v@.contains(f),
            forall|k: int| 0 <= k < i ==> v@[k] != f,
        decreases v@.len() - i,
    {
        if v[i] == f {
            return i;
        }
        i = i + 1;
    }
    proof {
        let k = choose|k: int| 0 <= k < v@.len() && v@[k] == f;
        assert(false);
    }
    vstd::pervasive::unreached()
}

} // verus!
