//! Render tasks: the unit of work a server hands to a worker.

use vstd::prelude::*;

use crate::ext::FileExt;
use crate::ext::spec_ext_name;

verus! {

/// A frame number: one image within a project.
pub type Frame = u32;

/// The result of a render task: success or failure, with no payload.
pub type RenderTaskResult = Result<(), ()>;

/// Information about a frame that should be rendered and the project it
/// belongs to.  Immutable once created; `project_name` is carried for
/// operator-visible logging only.
pub struct RenderTask {
    /// Identifier of the owning project (the 128 bits of its UUID).
    pub project_uuid: u128,
    /// Display name of the owning project, as UTF-8 bytes.
    pub project_name: Vec<u8>,
    /// The frame to render.
    pub frame: Frame,
    /// The format of the output image.
    pub output_ext: FileExt,
}

/// The mathematical shape of a render task: plain values and a byte
/// sequence for the display name.
pub struct TaskView {
    pub uuid: u128,
    pub name: Seq<u8>,
    pub frame: Frame,
    pub ext: FileExt,
}

impl View for RenderTask {
    type V = TaskView;

    open spec fn view(&self) -> TaskView {
        TaskView {
            uuid: self.project_uuid,
            name: self.project_name@,
            frame: self.frame,
            ext: self.output_ext,
        }
    }
}

/// Copy a byte vector.
pub fn clone_bytes(v: &Vec<u8>) -> (r: Vec<u8>)
    ensures
        r@ == v@,
{
    let mut r: Vec<u8> = Vec::new();
    let mut i: usize = 0;
    while i < v.len()
        invariant
            i <= v.len(),
            r@ == v@.take(i as int),
        decreases v.len() - i,
    {
        r.push(v[i]);
        i = i + 1;
        proof {
            assert(r@ =~= v@.take(i as int));
        }
    }
    proof {
        assert(v@.take(v@.len() as int) =~= v@);
    }
    r
}

impl RenderTask {
    /// Copy a task (the containers that move tasks between sessions need
    /// owned values on both sides).
    pub fn duplicate(&self) -> (r: RenderTask)
        ensures
            r.project_uuid == self.project_uuid,
            r.project_name@ == self.project_name@,
            r.frame == self.frame,
            r.output_ext == self.output_ext,
    {
        RenderTask {
            project_uuid: self.project_uuid,
            project_name: clone_bytes(&self.project_name),
            frame: self.frame,
            output_ext: self.output_ext,
        }
    }
}

/// The file name of the output image for `frame` with extension `ext`:
/// the frame number in decimal, left-padded with zeros to at least four
/// digits, then a dot and the lowercase extension.
pub open spec fn spec_output_file_name(frame: Frame, ext: FileExt) -> Seq<u8> {
    spec_padded_frame(frame) + seq![0x2eu8] + spec_ext_name(ext)
}

/// The decimal form of `frame`, zero-padded to at least four digits.
pub open spec fn spec_padded_frame(frame: Frame) -> Seq<u8> {
    let d = crate::jnum::spec_dec_digits(frame as nat);
    if d.len() >= 4 {
        d
    } else {
        zeros((4 - d.len()) as nat) + d
    }
}

/// A run of ASCII zero digits.
pub open spec fn zeros(n: nat) -> Seq<u8>
    decreases n,
{
    if n == 0 {
        Seq::empty()
    } else {
        zeros((n - 1) as nat) + seq![0x30u8]
    }
}

/// Build the output file name for a frame, e.g. `0042.png`.
pub fn output_file_name(frame: Frame, ext: FileExt) -> (r: Vec<u8>)
    ensures
        r@ == spec_output_file_name(frame, ext),
{
    let mut digits: Vec<u8> = Vec::new();
    crate::jnum::push_dec(&mut digits, frame as u64);
    let mut r: Vec<u8> = Vec::new();
    let mut pad: usize = 0;
    if digits.len() < 4 {
        pad = 4 - digits.len();
    }
    let mut i: usize = 0;
    while i < pad
        invariant
            i <= pad,
            r@ == zeros(i as nat),
        decreases pad - i,
    {
        r.push(0x30);
        i = i + 1;
    }
    let mut j: usize = 0;
    while j < digits.len()
        invariant
            j <= digits.len(),
            r@ == zeros(pad as nat) + digits@.take(j as int),
        decreases digits.len() - j,
    {
        r.push(digits[j]);
        j = j + 1;
        proof {
            assert(r@ =~= zeros(pad as nat) + digits@.take(j as int));
        }
    }
    proof {
        assert(digits@.take(digits@.len() as int) =~= digits@);
        if digits@.len() >= 4 {
            assert(zeros(0) + digits@ =~= digits@);
        }
    }
    r.push(0x2e);
    let mut e = ext.ext_name();
    let mut k: usize = 0;
    while k < e.len()
        invariant
            k <= e.len(),
            e@ == spec_ext_name(ext),
            r@ == spec_padded_frame(frame) + seq![0x2eu8] + e@.take(k as int),
        decreases e.len() - k,
    {
        r.push(e[k]);
        k = k + 1;
        proof {
            assert(r@ =~= spec_padded_frame(frame) + seq![0x2eu8] + e@.take(k as int));
        }
    }
    proof {
        assert(e@.take(e@.len() as int) =~= e@);
        assert(r@ =~= spec_output_file_name(frame, ext));
    }
    r
}

} // verus!
