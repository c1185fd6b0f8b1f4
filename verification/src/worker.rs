//! The worker's side of a session: the decisions its loop takes between
//! reads, renders and transfers.  The loop itself — connecting, reading
//! frames, downloading the bundle, running the renderer, uploading the
//! output — is I/O and lives outside; each choice it makes is a function
//! here.

use vstd::prelude::*;

use crate::ext::FileExt;
use crate::ext::spec_ext_name;
use crate::message::WorkerMessage;
use crate::message::WorkerMessageView;

verus! {

/// The worker's opening frame: the operator-supplied name wins; otherwise
/// the discovered host name; otherwise no name at all.
pub fn worker_init_message(cli_name: Option<Vec<u8>>, host_name: Option<Vec<u8>>) -> (m:
    WorkerMessage)
    ensures
        m@ == WorkerMessageView::Init(
            match (cli_name, host_name) {
                (Some(n), _) => Some(n@),
                (None, Some(h)) => Some(h@),
                (None, None) => None::<Seq<u8>>,
            },
        ),
{
    match cli_name {
        Some(n) => WorkerMessage::Init { name: Some(n) },
        None => WorkerMessage::Init { name: host_name },
    }
}

/// Whether a renderer run produced the frame: a zero exit status combined
/// with the expected output file being present; anything else is a render
/// failure.
pub fn render_succeeded(exit_ok: bool, output_exists: bool) -> (r: bool)
    ensures
        r == (exit_ok && output_exists),
{
    exit_ok && output_exists
}

/// The worker's reply after a render, and whether an upload follows:
/// success is reported and the output uploaded (then deleted locally);
/// failure is reported, nothing is uploaded, and the session continues.
pub fn worker_render_reply(success: bool) -> (r: (WorkerMessage, bool))
    ensures
        r.0@ == WorkerMessageView::RenderResult(
            if success {
                Ok::<(), ()>(())
            } else {
                Err::<(), ()>(())
            },
        ),
        r.1 == success,
{
    if success {
        (WorkerMessage::RenderResult(Ok(())), true)
    } else {
        (WorkerMessage::RenderResult(Err(())), false)
    }
}

/// The renderer's output template: four hash marks as the frame-number
/// placeholder, then a dot and the extension.
pub fn render_output_template(ext: FileExt) -> (r: Vec<u8>)
    ensures
        r@ == seq![0x23u8, 0x23u8, 0x23u8, 0x23u8, 0x2eu8] + spec_ext_name(ext),
{
    let mut v: Vec<u8> = Vec::new();
    v.push(0x23);
    v.push(0x23);
    v.push(0x23);
    v.push(0x23);
    v.push(0x2e);
    let e = ext.ext_name();
    let mut k: usize = 0;
    while k < e.len()
        invariant
            k <= e@.len(),
            e@ == spec_ext_name(ext),
            v@ == seq![0x23u8, 0x23u8, 0x23u8, 0x23u8, 0x2eu8] + e@.take(k as int),
        decreases e@.len() - k,
    {
        v.push(e[k]);
        k = k + 1;
        proof {
            assert(v@ =~= seq![0x23u8, 0x23u8, 0x23u8, 0x23u8, 0x2eu8] + e@.take(k as int));
        }
    }
    proof {
        assert(e@.take(e@.len() as int) =~= e@);
    }
    v
}

} // verus!
