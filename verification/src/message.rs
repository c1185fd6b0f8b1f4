//! The wire codec for control frames: each control message is one
//! newline-terminated JSON line with an external tag (the variant name)
//! and the variant's fields as an inline object.  The encoder and the
//! decoder are both pinned to spec-level byte functions, and a lemma per
//! message type shows that decoding an encoded message gives it back.
//!
//! The framing (`\n` after each line, flushing, reading one line per
//! frame) is the transport's concern and stays outside the library.

use vstd::prelude::*;

use crate::ext::FileExt;
use crate::jnum::is_digit;
use crate::jnum::lemma_digit_run_end_props;
use crate::jnum::lemma_dec_digits_basic;
use crate::jnum::lemma_parse_dec_of_digits;
use crate::jnum::lemma_parse_uuid_of_str;
use crate::jnum::lemma_uuid_str_len;
use crate::jnum::lemma_parse_uuid_shape;
use crate::jnum::parse_u64;
use crate::jnum::parse_uuid;
use crate::jnum::push_dec;
use crate::jnum::push_uuid;
use crate::jnum::spec_dec_digits;
use crate::jnum::spec_parse_u64;
use crate::jnum::spec_parse_uuid;
use crate::jnum::spec_uuid_str;
use crate::jstr::lemma_parse_jstr_body_shape;
use crate::jstr::lemma_parse_jstr_of_quoted;
use crate::jstr::parse_json_string;
use crate::jstr::push_json_string;
use crate::jstr::spec_parse_jstr;
use crate::jstr::spec_quoted;
use crate::task::Frame;
use crate::task::RenderTask;
use crate::task::RenderTaskResult;
use crate::task::TaskView;

verus! {

broadcast use vstd::seq_lib::group_seq_properties;

/// The bytes of `{"StartRender":{"project_uuid":"`: the opening of a render-task frame, up to the identifier.
pub open spec fn lit_start_render() -> Seq<u8> {
    seq![0x7bu8, 0x22u8, 0x53u8, 0x74u8, 0x61u8, 0x72u8, 0x74u8, 0x52u8, 0x65u8, 0x6eu8, 0x64u8, 0x65u8, 0x72u8, 0x22u8, 0x3au8, 0x7bu8, 0x22u8, 0x70u8, 0x72u8, 0x6fu8, 0x6au8, 0x65u8, 0x63u8, 0x74u8, 0x5fu8, 0x75u8, 0x75u8, 0x69u8, 0x64u8, 0x22u8, 0x3au8, 0x22u8]
}

/// The bytes of `{"StartRender":{"project_uuid":"`, as a vector.
fn vec_lit_start_render() -> (r: Vec<u8>)
    ensures
        r@ == lit_start_render(),
{
    let v: Vec<u8> = vec![0x7bu8, 0x22u8, 0x53u8, 0x74u8, 0x61u8, 0x72u8, 0x74u8, 0x52u8, 0x65u8, 0x6eu8, 0x64u8, 0x65u8, 0x72u8, 0x22u8, 0x3au8, 0x7bu8, 0x22u8, 0x70u8, 0x72u8, 0x6fu8, 0x6au8, 0x65u8, 0x63u8, 0x74u8, 0x5fu8, 0x75u8, 0x75u8, 0x69u8, 0x64u8, 0x22u8, 0x3au8, 0x22u8];
    proof {
        assert(v@ =~= lit_start_render());
    }
    v
}

/// The bytes of `","project_name":`: between the identifier and the project name.
pub open spec fn lit_name_field() -> Seq<u8> {
    seq![0x22u8, 0x2cu8, 0x22u8, 0x70u8, 0x72u8, 0x6fu8, 0x6au8, 0x65u8, 0x63u8, 0x74u8, 0x5fu8, 0x6eu8, 0x61u8, 0x6du8, 0x65u8, 0x22u8, 0x3au8]
}

/// The bytes of `","project_name":`, as a vector.
fn vec_lit_name_field() -> (r: Vec<u8>)
    ensures
        r@ == lit_name_field(),
{
    let v: Vec<u8> = vec![0x22u8, 0x2cu8, 0x22u8, 0x70u8, 0x72u8, 0x6fu8, 0x6au8, 0x65u8, 0x63u8, 0x74u8, 0x5fu8, 0x6eu8, 0x61u8, 0x6du8, 0x65u8, 0x22u8, 0x3au8];
    proof {
        assert(v@ =~= lit_name_field());
    }
    v
}

/// The bytes of `,"frame":`: between the project name and the frame number.
pub open spec fn lit_frame_field() -> Seq<u8> {
    seq![0x2cu8, 0x22u8, 0x66u8, 0x72u8, 0x61u8, 0x6du8, 0x65u8, 0x22u8, 0x3au8]
}

/// The bytes of `,"frame":`, as a vector.
fn vec_lit_frame_field() -> (r: Vec<u8>)
    ensures
        r@ == lit_frame_field(),
{
    let v: Vec<u8> = vec![0x2cu8, 0x22u8, 0x66u8, 0x72u8, 0x61u8, 0x6du8, 0x65u8, 0x22u8, 0x3au8];
    proof {
        assert(v@ =~= lit_frame_field());
    }
    v
}

/// The bytes of `,"output_ext":"`: between the frame number and the format tag.
pub open spec fn lit_ext_field() -> Seq<u8> {
    seq![0x2cu8, 0x22u8, 0x6fu8, 0x75u8, 0x74u8, 0x70u8, 0x75u8, 0x74u8, 0x5fu8, 0x65u8, 0x78u8, 0x74u8, 0x22u8, 0x3au8, 0x22u8]
}

/// The bytes of `,"output_ext":"`, as a vector.
fn vec_lit_ext_field() -> (r: Vec<u8>)
    ensures
        r@ == lit_ext_field(),
{
    let v: Vec<u8> = vec![0x2cu8, 0x22u8, 0x6fu8, 0x75u8, 0x74u8, 0x70u8, 0x75u8, 0x74u8, 0x5fu8, 0x65u8, 0x78u8, 0x74u8, 0x22u8, 0x3au8, 0x22u8];
    proof {
        assert(v@ =~= lit_ext_field());
    }
    v
}

/// The bytes of `"}}`: the closing of a render-task frame.
pub open spec fn lit_task_end() -> Seq<u8> {
    seq![0x22u8, 0x7du8, 0x7du8]
}

/// The bytes of `"}}`, as a vector.
fn vec_lit_task_end() -> (r: Vec<u8>)
    ensures
        r@ == lit_task_end(),
{
    let v: Vec<u8> = vec![0x22u8, 0x7du8, 0x7du8];
    proof {
        assert(v@ =~= lit_task_end());
    }
    v
}

/// The bytes of `{"Init":{"name":`: the opening of an init frame, up to the name.
pub open spec fn lit_init() -> Seq<u8> {
    seq![0x7bu8, 0x22u8, 0x49u8, 0x6eu8, 0x69u8, 0x74u8, 0x22u8, 0x3au8, 0x7bu8, 0x22u8, 0x6eu8, 0x61u8, 0x6du8, 0x65u8, 0x22u8, 0x3au8]
}

/// The bytes of `{"Init":{"name":`, as a vector.
fn vec_lit_init() -> (r: Vec<u8>)
    ensures
        r@ == lit_init(),
{
    let v: Vec<u8> = vec![0x7bu8, 0x22u8, 0x49u8, 0x6eu8, 0x69u8, 0x74u8, 0x22u8, 0x3au8, 0x7bu8, 0x22u8, 0x6eu8, 0x61u8, 0x6du8, 0x65u8, 0x22u8, 0x3au8];
    proof {
        assert(v@ =~= lit_init());
    }
    v
}

/// The bytes of `}}`: the closing of a tagged-object frame.
pub open spec fn lit_obj_end() -> Seq<u8> {
    seq![0x7du8, 0x7du8]
}

/// The bytes of `}}`, as a vector.
fn vec_lit_obj_end() -> (r: Vec<u8>)
    ensures
        r@ == lit_obj_end(),
{
    let v: Vec<u8> = vec![0x7du8, 0x7du8];
    proof {
        assert(v@ =~= lit_obj_end());
    }
    v
}

/// The bytes of `null`: the JSON null value.
pub open spec fn lit_null() -> Seq<u8> {
    seq![0x6eu8, 0x75u8, 0x6cu8, 0x6cu8]
}

/// The bytes of `null`, as a vector.
fn vec_lit_null() -> (r: Vec<u8>)
    ensures
        r@ == lit_null(),
{
    let v: Vec<u8> = vec![0x6eu8, 0x75u8, 0x6cu8, 0x6cu8];
    proof {
        assert(v@ =~= lit_null());
    }
    v
}

/// The bytes of `{"RenderResult":{"Ok":null}}`: a whole successful-render frame.
pub open spec fn lit_result_ok() -> Seq<u8> {
    seq![0x7bu8, 0x22u8, 0x52u8, 0x65u8, 0x6eu8, 0x64u8, 0x65u8, 0x72u8, 0x52u8, 0x65u8, 0x73u8, 0x75u8, 0x6cu8, 0x74u8, 0x22u8, 0x3au8, 0x7bu8, 0x22u8, 0x4fu8, 0x6bu8, 0x22u8, 0x3au8, 0x6eu8, 0x75u8, 0x6cu8, 0x6cu8, 0x7du8, 0x7du8]
}

/// The bytes of `{"RenderResult":{"Ok":null}}`, as a vector.
fn vec_lit_result_ok() -> (r: Vec<u8>)
    ensures
        r@ == lit_result_ok(),
{
    let v: Vec<u8> = vec![0x7bu8, 0x22u8, 0x52u8, 0x65u8, 0x6eu8, 0x64u8, 0x65u8, 0x72u8, 0x52u8, 0x65u8, 0x73u8, 0x75u8, 0x6cu8, 0x74u8, 0x22u8, 0x3au8, 0x7bu8, 0x22u8, 0x4fu8, 0x6bu8, 0x22u8, 0x3au8, 0x6eu8, 0x75u8, 0x6cu8, 0x6cu8, 0x7du8, 0x7du8];
    proof {
        assert(v@ =~= lit_result_ok());
    }
    v
}

/// The bytes of `{"RenderResult":{"Err":null}}`: a whole failed-render frame.
pub open spec fn lit_result_err() -> Seq<u8> {
    seq![0x7bu8, 0x22u8, 0x52u8, 0x65u8, 0x6eu8, 0x64u8, 0x65u8, 0x72u8, 0x52u8, 0x65u8, 0x73u8, 0x75u8, 0x6cu8, 0x74u8, 0x22u8, 0x3au8, 0x7bu8, 0x22u8, 0x45u8, 0x72u8, 0x72u8, 0x22u8, 0x3au8, 0x6eu8, 0x75u8, 0x6cu8, 0x6cu8, 0x7du8, 0x7du8]
}

/// The bytes of `{"RenderResult":{"Err":null}}`, as a vector.
fn vec_lit_result_err() -> (r: Vec<u8>)
    ensures
        r@ == lit_result_err(),
{
    let v: Vec<u8> = vec![0x7bu8, 0x22u8, 0x52u8, 0x65u8, 0x6eu8, 0x64u8, 0x65u8, 0x72u8, 0x52u8, 0x65u8, 0x73u8, 0x75u8, 0x6cu8, 0x74u8, 0x22u8, 0x3au8, 0x7bu8, 0x22u8, 0x45u8, 0x72u8, 0x72u8, 0x22u8, 0x3au8, 0x6eu8, 0x75u8, 0x6cu8, 0x6cu8, 0x7du8, 0x7du8];
    proof {
        assert(v@ =~= lit_result_err());
    }
    v
}

/// The bytes of `{"RecvReady":{"offset":`: the opening of a receive-ready frame, up to the offset.
pub open spec fn lit_recv_ready() -> Seq<u8> {
    seq![0x7bu8, 0x22u8, 0x52u8, 0x65u8, 0x63u8, 0x76u8, 0x52u8, 0x65u8, 0x61u8, 0x64u8, 0x79u8, 0x22u8, 0x3au8, 0x7bu8, 0x22u8, 0x6fu8, 0x66u8, 0x66u8, 0x73u8, 0x65u8, 0x74u8, 0x22u8, 0x3au8]
}

/// The bytes of `{"RecvReady":{"offset":`, as a vector.
fn vec_lit_recv_ready() -> (r: Vec<u8>)
    ensures
        r@ == lit_recv_ready(),
{
    let v: Vec<u8> = vec![0x7bu8, 0x22u8, 0x52u8, 0x65u8, 0x63u8, 0x76u8, 0x52u8, 0x65u8, 0x61u8, 0x64u8, 0x79u8, 0x22u8, 0x3au8, 0x7bu8, 0x22u8, 0x6fu8, 0x66u8, 0x66u8, 0x73u8, 0x65u8, 0x74u8, 0x22u8, 0x3au8];
    proof {
        assert(v@ =~= lit_recv_ready());
    }
    v
}

/// The bytes of `,"has_compression":`: between the offset and the receiver's compression capability.
pub open spec fn lit_has_compression_field() -> Seq<u8> {
    seq![0x2cu8, 0x22u8, 0x68u8, 0x61u8, 0x73u8, 0x5fu8, 0x63u8, 0x6fu8, 0x6du8, 0x70u8, 0x72u8, 0x65u8, 0x73u8, 0x73u8, 0x69u8, 0x6fu8, 0x6eu8, 0x22u8, 0x3au8]
}

/// The bytes of `,"has_compression":`, as a vector.
fn vec_lit_has_compression_field() -> (r: Vec<u8>)
    ensures
        r@ == lit_has_compression_field(),
{
    let v: Vec<u8> = vec![0x2cu8, 0x22u8, 0x68u8, 0x61u8, 0x73u8, 0x5fu8, 0x63u8, 0x6fu8, 0x6du8, 0x70u8, 0x72u8, 0x65u8, 0x73u8, 0x73u8, 0x69u8, 0x6fu8, 0x6eu8, 0x22u8, 0x3au8];
    proof {
        assert(v@ =~= lit_has_compression_field());
    }
    v
}

/// The bytes of `{"SendReady":{"length":`: the opening of a send-ready frame, up to the length.
pub open spec fn lit_send_ready() -> Seq<u8> {
    seq![0x7bu8, 0x22u8, 0x53u8, 0x65u8, 0x6eu8, 0x64u8, 0x52u8, 0x65u8, 0x61u8, 0x64u8, 0x79u8, 0x22u8, 0x3au8, 0x7bu8, 0x22u8, 0x6cu8, 0x65u8, 0x6eu8, 0x67u8, 0x74u8, 0x68u8, 0x22u8, 0x3au8]
}

/// The bytes of `{"SendReady":{"length":`, as a vector.
fn vec_lit_send_ready() -> (r: Vec<u8>)
    ensures
        r@ == lit_send_ready(),
{
    let v: Vec<u8> = vec![0x7bu8, 0x22u8, 0x53u8, 0x65u8, 0x6eu8, 0x64u8, 0x52u8, 0x65u8, 0x61u8, 0x64u8, 0x79u8, 0x22u8, 0x3au8, 0x7bu8, 0x22u8, 0x6cu8, 0x65u8, 0x6eu8, 0x67u8, 0x74u8, 0x68u8, 0x22u8, 0x3au8];
    proof {
        assert(v@ =~= lit_send_ready());
    }
    v
}

/// The bytes of `,"use_compression":`: between the length and the compression decision.
pub open spec fn lit_use_compression_field() -> Seq<u8> {
    seq![0x2cu8, 0x22u8, 0x75u8, 0x73u8, 0x65u8, 0x5fu8, 0x63u8, 0x6fu8, 0x6du8, 0x70u8, 0x72u8, 0x65u8, 0x73u8, 0x73u8, 0x69u8, 0x6fu8, 0x6eu8, 0x22u8, 0x3au8]
}

/// The bytes of `,"use_compression":`, as a vector.
fn vec_lit_use_compression_field() -> (r: Vec<u8>)
    ensures
        r@ == lit_use_compression_field(),
{
    let v: Vec<u8> = vec![0x2cu8, 0x22u8, 0x75u8, 0x73u8, 0x65u8, 0x5fu8, 0x63u8, 0x6fu8, 0x6du8, 0x70u8, 0x72u8, 0x65u8, 0x73u8, 0x73u8, 0x69u8, 0x6fu8, 0x6eu8, 0x22u8, 0x3au8];
    proof {
        assert(v@ =~= lit_use_compression_field());
    }
    v
}

/// The bytes of `true`: the JSON true value.
pub open spec fn lit_true() -> Seq<u8> {
    seq![0x74u8, 0x72u8, 0x75u8, 0x65u8]
}

/// The bytes of `true`, as a vector.
fn vec_lit_true() -> (r: Vec<u8>)
    ensures
        r@ == lit_true(),
{
    let v: Vec<u8> = vec![0x74u8, 0x72u8, 0x75u8, 0x65u8];
    proof {
        assert(v@ =~= lit_true());
    }
    v
}

/// The bytes of `false`: the JSON false value.
pub open spec fn lit_false() -> Seq<u8> {
    seq![0x66u8, 0x61u8, 0x6cu8, 0x73u8, 0x65u8]
}

/// The bytes of `false`, as a vector.
fn vec_lit_false() -> (r: Vec<u8>)
    ensures
        r@ == lit_false(),
{
    let v: Vec<u8> = vec![0x66u8, 0x61u8, 0x6cu8, 0x73u8, 0x65u8];
    proof {
        assert(v@ =~= lit_false());
    }
    v
}


/// The tag of an output format on the wire: the variant name.
pub open spec fn spec_ext_tag(e: FileExt) -> Seq<u8> {
    match e {
        FileExt::BMP => seq![0x42u8, 0x4du8, 0x50u8],
        FileExt::RGB => seq![0x52u8, 0x47u8, 0x42u8],
        FileExt::PNG => seq![0x50u8, 0x4eu8, 0x47u8],
        FileExt::JPG => seq![0x4au8, 0x50u8, 0x47u8],
        FileExt::JP2 => seq![0x4au8, 0x50u8, 0x32u8],
        FileExt::TGA => seq![0x54u8, 0x47u8, 0x41u8],
    }
}

/// Append the wire tag of an output format.
fn push_ext_tag(out: &mut Vec<u8>, e: FileExt)
    ensures
        final(out)@ == old(out)@ + spec_ext_tag(e),
{
    match e {
        FileExt::BMP => {
            out.push(0x42);
            out.push(0x4d);
            out.push(0x50);
        },
        FileExt::RGB => {
            out.push(0x52);
            out.push(0x47);
            out.push(0x42);
        },
        FileExt::PNG => {
            out.push(0x50);
            out.push(0x4e);
            out.push(0x47);
        },
        FileExt::JPG => {
            out.push(0x4a);
            out.push(0x50);
            out.push(0x47);
        },
        FileExt::JP2 => {
            out.push(0x4a);
            out.push(0x50);
            out.push(0x32);
        },
        FileExt::TGA => {
            out.push(0x54);
            out.push(0x47);
            out.push(0x41);
        },
    }
    proof {
        assert(out@ =~= old(out)@ + spec_ext_tag(e));
    }
}

/// Append all bytes of `s`.
fn push_all(out: &mut Vec<u8>, s: &Vec<u8>)
    ensures
        final(out)@ == old(out)@ + s@,
{
    let mut k: usize = 0;
    while k < s.len()
        invariant
            k <= s@.len(),
            out@ == old(out)@ + s@.take(k as int),
        decreases s@.len() - k,
    {
        out.push(s[k]);
        k = k + 1;
        proof {
            assert(out@ =~= old(out)@ + s@.take(k as int));
        }
    }
    proof {
        assert(s@.take(s@.len() as int) =~= s@);
    }
}

/// Match a fixed byte string at position `i`: the position after it, or
/// nothing if the input there differs from it or is too short.
pub open spec fn spec_parse_lit(s: Seq<u8>, i: int, lit: Seq<u8>) -> Option<int> {
    if 0 <= i && i + lit.len() <= s.len() && s.subrange(i, i + lit.len()) == lit {
        Some(i + lit.len())
    } else {
        None
    }
}

/// Match a fixed byte string at position `i`.
fn match_lit(s: &Vec<u8>, i: usize, lit: &Vec<u8>) -> (r: Option<usize>)
    requires
        i <= s@.len(),
    ensures
        match spec_parse_lit(s@, i as int, lit@) {
            Some(j) => r matches Some(rj) && rj == j,
            None => r is None,
        },
{
    if s.len() - i < lit.len() {
        return None;
    }
    let mut k: usize = 0;
    while k < lit.len()
        invariant
            i + lit@.len() <= s@.len(),
            s@.len() <= usize::MAX,
            k <= lit@.len(),
            forall|m: int| 0 <= m < k ==> s@[i + m] == lit@[m],
        decreases lit@.len() - k,
    {
        if s[i + k] != lit[k] {
            proof {
                if s@.subrange(i as int, i + lit@.len()) == lit@ {
                    assert(s@.subrange(i as int, i + lit@.len())[k as int] == s@[i + k]);
                }
            }
            return None;
        }
        k = k + 1;
    }
    proof {
        assert(s@.subrange(i as int, i + lit@.len()) =~= lit@) by {
            assert forall|m: int|
                0 <= m < lit@.len() implies s@.subrange(i as int, i + lit@.len())[m] == lit@[m] by {
                assert(s@.subrange(i as int, i + lit@.len())[m] == s@[i + m]);
            }
        }
    }
    Some(i + lit.len())
}

/// The JSON form of a boolean.
pub open spec fn spec_json_bool(b: bool) -> Seq<u8> {
    if b {
        lit_true()
    } else {
        lit_false()
    }
}

/// Parse a JSON boolean at position `i`.
pub open spec fn spec_parse_bool(s: Seq<u8>, i: int) -> Option<(bool, int)> {
    match spec_parse_lit(s, i, lit_true()) {
        Some(j) => Some((true, j)),
        None => match spec_parse_lit(s, i, lit_false()) {
            Some(j) => Some((false, j)),
            None => None,
        },
    }
}

/// Parse a JSON boolean at position `i`.
fn parse_bool(s: &Vec<u8>, i: usize) -> (r: Option<(bool, usize)>)
    requires
        i <= s@.len(),
    ensures
        match spec_parse_bool(s@, i as int) {
            Some((b, j)) => r matches Some((rb, rj)) && rb == b && rj == j,
            None => r is None,
        },
{
    let lt = vec_lit_true();
    match match_lit(s, i, &lt) {
        Some(j) => Some((true, j)),
        None => {
            let lf = vec_lit_false();
            match match_lit(s, i, &lf) {
                Some(j) => Some((false, j)),
                None => None,
            }
        },
    }
}

/// Parse an output-format tag at position `i`.
pub open spec fn spec_parse_ext(s: Seq<u8>, i: int) -> Option<(FileExt, int)> {
    if spec_parse_lit(s, i, spec_ext_tag(FileExt::BMP)) is Some {
        Some((FileExt::BMP, i + 3))
    } else if spec_parse_lit(s, i, spec_ext_tag(FileExt::RGB)) is Some {
        Some((FileExt::RGB, i + 3))
    } else if spec_parse_lit(s, i, spec_ext_tag(FileExt::PNG)) is Some {
        Some((FileExt::PNG, i + 3))
    } else if spec_parse_lit(s, i, spec_ext_tag(FileExt::JPG)) is Some {
        Some((FileExt::JPG, i + 3))
    } else if spec_parse_lit(s, i, spec_ext_tag(FileExt::JP2)) is Some {
        Some((FileExt::JP2, i + 3))
    } else if spec_parse_lit(s, i, spec_ext_tag(FileExt::TGA)) is Some {
        Some((FileExt::TGA, i + 3))
    } else {
        None
    }
}

/// Parse an output-format tag at position `i`.
fn parse_ext(s: &Vec<u8>, i: usize) -> (r: Option<(FileExt, usize)>)
    requires
        i <= s@.len(),
    ensures
        match spec_parse_ext(s@, i as int) {
            Some((e, j)) => r matches Some((re, rj)) && re == e && rj == j,
            None => r is None,
        },
{
    let l_bmp: Vec<u8> = vec![0x42u8, 0x4du8, 0x50u8];
    proof {
        assert(l_bmp@ =~= spec_ext_tag(FileExt::BMP));
    }
    if let Some(j) = match_lit(s, i, &l_bmp) {
        return Some((FileExt::BMP, j));
    }
    let l_rgb: Vec<u8> = vec![0x52u8, 0x47u8, 0x42u8];
    proof {
        assert(l_rgb@ =~= spec_ext_tag(FileExt::RGB));
    }
    if let Some(j) = match_lit(s, i, &l_rgb) {
        return Some((FileExt::RGB, j));
    }
    let l_png: Vec<u8> = vec![0x50u8, 0x4eu8, 0x47u8];
    proof {
        assert(l_png@ =~= spec_ext_tag(FileExt::PNG));
    }
    if let Some(j) = match_lit(s, i, &l_png) {
        return Some((FileExt::PNG, j));
    }
    let l_jpg: Vec<u8> = vec![0x4au8, 0x50u8, 0x47u8];
    proof {
        assert(l_jpg@ =~= spec_ext_tag(FileExt::JPG));
    }
    if let Some(j) = match_lit(s, i, &l_jpg) {
        return Some((FileExt::JPG, j));
    }
    let l_jp2: Vec<u8> = vec![0x4au8, 0x50u8, 0x32u8];
    proof {
        assert(l_jp2@ =~= spec_ext_tag(FileExt::JP2));
    }
    if let Some(j) = match_lit(s, i, &l_jp2) {
        return Some((FileExt::JP2, j));
    }
    let l_tga: Vec<u8> = vec![0x54u8, 0x47u8, 0x41u8];
    proof {
        assert(l_tga@ =~= spec_ext_tag(FileExt::TGA));
    }
    if let Some(j) = match_lit(s, i, &l_tga) {
        return Some((FileExt::TGA, j));
    }
    None
}

/// A message sent from the server to the worker.
pub enum ServerMessage {
    /// Start a new render.
    StartRender(RenderTask),
}

impl View for ServerMessage {
    type V = TaskView;

    open spec fn view(&self) -> TaskView {
        match self {
            ServerMessage::StartRender(t) => t@,
        }
    }
}

/// A message sent from the worker to the server.
pub enum WorkerMessage {
    /// Connected and ready to render; the name is UTF-8 bytes, or unset
    /// when the worker could not discover one.
    Init { name: Option<Vec<u8>> },
    /// Render task finished with the given result.
    RenderResult(RenderTaskResult),
}

/// The mathematical shape of a worker message.
pub enum WorkerMessageView {
    Init(Option<Seq<u8>>),
    RenderResult(RenderTaskResult),
}

impl View for WorkerMessage {
    type V = WorkerMessageView;

    open spec fn view(&self) -> WorkerMessageView {
        match self {
            WorkerMessage::Init { name: Some(n) } => WorkerMessageView::Init(Some(n@)),
            WorkerMessage::Init { name: None } => WorkerMessageView::Init(None),
            WorkerMessage::RenderResult(r) => WorkerMessageView::RenderResult(*r),
        }
    }
}

/// A message sent during file transfer.
#[derive(Clone, Copy, Debug, PartialEq, Eq, Structural)]
pub enum TransferMessage {
    /// Ready to send the specified number of wire bytes.
    SendReady { length: u64, use_compression: bool },
    /// Ready to receive starting at the specified offset.
    RecvReady { offset: u64, has_compression: bool },
}

/// The bytes of a render-task frame.
pub open spec fn spec_start_render_bytes(v: TaskView) -> Seq<u8> {
    lit_start_render() + (spec_uuid_str(v.uuid) + (lit_name_field() + (spec_quoted(v.name) + (
    lit_frame_field() + (spec_dec_digits(v.frame as nat) + (lit_ext_field() + (spec_ext_tag(v.ext)
        + lit_task_end())))))))
}

/// The bytes of a worker message frame.
pub open spec fn spec_worker_msg_bytes(v: WorkerMessageView) -> Seq<u8> {
    match v {
        WorkerMessageView::Init(name) => lit_init() + ((match name {
            Some(n) => spec_quoted(n),
            None => lit_null(),
        }) + lit_obj_end()),
        WorkerMessageView::RenderResult(r) => if r is Ok {
            lit_result_ok()
        } else {
            lit_result_err()
        },
    }
}

/// The bytes of a transfer message frame.
pub open spec fn spec_transfer_msg_bytes(m: TransferMessage) -> Seq<u8> {
    match m {
        TransferMessage::SendReady { length, use_compression } => lit_send_ready() + (
        spec_dec_digits(length as nat) + (lit_use_compression_field() + (spec_json_bool(
            use_compression,
        ) + lit_obj_end()))),
        TransferMessage::RecvReady { offset, has_compression } => lit_recv_ready() + (
        spec_dec_digits(offset as nat) + (lit_has_compression_field() + (spec_json_bool(
            has_compression,
        ) + lit_obj_end()))),
    }
}

/// Encode a server message as one JSON line (without the newline).
pub fn encode_server_message(m: &ServerMessage) -> (r: Vec<u8>)
    ensures
        r@ == spec_start_render_bytes(m@),
{
    match m {
        ServerMessage::StartRender(t) => {
            let mut out: Vec<u8> = Vec::new();
            let l = vec_lit_start_render();
            push_all(&mut out, &l);
            push_uuid(&mut out, t.project_uuid);
            let l = vec_lit_name_field();
            push_all(&mut out, &l);
            push_json_string(&mut out, &t.project_name);
            let l = vec_lit_frame_field();
            push_all(&mut out, &l);
            push_dec(&mut out, t.frame as u64);
            let l = vec_lit_ext_field();
            push_all(&mut out, &l);
            push_ext_tag(&mut out, t.output_ext);
            let l = vec_lit_task_end();
            push_all(&mut out, &l);
            proof {
                assert(out@ =~= spec_start_render_bytes(m@));
            }
            out
        },
    }
}

/// Encode a worker message as one JSON line (without the newline).
pub fn encode_worker_message(m: &WorkerMessage) -> (r: Vec<u8>)
    ensures
        r@ == spec_worker_msg_bytes(m@),
{
    match m {
        WorkerMessage::Init { name } => {
            let mut out: Vec<u8> = Vec::new();
            let l = vec_lit_init();
            push_all(&mut out, &l);
            match name {
                Some(n) => {
                    push_json_string(&mut out, n);
                },
                None => {
                    let l = vec_lit_null();
                    push_all(&mut out, &l);
                },
            }
            let l = vec_lit_obj_end();
            push_all(&mut out, &l);
            proof {
                assert(out@ =~= spec_worker_msg_bytes(m@));
            }
            out
        },
        WorkerMessage::RenderResult(res) => {
            let mut out: Vec<u8> = Vec::new();
            match res {
                Ok(()) => {
                    let l = vec_lit_result_ok();
                    push_all(&mut out, &l);
                },
                Err(()) => {
                    let l = vec_lit_result_err();
                    push_all(&mut out, &l);
                },
            }
            proof {
                assert(out@ =~= spec_worker_msg_bytes(m@));
            }
            out
        },
    }
}

/// Encode a transfer message as one JSON line (without the newline).
pub fn encode_transfer_message(m: &TransferMessage) -> (r: Vec<u8>)
    ensures
        r@ == spec_transfer_msg_bytes(*m),
{
    let mut out: Vec<u8> = Vec::new();
    match m {
        TransferMessage::SendReady { length, use_compression } => {
            let l = vec_lit_send_ready();
            push_all(&mut out, &l);
            push_dec(&mut out, *length);
            let l = vec_lit_use_compression_field();
            push_all(&mut out, &l);
            if *use_compression {
                let l = vec_lit_true();
                push_all(&mut out, &l);
            } else {
                let l = vec_lit_false();
                push_all(&mut out, &l);
            }
            let l = vec_lit_obj_end();
            push_all(&mut out, &l);
        },
        TransferMessage::RecvReady { offset, has_compression } => {
            let l = vec_lit_recv_ready();
            push_all(&mut out, &l);
            push_dec(&mut out, *offset);
            let l = vec_lit_has_compression_field();
            push_all(&mut out, &l);
            if *has_compression {
                let l = vec_lit_true();
                push_all(&mut out, &l);
            } else {
                let l = vec_lit_false();
                push_all(&mut out, &l);
            }
            let l = vec_lit_obj_end();
            push_all(&mut out, &l);
        },
    }
    proof {
        assert(out@ =~= spec_transfer_msg_bytes(*m));
    }
    out
}

/// Decode one line as a server message: the render-task frame.  The frame
/// grammar is compact — no whitespace between tokens, as every producer of
/// this wire emits it — while string literals accept the full standard
/// escape set.  Anything else is a protocol violation.
pub open spec fn spec_decode_server(s: Seq<u8>) -> Option<TaskView> {
    match spec_parse_lit(s, 0, lit_start_render()) {
        None => None,
        Some(i1) => match spec_parse_uuid(s, i1) {
            None => None,
            Some((uuid, i2)) => match spec_parse_lit(s, i2, lit_name_field()) {
                None => None,
                Some(i3) => match spec_parse_jstr(s, i3) {
                    None => None,
                    Some((name, i4)) => match spec_parse_lit(s, i4, lit_frame_field()) {
                        None => None,
                        Some(i5) => match spec_parse_u64(s, i5) {
                            None => None,
                            Some((f, i6)) => if f > 0xffff_ffffu64 {
                                None
                            } else {
                                match spec_parse_lit(s, i6, lit_ext_field()) {
                                    None => None,
                                    Some(i7) => match spec_parse_ext(s, i7) {
                                        None => None,
                                        Some((e, i8)) => match spec_parse_lit(s, i8, lit_task_end()) {
                                            None => None,
                                            Some(i9) => if i9 == s.len() {
                                                Some(
                                                    TaskView {
                                                        uuid,
                                                        name,
                                                        frame: f as Frame,
                                                        ext: e,
                                                    },
                                                )
                                            } else {
                                                None
                                            },
                                        },
                                    },
                                }
                            },
                        },
                    },
                },
            },
        },
    }
}

/// Decode one line as a worker message: an init frame or a render-result
/// frame, in the same compact grammar as the server frames.
pub open spec fn spec_decode_worker(s: Seq<u8>) -> Option<WorkerMessageView> {
    match spec_parse_lit(s, 0, lit_init()) {
        Some(i1) => match spec_parse_lit(s, i1, lit_null()) {
            Some(i2) => match spec_parse_lit(s, i2, lit_obj_end()) {
                Some(i3) => if i3 == s.len() {
                    Some(WorkerMessageView::Init(None))
                } else {
                    None
                },
                None => None,
            },
            None => match spec_parse_jstr(s, i1) {
                Some((n, i2)) => match spec_parse_lit(s, i2, lit_obj_end()) {
                    Some(i3) => if i3 == s.len() {
                        Some(WorkerMessageView::Init(Some(n)))
                    } else {
                        None
                    },
                    None => None,
                },
                None => None,
            },
        },
        None => match spec_parse_lit(s, 0, lit_result_ok()) {
            Some(j) => if j == s.len() {
                Some(WorkerMessageView::RenderResult(Ok(())))
            } else {
                None
            },
            None => match spec_parse_lit(s, 0, lit_result_err()) {
                Some(j) => if j == s.len() {
                    Some(WorkerMessageView::RenderResult(Err(())))
                } else {
                    None
                },
                None => None,
            },
        },
    }
}

/// Decode one line as a transfer message: a receive-ready or send-ready
/// frame, in the same compact grammar as the server frames.
pub open spec fn spec_decode_transfer(s: Seq<u8>) -> Option<TransferMessage> {
    match spec_parse_lit(s, 0, lit_recv_ready()) {
        Some(i1) => match spec_parse_u64(s, i1) {
            None => None,
            Some((offset, i2)) => match spec_parse_lit(s, i2, lit_has_compression_field()) {
                None => None,
                Some(i3) => match spec_parse_bool(s, i3) {
                    None => None,
                    Some((b, i4)) => match spec_parse_lit(s, i4, lit_obj_end()) {
                        None => None,
                        Some(i5) => if i5 == s.len() {
                            Some(TransferMessage::RecvReady { offset, has_compression: b })
                        } else {
                            None
                        },
                    },
                },
            },
        },
        None => match spec_parse_lit(s, 0, lit_send_ready()) {
            None => None,
            Some(i1) => match spec_parse_u64(s, i1) {
                None => None,
                Some((length, i2)) => match spec_parse_lit(s, i2, lit_use_compression_field()) {
                    None => None,
                    Some(i3) => match spec_parse_bool(s, i3) {
                        None => None,
                        Some((b, i4)) => match spec_parse_lit(s, i4, lit_obj_end()) {
                            None => None,
                            Some(i5) => if i5 == s.len() {
                                Some(TransferMessage::SendReady { length, use_compression: b })
                            } else {
                                None
                            },
                        },
                    },
                },
            },
        },
    }
}

/// Decode one line as a server message.
#[verifier::rlimit(100)]
#[verifier::spinoff_prover]
pub fn decode_server_message(line: &Vec<u8>) -> (r: Option<ServerMessage>)
    ensures
        match spec_decode_server(line@) {
            Some(v) => r matches Some(m) && m@ == v,
            None => r is None,
        },
{
    let l = vec_lit_start_render();
    let i1 = match match_lit(line, 0, &l) {
        Some(j) => j,
        None => {
            return None;
        },
    };
    let (uuid, i2) = match parse_uuid(line, i1) {
        Some(x) => x,
        None => {
            return None;
        },
    };
    proof {
        lemma_parse_uuid_shape(line@, i1 as int);
    }
    let l = vec_lit_name_field();
    let i3 = match match_lit(line, i2, &l) {
        Some(j) => j,
        None => {
            return None;
        },
    };
    let (name, i4) = match parse_json_string(line, i3) {
        Some(x) => x,
        None => {
            return None;
        },
    };
    proof {
        lemma_parse_jstr_body_shape(line@, i3 + 1);
    }
    let l = vec_lit_frame_field();
    let i5 = match match_lit(line, i4, &l) {
        Some(j) => j,
        None => {
            return None;
        },
    };
    let (f, i6) = match parse_u64(line, i5) {
        Some(x) => x,
        None => {
            return None;
        },
    };
    if f > 0xffff_ffffu64 {
        return None;
    }
    proof {
        lemma_digit_run_end_props(line@, i5 as int);
    }
    let l = vec_lit_ext_field();
    let i7 = match match_lit(line, i6, &l) {
        Some(j) => j,
        None => {
            return None;
        },
    };
    let (e, i8) = match parse_ext(line, i7) {
        Some(x) => x,
        None => {
            return None;
        },
    };
    let l = vec_lit_task_end();
    let i9 = match match_lit(line, i8, &l) {
        Some(j) => j,
        None => {
            return None;
        },
    };
    if i9 != line.len() {
        return None;
    }
    Some(
        ServerMessage::StartRender(
            RenderTask { project_uuid: uuid, project_name: name, frame: f as Frame, output_ext: e },
        ),
    )
}

/// Decode one line as a worker message.
#[verifier::rlimit(100)]
#[verifier::spinoff_prover]
pub fn decode_worker_message(line: &Vec<u8>) -> (r: Option<WorkerMessage>)
    ensures
        match spec_decode_worker(line@) {
            Some(v) => r matches Some(m) && m@ == v,
            None => r is None,
        },
{
    let l = vec_lit_init();
    match match_lit(line, 0, &l) {
        Some(i1) => {
            let ln = vec_lit_null();
            match match_lit(line, i1, &ln) {
                Some(i2) => {
                    let le = vec_lit_obj_end();
                    let i3 = match match_lit(line, i2, &le) {
                        Some(j) => j,
                        None => {
                            return None;
                        },
                    };
                    if i3 != line.len() {
                        return None;
                    }
                    Some(WorkerMessage::Init { name: None })
                },
                None => {
                    let (n, i2) = match parse_json_string(line, i1) {
                        Some(x) => x,
                        None => {
                            return None;
                        },
                    };
                    proof {
                        lemma_parse_jstr_body_shape(line@, i1 + 1);
                    }
                    let le = vec_lit_obj_end();
                    let i3 = match match_lit(line, i2, &le) {
                        Some(j) => j,
                        None => {
                            return None;
                        },
                    };
                    if i3 != line.len() {
                        return None;
                    }
                    Some(WorkerMessage::Init { name: Some(n) })
                },
            }
        },
        None => {
            let lo = vec_lit_result_ok();
            match match_lit(line, 0, &lo) {
                Some(j) => {
                    if j == line.len() {
                        Some(WorkerMessage::RenderResult(Ok(())))
                    } else {
                        None
                    }
                },
                None => {
                    let lr = vec_lit_result_err();
                    match match_lit(line, 0, &lr) {
                        Some(j) => {
                            if j == line.len() {
                                Some(WorkerMessage::RenderResult(Err(())))
                            } else {
                                None
                            }
                        },
                        None => None,
                    }
                },
            }
        },
    }
}

/// Decode one line as a transfer message.
#[verifier::rlimit(100)]
#[verifier::spinoff_prover]
pub fn decode_transfer_message(line: &Vec<u8>) -> (r: Option<TransferMessage>)
    ensures
        match spec_decode_transfer(line@) {
            Some(v) => r == Some(v),
            None => r is None,
        },
{
    let l = vec_lit_recv_ready();
    match match_lit(line, 0, &l) {
        Some(i1) => {
            let (offset, i2) = match parse_u64(line, i1) {
                Some(x) => x,
                None => {
                    return None;
                },
            };
            proof {
                lemma_digit_run_end_props(line@, i1 as int);
            }
            let lh = vec_lit_has_compression_field();
            let i3 = match match_lit(line, i2, &lh) {
                Some(j) => j,
                None => {
                    return None;
                },
            };
            let (b, i4) = match parse_bool(line, i3) {
                Some(x) => x,
                None => {
                    return None;
                },
            };
            let le = vec_lit_obj_end();
            let i5 = match match_lit(line, i4, &le) {
                Some(j) => j,
                None => {
                    return None;
                },
            };
            if i5 != line.len() {
                return None;
            }
            Some(TransferMessage::RecvReady { offset, has_compression: b })
        },
        None => {
            let l2 = vec_lit_send_ready();
            match match_lit(line, 0, &l2) {
                Some(i1) => {
                    let (length, i2) = match parse_u64(line, i1) {
                        Some(x) => x,
                        None => {
                            return None;
                        },
                    };
                    proof {
                        lemma_digit_run_end_props(line@, i1 as int);
                    }
                    let lu = vec_lit_use_compression_field();
                    let i3 = match match_lit(line, i2, &lu) {
                        Some(j) => j,
                        None => {
                            return None;
                        },
                    };
                    let (b, i4) = match parse_bool(line, i3) {
                        Some(x) => x,
                        None => {
                            return None;
                        },
                    };
                    let le = vec_lit_obj_end();
                    let i5 = match match_lit(line, i4, &le) {
                        Some(j) => j,
                        None => {
                            return None;
                        },
                    };
                    if i5 != line.len() {
                        return None;
                    }
                    Some(TransferMessage::SendReady { length, use_compression: b })
                },
                None => None,
            }
        },
    }
}


/// Splitting a known concatenation at a position gives back its parts.
proof fn lemma_peel(s: Seq<u8>, i: int, j: int, head: Seq<u8>, tail: Seq<u8>)
    requires
        0 <= i,
        i + head.len() + tail.len() == j,
        j <= s.len(),
        s.subrange(i, j) == head + tail,
    ensures
        s.subrange(i, i + head.len()) == head,
        s.subrange(i + head.len(), j) == tail,
{
    assert forall|m: int| 0 <= m < head.len() implies s.subrange(i, i + head.len())[m] == head[m] by {
        assert(s.subrange(i, j)[m] == s[i + m]);
        assert(s.subrange(i, i + head.len())[m] == s[i + m]);
        assert((head + tail)[m] == head[m]);
    }
    assert(s.subrange(i, i + head.len()) =~= head);
    assert forall|m: int|
        0 <= m < tail.len() implies s.subrange(i + head.len(), j)[m] == tail[m] by {
        assert(s.subrange(i, j)[head.len() + m] == s[i + head.len() + m]);
        assert(s.subrange(i + head.len(), j)[m] == s[i + head.len() + m]);
        assert((head + tail)[head.len() + m] == tail[m]);
    }
    assert(s.subrange(i + head.len(), j) =~= tail);
}

/// A format tag parses back to its format.
proof fn lemma_parse_ext_of_tag(s: Seq<u8>, i: int, e: FileExt)
    requires
        0 <= i,
        i + 3 <= s.len(),
        s.subrange(i, i + 3) == spec_ext_tag(e),
    ensures
        spec_parse_ext(s, i) == Some((e, i + 3)),
{
    assert(s[i] == spec_ext_tag(e)[0]) by {
        assert(s.subrange(i, i + 3)[0] == s[i]);
    }
    assert(s[i + 1] == spec_ext_tag(e)[1]) by {
        assert(s.subrange(i, i + 3)[1] == s[i + 1]);
    }
    assert(s[i + 2] == spec_ext_tag(e)[2]) by {
        assert(s.subrange(i, i + 3)[2] == s[i + 2]);
    }
    assert(spec_parse_lit(s, i, spec_ext_tag(e)) == Some(i + 3));
    assert forall|a: FileExt| a != e implies spec_parse_lit(s, i, spec_ext_tag(a)) is None by {
        if spec_parse_lit(s, i, spec_ext_tag(a)) is Some {
            assert(s.subrange(i, i + 3) == spec_ext_tag(a));
            assert(spec_ext_tag(a)[0] == spec_ext_tag(e)[0]);
            assert(spec_ext_tag(a)[1] == spec_ext_tag(e)[1]);
            assert(spec_ext_tag(a)[2] == spec_ext_tag(e)[2]);
        }
    }
}

/// A JSON boolean parses back to its value.
proof fn lemma_parse_bool_of_json(s: Seq<u8>, i: int, b: bool)
    requires
        0 <= i,
        i + spec_json_bool(b).len() <= s.len(),
        s.subrange(i, i + spec_json_bool(b).len()) == spec_json_bool(b),
    ensures
        spec_parse_bool(s, i) == Some((b, i + spec_json_bool(b).len())),
{
    if b {
        assert(spec_parse_lit(s, i, lit_true()) == Some(i + 4));
    } else {
        assert(spec_parse_lit(s, i, lit_true()) is None) by {
            if spec_parse_lit(s, i, lit_true()) is Some {
                assert(s.subrange(i, i + 4)[0] == s[i]);
                assert(s.subrange(i, i + 5)[0] == s[i]);
            }
        }
        assert(spec_parse_lit(s, i, lit_false()) == Some(i + 5));
    }
}

/// The early fields of an encoded render-task frame parse back, leaving
/// the frame-and-format tail.
#[verifier::rlimit(100)]
#[verifier::spinoff_prover]
proof fn lemma_server_rt_prefix(v: TaskView)
    ensures
        ({
            let s = spec_start_render_bytes(v);
            let p1 = lit_start_render().len() as int;
            let p2 = p1 + 36;
            let p3 = p2 + lit_name_field().len() as int;
            let p4 = p3 + spec_quoted(v.name).len() as int;
            &&& spec_parse_lit(s, 0, lit_start_render()) == Some(p1)
            &&& spec_parse_uuid(s, p1) == Some((v.uuid, p2))
            &&& spec_parse_lit(s, p2, lit_name_field()) == Some(p3)
            &&& spec_parse_jstr(s, p3) == Some((v.name, p4))
            &&& 0 <= p4 <= s.len()
            &&& s.subrange(p4, s.len() as int) == lit_frame_field() + (spec_dec_digits(
                v.frame as nat,
            ) + (lit_ext_field() + (spec_ext_tag(v.ext) + lit_task_end())))
        }),
{
    let s = spec_start_render_bytes(v);
    let u = spec_uuid_str(v.uuid);
    let q = spec_quoted(v.name);
    let d = spec_dec_digits(v.frame as nat);
    let e = spec_ext_tag(v.ext);
    lemma_uuid_str_len(v.uuid);
    let t7 = e + lit_task_end();
    let t6 = lit_ext_field() + t7;
    let t5 = d + t6;
    let t4 = lit_frame_field() + t5;
    let t3 = q + t4;
    let t2 = lit_name_field() + t3;
    let t1 = u + t2;
    assert(s == lit_start_render() + t1);
    assert(s.subrange(0, s.len() as int) =~= s);
    lemma_peel(s, 0, s.len() as int, lit_start_render(), t1);
    let p1 = lit_start_render().len() as int;
    assert(spec_parse_lit(s, 0, lit_start_render()) == Some(p1));
    lemma_peel(s, p1, s.len() as int, u, t2);
    lemma_parse_uuid_of_str(s, p1, v.uuid);
    let p2 = p1 + 36;
    lemma_peel(s, p2, s.len() as int, lit_name_field(), t3);
    assert(spec_parse_lit(s, p2, lit_name_field()) == Some(p2 + lit_name_field().len()));
    let p3 = p2 + lit_name_field().len() as int;
    lemma_peel(s, p3, s.len() as int, q, t4);
    lemma_parse_jstr_of_quoted(s, p3, v.name);
}

/// A frame-and-format tail parses back: the frame number, the format tag,
/// and the closing of the frame.
#[verifier::rlimit(100)]
#[verifier::spinoff_prover]
proof fn lemma_server_rt_suffix(s: Seq<u8>, i: int, frame: Frame, ext: FileExt)
    requires
        0 <= i <= s.len(),
        s.subrange(i, s.len() as int) == lit_frame_field() + (spec_dec_digits(frame as nat) + (
        lit_ext_field() + (spec_ext_tag(ext) + lit_task_end()))),
    ensures
        ({
            let p5 = i + lit_frame_field().len() as int;
            let p6 = p5 + spec_dec_digits(frame as nat).len() as int;
            let p7 = p6 + lit_ext_field().len() as int;
            let p8 = p7 + 3;
            &&& spec_parse_lit(s, i, lit_frame_field()) == Some(p5)
            &&& spec_parse_u64(s, p5) == Some((frame as u64, p6))
            &&& spec_parse_lit(s, p6, lit_ext_field()) == Some(p7)
            &&& spec_parse_ext(s, p7) == Some((ext, p8))
            &&& spec_parse_lit(s, p8, lit_task_end()) == Some(s.len() as int)
        }),
{
    let d = spec_dec_digits(frame as nat);
    let e = spec_ext_tag(ext);
    lemma_dec_digits_basic(frame as nat);
    let t7 = e + lit_task_end();
    let t6 = lit_ext_field() + t7;
    let t5 = d + t6;
    assert(s.subrange(i, s.len() as int).len() == s.len() - i);
    assert((lit_frame_field() + t5).len() == lit_frame_field().len() + t5.len());
    assert(i + lit_frame_field().len() + t5.len() == s.len() as int);
    lemma_peel(s, i, s.len() as int, lit_frame_field(), t5);
    assert(spec_parse_lit(s, i, lit_frame_field()) == Some(i + lit_frame_field().len()));
    let p5 = i + lit_frame_field().len() as int;
    lemma_peel(s, p5, s.len() as int, d, t6);
    let p6 = p5 + d.len() as int;
    assert(s[p6] == lit_ext_field()[0]) by {
        assert(s.subrange(p6, s.len() as int)[0] == s[p6]);
        assert(t6[0] == lit_ext_field()[0]);
    }
    assert(!is_digit(s[p6]));
    lemma_parse_dec_of_digits(s, p5, frame as u64);
    lemma_peel(s, p6, s.len() as int, lit_ext_field(), t7);
    assert(spec_parse_lit(s, p6, lit_ext_field()) == Some(p6 + lit_ext_field().len()));
    let p7 = p6 + lit_ext_field().len() as int;
    lemma_peel(s, p7, s.len() as int, e, lit_task_end());
    lemma_parse_ext_of_tag(s, p7, ext);
    let p8 = p7 + 3;
    assert(spec_parse_lit(s, p8, lit_task_end()) == Some(p8 + lit_task_end().len()));
    assert(p8 + lit_task_end().len() == s.len());
}

/// Round trip of the render-task frame: decoding an encoded task gives it
/// back, for every task value.
#[verifier::rlimit(100)]
#[verifier::spinoff_prover]
pub proof fn lemma_server_msg_round_trip(v: TaskView)
    ensures
        spec_decode_server(spec_start_render_bytes(v)) == Some(v),
{
    lemma_server_rt_prefix(v);
    let s = spec_start_render_bytes(v);
    let p4 = lit_start_render().len() + 36 + lit_name_field().len() + spec_quoted(
        v.name,
    ).len() as int;
    lemma_server_rt_suffix(s, p4, v.frame, v.ext);
    assert(spec_decode_server(s) == Some(
        TaskView { uuid: v.uuid, name: v.name, frame: v.frame, ext: v.ext },
    ));
    assert(TaskView { uuid: v.uuid, name: v.name, frame: v.frame, ext: v.ext } == v);
}

/// Round trip of the worker frames: decoding an encoded init or
/// render-result message gives it back, for every value.
#[verifier::rlimit(100)]
#[verifier::spinoff_prover]
pub proof fn lemma_worker_msg_round_trip(v: WorkerMessageView)
    ensures
        spec_decode_worker(spec_worker_msg_bytes(v)) == Some(v),
{
    let s = spec_worker_msg_bytes(v);
    match v {
        WorkerMessageView::Init(name) => {
            let mid: Seq<u8> = match name {
                Some(n) => spec_quoted(n),
                None => lit_null(),
            };
            let t1 = mid + lit_obj_end();
            assert(s == lit_init() + t1);
            assert(s.subrange(0, s.len() as int) =~= s);
            lemma_peel(s, 0, s.len() as int, lit_init(), t1);
            let p1 = lit_init().len() as int;
            assert(spec_parse_lit(s, 0, lit_init()) == Some(p1));
            lemma_peel(s, p1, s.len() as int, mid, lit_obj_end());
            let p2 = p1 + mid.len() as int;
            assert(spec_parse_lit(s, p2, lit_obj_end()) == Some(p2 + 2));
            assert(p2 + 2 == s.len());
            match name {
                None => {
                    assert(spec_parse_lit(s, p1, lit_null()) == Some(p1 + 4));
                    assert(spec_decode_worker(s) == Some(WorkerMessageView::Init(None)));
                    assert(spec_decode_worker(spec_worker_msg_bytes(v)) == Some(v));
                },
                Some(n) => {
                    assert(mid.len() >= 2);
                    assert(s[p1] == 0x22) by {
                        assert(s.subrange(p1, p2)[0] == s[p1]);
                        assert(mid[0] == 0x22);
                    }
                    assert(spec_parse_lit(s, p1, lit_null()) is None) by {
                        if spec_parse_lit(s, p1, lit_null()) is Some {
                            assert(s.subrange(p1, p1 + 4)[0] == s[p1]);
                        }
                    }
                    lemma_parse_jstr_of_quoted(s, p1, n);
                    assert(spec_decode_worker(s) == Some(WorkerMessageView::Init(Some(n))));
                    assert(spec_decode_worker(spec_worker_msg_bytes(v)) == Some(v));
                },
            }
        },
        WorkerMessageView::RenderResult(res) => {
            assert(s.subrange(0, s.len() as int) =~= s);
            assert(spec_parse_lit(s, 0, lit_init()) is None) by {
                if spec_parse_lit(s, 0, lit_init()) is Some {
                    assert(s.subrange(0, 16)[2] == s[2]);
                }
            }
            match res {
                Ok(()) => {
                    assert(spec_parse_lit(s, 0, lit_result_ok()) == Some(28int));
                    assert(res == Ok::<(), ()>(())) by {
                        assert(res->Ok_0 =~= ());
                    }
                    assert(spec_decode_worker(spec_worker_msg_bytes(v)) == Some(v));
                },
                Err(()) => {
                    assert(spec_parse_lit(s, 0, lit_result_ok()) is None) by {
                        if spec_parse_lit(s, 0, lit_result_ok()) is Some {
                            assert(s.subrange(0, 28)[18] == s[18]);
                        }
                    }
                    assert(spec_parse_lit(s, 0, lit_result_err()) == Some(29int));
                    assert(res == Err::<(), ()>(())) by {
                        assert(res->Err_0 =~= ());
                    }
                    assert(spec_decode_worker(spec_worker_msg_bytes(v)) == Some(v));
                },
            }
        },
    }
}

/// Round trip of the transfer frames: decoding an encoded receive-ready or
/// send-ready message gives it back, for every value.
#[verifier::rlimit(100)]
#[verifier::spinoff_prover]
pub proof fn lemma_transfer_msg_round_trip(m: TransferMessage)
    ensures
        spec_decode_transfer(spec_transfer_msg_bytes(m)) == Some(m),
{
    let s = spec_transfer_msg_bytes(m);
    match m {
        TransferMessage::RecvReady { offset, has_compression } => {
            let d = spec_dec_digits(offset as nat);
            let b = spec_json_bool(has_compression);
            lemma_dec_digits_basic(offset as nat);
            let t3 = b + lit_obj_end();
            let t2 = lit_has_compression_field() + t3;
            let t1 = d + t2;
            assert(s == lit_recv_ready() + t1);
            assert(s.subrange(0, s.len() as int) =~= s);
            lemma_peel(s, 0, s.len() as int, lit_recv_ready(), t1);
            let p1 = lit_recv_ready().len() as int;
            assert(spec_parse_lit(s, 0, lit_recv_ready()) == Some(p1));
            lemma_peel(s, p1, s.len() as int, d, t2);
            let p2 = p1 + d.len() as int;
            assert(s[p2] == lit_has_compression_field()[0]) by {
                assert(s.subrange(p2, s.len() as int)[0] == s[p2]);
                assert(t2[0] == lit_has_compression_field()[0]);
            }
            assert(!is_digit(s[p2]));
            lemma_parse_dec_of_digits(s, p1, offset);
            lemma_peel(s, p2, s.len() as int, lit_has_compression_field(), t3);
            assert(spec_parse_lit(s, p2, lit_has_compression_field()) == Some(
                p2 + lit_has_compression_field().len(),
            ));
            let p3 = p2 + lit_has_compression_field().len() as int;
            lemma_peel(s, p3, s.len() as int, b, lit_obj_end());
            lemma_parse_bool_of_json(s, p3, has_compression);
            let p4 = p3 + b.len() as int;
            assert(spec_parse_lit(s, p4, lit_obj_end()) == Some(p4 + 2));
            assert(p4 + 2 == s.len());
        },
        TransferMessage::SendReady { length, use_compression } => {
            let d = spec_dec_digits(length as nat);
            let b = spec_json_bool(use_compression);
            lemma_dec_digits_basic(length as nat);
            let t3 = b + lit_obj_end();
            let t2 = lit_use_compression_field() + t3;
            let t1 = d + t2;
            assert(s == lit_send_ready() + t1);
            assert(s.subrange(0, s.len() as int) =~= s);
            assert(spec_parse_lit(s, 0, lit_recv_ready()) is None) by {
                if spec_parse_lit(s, 0, lit_recv_ready()) is Some {
                    assert(s.subrange(0, 23)[2] == s[2]);
                    assert(s[2] == lit_send_ready()[2]) by {
                        assert((lit_send_ready() + t1)[2] == lit_send_ready()[2]);
                    }
                }
            }
            lemma_peel(s, 0, s.len() as int, lit_send_ready(), t1);
            let p1 = lit_send_ready().len() as int;
            assert(spec_parse_lit(s, 0, lit_send_ready()) == Some(p1));
            lemma_peel(s, p1, s.len() as int, d, t2);
            let p2 = p1 + d.len() as int;
            assert(s[p2] == lit_use_compression_field()[0]) by {
                assert(s.subrange(p2, s.len() as int)[0] == s[p2]);
                assert(t2[0] == lit_use_compression_field()[0]);
            }
            assert(!is_digit(s[p2]));
            lemma_parse_dec_of_digits(s, p1, length);
            lemma_peel(s, p2, s.len() as int, lit_use_compression_field(), t3);
            assert(spec_parse_lit(s, p2, lit_use_compression_field()) == Some(
                p2 + lit_use_compression_field().len(),
            ));
            let p3 = p2 + lit_use_compression_field().len() as int;
            lemma_peel(s, p3, s.len() as int, b, lit_obj_end());
            lemma_parse_bool_of_json(s, p3, use_compression);
            let p4 = p3 + b.len() as int;
            assert(spec_parse_lit(s, p4, lit_obj_end()) == Some(p4 + 2));
            assert(p4 + 2 == s.len());
        },
    }
}
} // verus!
