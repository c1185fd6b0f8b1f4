//! The resumable file-transfer protocol: offset negotiation, capability-
//! gated compression, and exact byte accounting.  The decisions and the
//! byte-level payload handling are verified here; reading and writing the
//! actual files and sockets is the transport's concern.
//!
//! A transfer moves the suffix of a source past the receiver's current
//! length onto the destination's end.  The destination is only ever
//! appended to, and a destination that already holds the whole source
//! makes the transfer send nothing.

use vstd::prelude::*;

use crate::message::TransferMessage;

verus! {

broadcast use vstd::seq_lib::group_seq_properties;

/// A failure of the transfer protocol.  Each is fatal to the session.
#[derive(Clone, Copy, Debug, PartialEq, Eq, Structural)]
pub enum TransferError {
    /// The receiver reported an offset beyond the end of the source.
    BadOffset,
    /// A frame other than the expected transfer message arrived.
    UnexpectedMessage,
    /// The payload ended before the announced byte count arrived.
    UnexpectedEof,
    /// The compressor or decompressor failed.
    Compression,
}

/// The zstd frame that compressing a byte string produces.  Compression at
/// a fixed level in a fixed library is a function of the bytes alone; what
/// that frame looks like is not restated here.
pub uninterp spec fn zstd_frame_of(data: Seq<u8>) -> Seq<u8>;

#[verifier::external_type_specification]
#[verifier::external_body]
pub struct ExIoError(std::io::Error);

/// Relies on `zstd::encode_all` at the default level, writing into a
/// vector: compression is deterministic in its bytes and yields the zstd
/// frame for them, which is never empty (every frame starts with a magic
/// number).  Writing into a vector cannot fail, so the call has no failure
/// path short of memory exhaustion and success is owed.
#[verifier::external_body]
fn zstd_compress(data: &Vec<u8>) -> (r: Result<Vec<u8>, std::io::Error>)
    ensures
        r is Ok,
        r matches Ok(c) ==> c@ == zstd_frame_of(data@) && c@.len() > 0,
{
    zstd::encode_all(data.as_slice(), 0)
}

/// Relies on `zstd::decode_all`: decompression is lossless, so decoding
/// the zstd frame of some bytes succeeds and yields exactly those bytes.
#[verifier::external_body]
fn zstd_decompress(data: &Vec<u8>) -> (r: Result<Vec<u8>, std::io::Error>)
    ensures
        r matches Ok(o) ==> (forall|d: Seq<u8>| data@ == zstd_frame_of(d) ==> o@ == d),
        r is Err ==> (forall|d: Seq<u8>| data@ != zstd_frame_of(d)),
{
    zstd::decode_all(data.as_slice())
}

/// Compress a payload buffer for the wire: always succeeds, and the
/// result is the (nonempty) zstd frame of the input.
pub fn encoder(data: &Vec<u8>) -> (r: Result<Vec<u8>, TransferError>)
    ensures
        r is Ok,
        r matches Ok(c) ==> c@ == zstd_frame_of(data@) && c@.len() > 0,
{
    match zstd_compress(data) {
        Ok(c) => Ok(c),
        Err(_) => Err(TransferError::Compression),
    }
}

/// Decompress a payload buffer from the wire: on the frame of some bytes
/// it succeeds and returns those bytes.
pub fn decoder(data: &Vec<u8>) -> (r: Result<Vec<u8>, TransferError>)
    ensures
        forall|d: Seq<u8>| data@ == zstd_frame_of(d) ==> (r matches Ok(o) && o@ == d),
        r matches Err(e) && e == TransferError::Compression || r is Ok,
{
    match zstd_decompress(data) {
        Ok(o) => Ok(o),
        Err(_) => Err(TransferError::Compression),
    }
}

/// The receiver's opening frame: its current destination length as the
/// offset, and whether it can decompress.
pub fn recv_ready(dest_len: u64, has_compression: bool) -> (m: TransferMessage)
    ensures
        m == (TransferMessage::RecvReady { offset: dest_len, has_compression }),
{
    TransferMessage::RecvReady { offset: dest_len, has_compression }
}

/// The sender's reply to the receiver's opening frame, and the payload
/// bytes to put on the wire after it.
///
/// Compression is used exactly when both sides support it.  The announced
/// length is always the on-the-wire byte count: the raw suffix length, or
/// the compressed frame's length when compression is used.  An offset past
/// the end of the source is rejected; a frame other than `RecvReady` is a
/// protocol violation; an offset equal to the source length completes at
/// once with an empty payload and no compression work.  On every accepted
/// offset the payload is owed: preparation cannot fail.
pub fn prepare_send(source: &Vec<u8>, m: &TransferMessage, local_support: bool) -> (r: Result<
    (TransferMessage, Vec<u8>),
    TransferError,
>)
    ensures
        match *m {
            TransferMessage::RecvReady { offset, has_compression } => {
                let comp = has_compression && local_support;
                let suffix = source@.skip(offset as int);
                if offset > source@.len() {
                    r == Err::<(TransferMessage, Vec<u8>), TransferError>(TransferError::BadOffset)
                } else if offset == source@.len() {
                    r matches Ok((sm, wire)) && wire@.len() == 0 && sm == (
                    TransferMessage::SendReady { length: 0, use_compression: comp })
                } else if comp {
                    r matches Ok((sm, wire)) && wire@ == zstd_frame_of(suffix) && wire@.len() > 0
                        && sm == (TransferMessage::SendReady {
                        length: wire@.len() as u64,
                        use_compression: true,
                    })
                } else {
                    r matches Ok((sm, wire)) && wire@ == suffix && sm == (
                    TransferMessage::SendReady {
                        length: (source@.len() - offset) as u64,
                        use_compression: false,
                    })
                }
            },
            TransferMessage::SendReady { .. } => r == Err::<
                (TransferMessage, Vec<u8>),
                TransferError,
            >(TransferError::UnexpectedMessage),
        },
{
    match m {
        TransferMessage::RecvReady { offset, has_compression } => {
            let offset = *offset;
            let use_compression = *has_compression && local_support;
            if offset > source.len() as u64 {
                return Err(TransferError::BadOffset);
            }
            let mut suffix: Vec<u8> = Vec::new();
            let mut k: usize = offset as usize;
            while k < source.len()
                invariant
                    offset <= k <= source@.len(),
                    suffix@ == source@.subrange(offset as int, k as int),
                decreases source@.len() - k,
            {
                suffix.push(source[k]);
                k = k + 1;
                proof {
                    assert(suffix@ =~= source@.subrange(offset as int, k as int));
                }
            }
            proof {
                assert(suffix@ =~= source@.skip(offset as int));
            }
            if suffix.len() == 0 {
                return Ok(
                    (TransferMessage::SendReady { length: 0, use_compression }, Vec::new()),
                );
            }
            if use_compression {
                let wire = match encoder(&suffix) {
                    Ok(w) => w,
                    Err(e) => {
                        return Err(e);
                    },
                };
                let length = wire.len() as u64;
                Ok((TransferMessage::SendReady { length, use_compression: true }, wire))
            } else {
                let length = suffix.len() as u64;
                Ok((TransferMessage::SendReady { length, use_compression: false }, suffix))
            }
        },
        TransferMessage::SendReady { .. } => Err(TransferError::UnexpectedMessage),
    }
}

/// The receiver's handling of the sender's reply and the payload bytes
/// that followed it: verify the byte count, decompress if negotiated, and
/// append to the destination.  The destination is never truncated; on any
/// failure it is unchanged.
pub fn receive_payload(dest: &mut Vec<u8>, m: &TransferMessage, wire: &Vec<u8>) -> (r: Result<
    (),
    TransferError,
>)
    ensures
        old(dest)@.is_prefix_of(final(dest)@),
        match *m {
            TransferMessage::SendReady { length, use_compression } => {
                if wire@.len() != length {
                    r == Err::<(), TransferError>(TransferError::UnexpectedEof) && final(dest)@
                        == old(dest)@
                } else if length == 0 {
                    r == Ok::<(), TransferError>(()) && final(dest)@ == old(dest)@
                } else if use_compression {
                    &&& (forall|d: Seq<u8>|
                        wire@ == zstd_frame_of(d) ==> r == Ok::<(), TransferError>(())
                            && final(dest)@ == old(dest)@ + d)
                    &&& (r matches Err(e) ==> e == TransferError::Compression && final(dest)@
                        == old(dest)@)
                } else {
                    r == Ok::<(), TransferError>(()) && final(dest)@ == old(dest)@ + wire@
                }
            },
            TransferMessage::RecvReady { .. } => r == Err::<(), TransferError>(
                TransferError::UnexpectedMessage,
            ) && final(dest)@ == old(dest)@,
        },
{
    match m {
        TransferMessage::SendReady { length, use_compression } => {
            if wire.len() as u64 != *length {
                return Err(TransferError::UnexpectedEof);
            }
            if *length == 0 {
                return Ok(());
            }
            if *use_compression {
                let data = match decoder(wire) {
                    Ok(d) => d,
                    Err(e) => {
                        return Err(e);
                    },
                };
                append_bytes(dest, &data);
                Ok(())
            } else {
                append_bytes(dest, wire);
                Ok(())
            }
        },
        TransferMessage::RecvReady { .. } => Err(TransferError::UnexpectedMessage),
    }
}

/// Append all bytes of `s` to `dest`.
fn append_bytes(dest: &mut Vec<u8>, s: &Vec<u8>)
    ensures
        final(dest)@ == old(dest)@ + s@,
{
    let mut k: usize = 0;
    while k < s.len()
        invariant
            k <= s@.len(),
            dest@ == old(dest)@ + s@.take(k as int),
        decreases s@.len() - k,
    {
        dest.push(s[k]);
        k = k + 1;
        proof {
            assert(dest@ =~= old(dest)@ + s@.take(k as int));
        }
    }
    proof {
        assert(s@.take(s@.len() as int) =~= s@);
    }
}

/// What a successful transfer leaves in the destination: the source's
/// suffix past the destination's length is appended; a destination longer
/// than the source is left alone (the sender rejects such an offset).
pub open spec fn transfer_appended(source: Seq<u8>, dest: Seq<u8>) -> Seq<u8> {
    if dest.len() <= source.len() {
        dest + source.skip(dest.len() as int)
    } else {
        dest
    }
}

/// The announced wire length of an uncompressed transfer.
pub open spec fn raw_wire_len(source: Seq<u8>, dest: Seq<u8>) -> int {
    if dest.len() <= source.len() {
        source.len() - dest.len()
    } else {
        0
    }
}

/// Run the whole transfer in memory, both roles: the receiver announces
/// its offset, the sender prepares and "streams" the payload, and the
/// receiver checks and appends it.  Returns the sender's reply frame, with
/// the wire byte count the payload really had.
///
/// The transfer succeeds on every destination no longer than the source,
/// compressed or not, and then leaves the destination holding exactly the
/// source's image past its old length; the one failure is an offset past
/// the source's end, which changes nothing.
pub fn run_transfer(
    source: &Vec<u8>,
    dest: &mut Vec<u8>,
    sender_support: bool,
    receiver_support: bool,
) -> (r: Result<TransferMessage, TransferError>)
    ensures
        old(dest)@.is_prefix_of(final(dest)@),
        old(dest)@.len() <= source@.len() ==> r is Ok && final(dest)@ == transfer_appended(
            source@,
            old(dest)@,
        ),
        old(dest)@.len() > source@.len() ==> r == Err::<TransferMessage, TransferError>(
            TransferError::BadOffset,
        ) && final(dest)@ == old(dest)@,
        r matches Ok(sm) ==> sm matches TransferMessage::SendReady { length, use_compression }
            && use_compression == (sender_support && receiver_support) && (!use_compression
            ==> length == raw_wire_len(source@, old(dest)@)) && (old(dest)@.len() == source@.len()
            ==> length == 0),
{
    let offset = dest.len() as u64;
    proof {
        vstd::std_specs::vec::axiom_spec_len(source);
        vstd::std_specs::vec::axiom_spec_len(dest);
    }
    let ready = recv_ready(offset, receiver_support);
    let (reply, wire) = match prepare_send(source, &ready, sender_support) {
        Ok(x) => x,
        Err(e) => {
            return Err(e);
        },
    };
    proof {
        vstd::std_specs::vec::axiom_spec_len(&wire);
    }
    match receive_payload(dest, &reply, &wire) {
        Ok(()) => {
            proof {
                if old(dest)@.len() < source@.len() && sender_support && receiver_support {
                    assert(wire@ == zstd_frame_of(source@.skip(old(dest)@.len() as int)));
                    assert(dest@ == old(dest)@ + source@.skip(old(dest)@.len() as int));
                }
                if old(dest)@.len() == source@.len() {
                    assert(source@.skip(old(dest)@.len() as int) =~= Seq::<u8>::empty());
                    assert(old(dest)@ + source@.skip(old(dest)@.len() as int) =~= old(dest)@);
                }
            }
            Ok(reply)
        },
        Err(e) => Err(e),
    }
}

/// Transfer idempotence: a second run over the same source and destination
/// leaves the destination exactly as the first run left it, and has no
/// bytes left to send.
pub proof fn lemma_transfer_idempotent(source: Seq<u8>, dest: Seq<u8>)
    ensures
        transfer_appended(source, transfer_appended(source, dest)) == transfer_appended(
            source,
            dest,
        ),
        dest.len() <= source.len() ==> raw_wire_len(source, transfer_appended(source, dest)) == 0,
{
    if dest.len() <= source.len() {
        let once = transfer_appended(source, dest);
        assert(once.len() == source.len());
        assert(transfer_appended(source, once) =~= once) by {
            assert(source.skip(once.len() as int) =~= Seq::<u8>::empty());
        }
    }
}

/// Resumability: when the destination already holds the first `k` bytes of
/// the source, the transfer appends exactly the missing suffix — the raw
/// wire length is the source length minus `k` — and the destination ends
/// byte-identical to the source.
pub proof fn lemma_transfer_resumes(source: Seq<u8>, k: int)
    requires
        0 <= k <= source.len(),
    ensures
        transfer_appended(source, source.take(k)) == source,
        raw_wire_len(source, source.take(k)) == source.len() - k,
{
    assert(source.take(k) + source.skip(k) =~= source);
}

} // verus!
