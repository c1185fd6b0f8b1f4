//! The resumable transfer protocol, run in memory over real buffers, with
//! real compression underneath.

use tinyrf::message::TransferMessage;
use tinyrf::transfer::decoder;
use tinyrf::transfer::encoder;
use tinyrf::transfer::prepare_send;
use tinyrf::transfer::receive_payload;
use tinyrf::transfer::recv_ready;
use tinyrf::transfer::run_transfer;
use tinyrf::transfer::TransferError;

fn bundle(n: usize) -> Vec<u8> {
    (0..n).map(|i| (i * 31 % 251) as u8).collect()
}

#[test]
fn resumable_download_sends_only_the_suffix() {
    let source = bundle(4096);
    let mut dest: Vec<u8> = source[..1024].to_vec();
    let reply = run_transfer(&source, &mut dest, false, false).unwrap();
    assert_eq!(reply, TransferMessage::SendReady { length: 3072, use_compression: false });
    assert_eq!(dest, source);
}

#[test]
fn transfer_from_scratch_copies_everything() {
    let source = bundle(100);
    let mut dest: Vec<u8> = Vec::new();
    let reply = run_transfer(&source, &mut dest, false, true).unwrap();
    assert_eq!(reply, TransferMessage::SendReady { length: 100, use_compression: false });
    assert_eq!(dest, source);
}

#[test]
fn second_transfer_sends_zero_bytes() {
    let source = bundle(777);
    let mut dest: Vec<u8> = Vec::new();
    run_transfer(&source, &mut dest, true, true).unwrap();
    assert_eq!(dest, source);
    let again = run_transfer(&source, &mut dest, true, true).unwrap();
    match again {
        TransferMessage::SendReady { length, .. } => assert_eq!(length, 0),
        _ => panic!("wrong reply"),
    }
    assert_eq!(dest, source);
}

#[test]
fn compression_negotiation() {
    let source = bundle(2048);

    // Receiver refuses compression, sender supports it: raw payload.
    let ready = recv_ready(0, false);
    let (reply, wire) = prepare_send(&source, &ready, true).unwrap();
    assert_eq!(reply, TransferMessage::SendReady { length: 2048, use_compression: false });
    assert_eq!(wire, source);

    // Receiver offers compression and the sender supports it: compressed.
    let ready = recv_ready(0, true);
    let (reply, wire) = prepare_send(&source, &ready, true).unwrap();
    match reply {
        TransferMessage::SendReady { length, use_compression } => {
            assert!(use_compression);
            assert_eq!(length as usize, wire.len());
            assert_ne!(wire, source);
            assert_eq!(decoder(&wire).unwrap(), source);
        },
        _ => panic!("wrong reply"),
    }

    // Receiver offers compression but the sender has none: raw payload.
    let ready = recv_ready(0, true);
    let (reply, _) = prepare_send(&source, &ready, false).unwrap();
    assert_eq!(reply, TransferMessage::SendReady { length: 2048, use_compression: false });
}

#[test]
fn compressed_transfer_is_byte_identical() {
    let source = bundle(10_000);
    let mut dest: Vec<u8> = source[..5000].to_vec();
    let reply = run_transfer(&source, &mut dest, true, true).unwrap();
    match reply {
        TransferMessage::SendReady { use_compression, .. } => assert!(use_compression),
        _ => panic!("wrong reply"),
    }
    assert_eq!(dest, source);
}

#[test]
fn offset_past_source_is_rejected() {
    let source = bundle(10);
    let mut dest = bundle(11);
    assert_eq!(run_transfer(&source, &mut dest, false, false), Err(TransferError::BadOffset));
    assert_eq!(dest, bundle(11));
}

#[test]
fn unexpected_frames_abort() {
    let source = bundle(4);
    let wrong = TransferMessage::SendReady { length: 4, use_compression: false };
    assert_eq!(prepare_send(&source, &wrong, false).unwrap_err(), TransferError::UnexpectedMessage);

    let mut dest: Vec<u8> = Vec::new();
    let wrong = TransferMessage::RecvReady { offset: 0, has_compression: false };
    assert_eq!(
        receive_payload(&mut dest, &wrong, &source).unwrap_err(),
        TransferError::UnexpectedMessage
    );
    assert!(dest.is_empty());
}

#[test]
fn short_payload_is_an_eof_failure() {
    let mut dest: Vec<u8> = Vec::new();
    let reply = TransferMessage::SendReady { length: 10, use_compression: false };
    let wire = bundle(9);
    assert_eq!(receive_payload(&mut dest, &reply, &wire).unwrap_err(), TransferError::UnexpectedEof);
    assert!(dest.is_empty());
}

#[test]
fn compressor_really_compresses() {
    let data = vec![0u8; 65536];
    let packed = encoder(&data).unwrap();
    assert!(packed.len() < data.len());
    assert_ne!(packed, data);
    assert_eq!(decoder(&packed).unwrap(), data);
    // The empty buffer still yields a frame, never an empty wire image.
    let empty_frame = encoder(&Vec::new()).unwrap();
    assert!(!empty_frame.is_empty());
}

#[test]
fn decoder_rejects_junk() {
    assert_eq!(decoder(&b"this is not zstd".to_vec()).unwrap_err(), TransferError::Compression);
}

#[test]
fn compression_succeeds_on_any_suffix() {
    // Compression is owed, not best-effort: even a one-byte suffix and an
    // incompressible buffer go through.
    let mut dest: Vec<u8> = Vec::new();
    let source = vec![0xa5u8];
    assert!(run_transfer(&source, &mut dest, true, true).is_ok());
    assert_eq!(dest, source);

    let noisy = bundle(4096);
    let ready = recv_ready(0, true);
    let (reply, wire) = prepare_send(&noisy, &ready, true).unwrap();
    match reply {
        TransferMessage::SendReady { length, use_compression } => {
            assert!(use_compression);
            assert_eq!(length as usize, wire.len());
        },
        _ => panic!("wrong reply"),
    }
}
