//! Round trips and exact wire forms of every control-message variant.

use tinyrf::ext::FileExt;
use tinyrf::message::decode_server_message;
use tinyrf::message::decode_transfer_message;
use tinyrf::message::decode_worker_message;
use tinyrf::message::encode_server_message;
use tinyrf::message::encode_transfer_message;
use tinyrf::message::encode_worker_message;
use tinyrf::message::ServerMessage;
use tinyrf::message::TransferMessage;
use tinyrf::message::WorkerMessage;
use tinyrf::task::RenderTask;

fn task(uuid: u128, name: &[u8], frame: u32, ext: FileExt) -> RenderTask {
    RenderTask { project_uuid: uuid, project_name: name.to_vec(), frame, output_ext: ext }
}

fn server_round_trip(t: RenderTask) -> RenderTask {
    let line = encode_server_message(&ServerMessage::StartRender(t));
    match decode_server_message(&line) {
        Some(ServerMessage::StartRender(u)) => u,
        None => panic!("line did not decode"),
    }
}

#[test]
fn start_render_exact_bytes() {
    let t = task(0x00112233_4455_6677_8899_aabbccddeeff, b"Scene", 7, FileExt::PNG);
    let line = encode_server_message(&ServerMessage::StartRender(t));
    assert_eq!(
        line,
        br#"{"StartRender":{"project_uuid":"00112233-4455-6677-8899-aabbccddeeff","project_name":"Scene","frame":7,"output_ext":"PNG"}}"#.to_vec()
    );
}

#[test]
fn start_render_round_trip_plain() {
    let t = server_round_trip(task(42, b"P", 1, FileExt::PNG));
    assert_eq!(t.project_uuid, 42);
    assert_eq!(t.project_name, b"P".to_vec());
    assert_eq!(t.frame, 1);
    assert!(matches!(t.output_ext, FileExt::PNG));
}

#[test]
fn start_render_round_trip_escapes() {
    let name = b"a\"b\\c\nd\x01 e";
    let t = server_round_trip(task(u128::MAX, name, u32::MAX, FileExt::JP2));
    assert_eq!(t.project_name, name.to_vec());
    assert_eq!(t.frame, u32::MAX);
    assert!(matches!(t.output_ext, FileExt::JP2));
}

#[test]
fn start_render_round_trip_utf8_name() {
    let name = "projet numéro 1".as_bytes();
    let t = server_round_trip(task(7, name, 2, FileExt::TGA));
    assert_eq!(t.project_name, name.to_vec());
}

#[test]
fn start_render_every_format_round_trips() {
    for ext in [FileExt::BMP, FileExt::RGB, FileExt::PNG, FileExt::JPG, FileExt::JP2, FileExt::TGA]
    {
        let t = server_round_trip(task(1, b"x", 3, ext));
        assert_eq!(t.output_ext.ext_name(), ext.ext_name());
    }
}

#[test]
fn server_decode_rejects_garbage() {
    assert!(decode_server_message(&b"not json".to_vec()).is_none());
    assert!(decode_server_message(&b"".to_vec()).is_none());
    assert!(decode_server_message(&b"{\"StartRender\":{}}".to_vec()).is_none());
}

#[test]
fn server_decode_rejects_trailing_bytes() {
    let t = task(42, b"P", 1, FileExt::PNG);
    let mut line = encode_server_message(&ServerMessage::StartRender(t));
    line.push(b' ');
    assert!(decode_server_message(&line).is_none());
}

#[test]
fn server_decode_rejects_frame_past_u32() {
    let line = br#"{"StartRender":{"project_uuid":"00112233-4455-6677-8899-aabbccddeeff","project_name":"x","frame":4294967296,"output_ext":"PNG"}}"#.to_vec();
    assert!(decode_server_message(&line).is_none());
}

#[test]
fn init_round_trip_named() {
    let line = encode_worker_message(&WorkerMessage::Init { name: Some(b"node-1".to_vec()) });
    assert_eq!(line, br#"{"Init":{"name":"node-1"}}"#.to_vec());
    match decode_worker_message(&line) {
        Some(WorkerMessage::Init { name: Some(n) }) => assert_eq!(n, b"node-1".to_vec()),
        _ => panic!("wrong decode"),
    }
}

#[test]
fn init_round_trip_unnamed() {
    let line = encode_worker_message(&WorkerMessage::Init { name: None });
    assert_eq!(line, br#"{"Init":{"name":null}}"#.to_vec());
    assert!(matches!(decode_worker_message(&line), Some(WorkerMessage::Init { name: None })));
}

#[test]
fn render_result_round_trips() {
    let ok = encode_worker_message(&WorkerMessage::RenderResult(Ok(())));
    assert_eq!(ok, br#"{"RenderResult":{"Ok":null}}"#.to_vec());
    assert!(matches!(decode_worker_message(&ok), Some(WorkerMessage::RenderResult(Ok(())))));
    let err = encode_worker_message(&WorkerMessage::RenderResult(Err(())));
    assert_eq!(err, br#"{"RenderResult":{"Err":null}}"#.to_vec());
    assert!(matches!(decode_worker_message(&err), Some(WorkerMessage::RenderResult(Err(())))));
}

#[test]
fn worker_decode_rejects_garbage() {
    assert!(decode_worker_message(&b"{\"RenderResult\":{\"Ok\":null}} ".to_vec()).is_none());
    assert!(decode_worker_message(&b"{\"Init\":{\"name\":}}".to_vec()).is_none());
}

#[test]
fn transfer_messages_round_trip() {
    let rr = TransferMessage::RecvReady { offset: 1024, has_compression: true };
    let line = encode_transfer_message(&rr);
    assert_eq!(line, br#"{"RecvReady":{"offset":1024,"has_compression":true}}"#.to_vec());
    assert_eq!(decode_transfer_message(&line), Some(rr));

    let sr = TransferMessage::SendReady { length: 3072, use_compression: false };
    let line = encode_transfer_message(&sr);
    assert_eq!(line, br#"{"SendReady":{"length":3072,"use_compression":false}}"#.to_vec());
    assert_eq!(decode_transfer_message(&line), Some(sr));

    let zero = TransferMessage::SendReady { length: 0, use_compression: true };
    assert_eq!(decode_transfer_message(&encode_transfer_message(&zero)), Some(zero));

    let big = TransferMessage::RecvReady { offset: u64::MAX, has_compression: false };
    assert_eq!(decode_transfer_message(&encode_transfer_message(&big)), Some(big));
}

#[test]
fn transfer_decode_rejects_garbage() {
    assert!(decode_transfer_message(&b"{\"RecvReady\":{\"offset\":-1,\"has_compression\":true}}".to_vec()).is_none());
    assert!(decode_transfer_message(&b"{\"SendReady\":{\"length\":1,\"use_compression\":maybe}}".to_vec()).is_none());
    assert!(decode_transfer_message(&b"".to_vec()).is_none());
}

#[test]
fn decoder_accepts_standard_short_escapes() {
    // Another JSON producer writes control bytes with the named escapes.
    let line = br#"{"Init":{"name":"a\nb\tc\rd\/e\bf\fg"}}"#.to_vec();
    match decode_worker_message(&line) {
        Some(WorkerMessage::Init { name: Some(n) }) => {
            assert_eq!(n, b"a\nb\tc\rd/e\x08f\x0cg".to_vec());
        },
        _ => panic!("wrong decode"),
    }
}

#[test]
fn decoder_accepts_short_escapes_in_project_names() {
    let line = br#"{"StartRender":{"project_uuid":"00000000-0000-0000-0000-000000000001","project_name":"a\tb","frame":1,"output_ext":"PNG"}}"#.to_vec();
    match decode_server_message(&line) {
        Some(ServerMessage::StartRender(t)) => assert_eq!(t.project_name, b"a\tb".to_vec()),
        None => panic!("line did not decode"),
    }
}

#[test]
fn decoder_still_rejects_unknown_escapes() {
    let line = br#"{"Init":{"name":"a\qb"}}"#.to_vec();
    assert!(decode_worker_message(&line).is_none());
    let line = br#"{"Init":{"name":"a\u001"}}"#.to_vec();
    assert!(decode_worker_message(&line).is_none());
}
