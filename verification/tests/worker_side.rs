//! The worker-side decisions, file naming, and error descriptions.

use tinyrf::errors::ServerError;
use tinyrf::errors::WorkerError;
use tinyrf::ext::FileExt;
use tinyrf::message::WorkerMessage;
use tinyrf::task::output_file_name;
use tinyrf::worker::render_output_template;
use tinyrf::worker::render_succeeded;
use tinyrf::worker::worker_init_message;
use tinyrf::worker::worker_render_reply;

#[test]
fn init_name_prefers_the_operator_over_the_host() {
    let m = worker_init_message(Some(b"cli".to_vec()), Some(b"host".to_vec()));
    assert!(matches!(m, WorkerMessage::Init { name: Some(n) } if n == b"cli".to_vec()));
    let m = worker_init_message(None, Some(b"host".to_vec()));
    assert!(matches!(m, WorkerMessage::Init { name: Some(n) } if n == b"host".to_vec()));
    let m = worker_init_message(None, None);
    assert!(matches!(m, WorkerMessage::Init { name: None }));
}

#[test]
fn render_success_needs_exit_and_output() {
    assert!(render_succeeded(true, true));
    assert!(!render_succeeded(true, false));
    assert!(!render_succeeded(false, true));
    assert!(!render_succeeded(false, false));
}

#[test]
fn render_reply_uploads_only_on_success() {
    let (m, upload) = worker_render_reply(true);
    assert!(matches!(m, WorkerMessage::RenderResult(Ok(()))));
    assert!(upload);
    let (m, upload) = worker_render_reply(false);
    assert!(matches!(m, WorkerMessage::RenderResult(Err(()))));
    assert!(!upload);
}

#[test]
fn output_file_names_are_zero_padded() {
    assert_eq!(output_file_name(42, FileExt::PNG), b"0042.png".to_vec());
    assert_eq!(output_file_name(0, FileExt::BMP), b"0000.bmp".to_vec());
    assert_eq!(output_file_name(12345, FileExt::JPG), b"12345.jpg".to_vec());
    assert_eq!(output_file_name(7, FileExt::JP2), b"0007.jp2".to_vec());
    assert_eq!(output_file_name(999, FileExt::RGB), b"0999.rgb".to_vec());
    assert_eq!(output_file_name(1000, FileExt::TGA), b"1000.tga".to_vec());
}

#[test]
fn render_template_uses_the_frame_placeholder() {
    assert_eq!(render_output_template(FileExt::PNG), b"####.png".to_vec());
    assert_eq!(render_output_template(FileExt::TGA), b"####.tga".to_vec());
}

#[test]
fn error_descriptions_name_the_failure() {
    assert_eq!(ServerError::WorkingDirError.describe(), "error initializing working directory");
    assert_eq!(ServerError::InitError.describe(), "error starting server");
    assert_eq!(WorkerError::WorkingDirError.describe(), "error initializing working directory");
    assert_eq!(WorkerError::ConnectError.describe(), "error connecting to server");
    assert_eq!(WorkerError::IoError.describe(), "I/O error");
    assert_eq!(WorkerError::TransferFailed.describe(), "error transferring file");
}
