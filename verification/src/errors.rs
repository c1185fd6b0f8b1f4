//! Fatal start-up failures of the two processes.  Everything else — a
//! session's transport dying, a transfer going wrong, a render failing —
//! is confined to its session or its frame and has its own type.

use vstd::prelude::*;

verus! {

/// A failure that stops the server before it serves anybody.
#[derive(Clone, Copy, Debug, PartialEq, Eq, Structural)]
pub enum ServerError {
    /// The working directory could not be created.
    WorkingDirError,
    /// The listening socket could not be bound.
    InitError,
}

/// What an operator reads for a server start-up failure.
pub open spec fn spec_server_error_text(e: ServerError) -> Seq<char> {
    match e {
        ServerError::WorkingDirError => "error initializing working directory"@,
        ServerError::InitError => "error starting server"@,
    }
}

impl ServerError {
    /// The operator-visible description of the failure.
    pub fn describe(&self) -> (r: &'static str)
        ensures
            r@ == spec_server_error_text(*self),
    {
        match self {
            ServerError::WorkingDirError => "error initializing working directory",
            ServerError::InitError => "error starting server",
        }
    }
}

/// A failure that stops the worker before or while it serves.
#[derive(Clone, Copy, Debug, PartialEq, Eq, Structural)]
pub enum WorkerError {
    /// The working directory could not be created.
    WorkingDirError,
    /// The connection to the server could not be opened.
    ConnectError,
    /// The session transport failed.
    IoError,
    /// A file transfer failed.
    TransferFailed,
}

/// What an operator reads for a worker failure.
pub open spec fn spec_worker_error_text(e: WorkerError) -> Seq<char> {
    match e {
        WorkerError::WorkingDirError => "error initializing working directory"@,
        WorkerError::ConnectError => "error connecting to server"@,
        WorkerError::IoError => "I/O error"@,
        WorkerError::TransferFailed => "error transferring file"@,
    }
}

impl WorkerError {
    /// The operator-visible description of the failure.
    pub fn describe(&self) -> (r: &'static str)
        ensures
            r@ == spec_worker_error_text(*self),
    {
        match self {
            WorkerError::WorkingDirError => "error initializing working directory",
            WorkerError::ConnectError => "error connecting to server",
            WorkerError::IoError => "I/O error",
            WorkerError::TransferFailed => "error transferring file",
        }
    }
}

} // verus!
