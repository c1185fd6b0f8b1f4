//! Coordination core of a small distributed render farm.
//!
//! A central server owns a set of projects (a bundle file plus a frame
//! range) and a pool of workers that repeatedly ask for frames, receive the
//! bundle, render locally, and return the produced image.  This crate holds
//! the verified core: the wire codec, the resumable file-transfer protocol,
//! the project model, the scheduler, and the per-session state machines.
//! The unverified shell around it (sockets, files, threads, subprocesses)
//! drives these pieces and performs the I/O they decide on.

pub mod errors;
pub mod ext;
pub mod jnum;
pub mod jstr;
pub mod message;
pub mod project;
pub mod scheduler;
pub mod session;
pub mod seqtools;
pub mod task;
pub mod transfer;
pub mod worker;
