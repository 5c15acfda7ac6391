//! Serial matrix-multiplication service: the wire protocol, the frame reader, the request and
//! response sessions, and the user-interrupt runtime pieces that carry them.
//!
//! Everything in this crate is a plain computation over plain values. Device and socket I/O,
//! `async` plumbing and floating point live in the program around it.

pub mod async_wait;
pub mod benchmark;
pub mod bytes;
pub mod channel;
pub mod cli;
pub mod compute;
pub mod crc;
pub mod error;
pub mod executor;
pub mod frame_reader;
pub mod handshake;
pub mod ipc;
pub mod line_laws;
pub mod pipe;
pub mod pipeline;
pub mod pipeline_laws;
pub mod poll;
pub mod protocol;
pub mod reactor;
pub mod reader_laws;
pub mod receiver;
pub mod ring;
pub mod rng;
pub mod runs;
pub mod sender;
pub mod serial;
pub mod setup;
pub mod shm;
pub mod shm_laws;
pub mod signal;
pub mod sys;
pub mod text;
pub mod trace;
pub mod uintr;
pub mod uintr_core;
