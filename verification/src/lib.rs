//! Client-side engine for a streamed code-generation protocol.
//!
//! The engine consumes an unbounded byte stream of `data:<json>` frames
//! delimited by blank lines, decodes each frame into a typed event, and
//! applies file-write events only inside a sandboxed project directory.
//! Framing, decoding, path containment and the stream state machine are
//! verified; the surrounding I/O (HTTP, filesystem, UI emission) is left
//! to the embedding application.

pub mod decode;
pub mod engine;
pub mod event;
pub mod frame;
pub mod json;
pub mod project;
pub mod request;
pub mod s3;
pub mod sandbox;
pub mod settings;
pub mod text;
