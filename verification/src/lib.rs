//! Conversion of a streamed NDJSON (newline-delimited JSON) response body
//! into Server-Sent Events, one `data: <line>\n\n` event per non-blank line.
//!
//! The library holds the byte-level logic and its proofs:
//! - [`trim`]: ASCII-whitespace trimming of a line;
//! - [`sse`]: turning one line into one SSE event;
//! - [`stream`]: the incremental, chunk-by-chunk conversion with its buffer of
//!   the unfinished line;
//! - [`laws`]: what holds across steps, such as that the way a body is cut
//!   into chunks does not change what is sent;
//! - [`filter`]: the per-response state of the HTTP filter and its decisions.

pub mod filter;
pub mod laws;
pub mod sse;
pub mod stream;
pub mod trim;

pub use filter::{HeaderEdit, NdjsonSseFilter};
pub use sse::line_to_sse;
pub use stream::process_ndjson_body_chunk;
pub use trim::trim_slice;
