use vstd::prelude::*;

use crate::laws::lemma_pending_has_no_newline;
use crate::stream::{chunk_bytes, process_ndjson_body_chunk, step_buffer, step_output, NEWLINE};

verus! {

/// A change that the filter makes to the response headers.
pub enum HeaderEdit {
    /// Set header `name` to `value`.
    SetValue { name: &'static str, value: &'static str },
    /// Remove header `name`.
    Remove { name: &'static str },
}

/// The per-response state of the filter: the bytes of the line that has
/// begun but not yet ended in the body seen so far.
pub struct NdjsonSseFilter {
    buffer: Vec<u8>,
}

impl View for NdjsonSseFilter {
    type V = Seq<u8>;

    /// The buffered bytes of the unfinished line.
    closed spec fn view(&self) -> Seq<u8> {
        self.buffer@
    }
}

impl NdjsonSseFilter {
    /// The buffer only ever holds part of one line: never a `\n`.
    #[verifier::type_invariant]
    closed spec fn buffer_holds_no_newline(self) -> bool {
        !self.buffer@.contains(NEWLINE)
    }

    /// A filter for a new response, with nothing buffered.
    pub fn new() -> (f: Self)
        ensures
            f@ == Seq::<u8>::empty(),
    {
        NdjsonSseFilter { buffer: Vec::new() }
    }

    /// The buffered bytes of the unfinished line.
    pub fn buffered(&self) -> (b: &[u8])
        ensures
            b@ == self@,
            !b@.contains(NEWLINE),
    {
        proof {
            use_type_invariant(self);
        }
        self.buffer.as_slice()
    }

    /// Handles one piece of the response body: returns the SSE bytes that
    /// replace it in the response, and keeps the unfinished last line for the
    /// next piece (or converts it too when the body ends here).
    pub fn on_http_response_body(&mut self, chunk: Option<&[u8]>, end_of_stream: bool) -> (out: Vec<
        u8,
    >)
        ensures
            out@ == step_output(old(self)@ + chunk_bytes(chunk), end_of_stream),
            final(self)@ == step_buffer(old(self)@ + chunk_bytes(chunk), end_of_stream),
            !final(self)@.contains(NEWLINE),
    {
        let mut buffer: Vec<u8> = Vec::new();
        std::mem::swap(&mut buffer, &mut self.buffer);
        let (output, next) = process_ndjson_body_chunk(buffer, chunk, end_of_stream);
        proof {
            lemma_pending_has_no_newline(old(self)@ + chunk_bytes(chunk));
        }
        self.buffer = next;
        output
    }

    /// The header changes for the response: its content type becomes
    /// `text/event-stream`, and its `content-length` goes, since the body's
    /// length changes.
    pub fn on_http_response_headers(&self) -> (edits: Vec<HeaderEdit>)
        ensures
            edits@.len() == 2,
            edits@[0] matches HeaderEdit::SetValue { name, value } && name@ == "content-type"@ && value@
                == "text/event-stream"@,
            edits@[1] matches HeaderEdit::Remove { name } && name@ == "content-length"@,
    {
        let mut edits: Vec<HeaderEdit> = Vec::new();
        edits.push(HeaderEdit::SetValue { name: "content-type", value: "text/event-stream" });
        edits.push(HeaderEdit::Remove { name: "content-length" });
        edits
    }
}

impl Default for NdjsonSseFilter {
    fn default() -> (f: Self)
        ensures
            f@ == Seq::<u8>::empty(),
    {
        NdjsonSseFilter::new()
    }
}

} // verus!
