use vstd::prelude::*;

use crate::trim::{trim, trim_slice};

verus! {

/// The bytes that open every event: `data: `.
pub open spec fn event_prefix() -> Seq<u8> {
    seq![0x64u8, 0x61u8, 0x74u8, 0x61u8, 0x3au8, 0x20u8]
}

/// The bytes that close every event: a blank line, `\n\n`.
pub open spec fn event_suffix() -> Seq<u8> {
    seq![0x0au8, 0x0au8]
}

/// One SSE event carrying `payload`: `data: <payload>\n\n`.
pub open spec fn sse_event(payload: Seq<u8>) -> Seq<u8> {
    event_prefix() + payload + event_suffix()
}

/// What one NDJSON line (without its `\n`) becomes: the event that carries
/// the trimmed line, or nothing when the line is blank.
pub open spec fn line_event(line: Seq<u8>) -> Seq<u8> {
    if trim(line).len() == 0 {
        Seq::empty()
    } else {
        sse_event(trim(line))
    }
}

/// Converts one NDJSON line (without its trailing `\n`) into one SSE event,
/// `data: <trimmed line>\n\n`; a line that is empty or only whitespace gives
/// no bytes at all.
pub fn line_to_sse(line: &[u8]) -> (out: Vec<u8>)
    ensures
        out@ == line_event(line@),
        trim(line@).len() == 0 ==> out@ == Seq::<u8>::empty(),
        trim(line@).len() > 0 ==> out@ == seq![0x64u8, 0x61u8, 0x74u8, 0x61u8, 0x3au8, 0x20u8] + trim(
            line@,
        ) + seq![0x0au8, 0x0au8],
{
    let trimmed = trim_slice(line);
    if trimmed.len() == 0 {
        return Vec::new();
    }
    let mut out: Vec<u8> = Vec::with_capacity(trimmed.len().saturating_add(8));
    out.push(0x64);
    out.push(0x61);
    out.push(0x74);
    out.push(0x61);
    out.push(0x3a);
    out.push(0x20);
    let ghost head = out@;
    assert(head =~= event_prefix());
    out.extend_from_slice(trimmed);
    assert(out@ =~= head + trimmed@);
    out.push(0x0a);
    out.push(0x0a);
    assert(out@ =~= sse_event(trimmed@));
    out
}

} // verus!
