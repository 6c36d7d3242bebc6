use vstd::prelude::*;

use crate::sse::{line_event, line_to_sse};

verus! {

/// The byte that ends an NDJSON line.
pub const NEWLINE: u8 = 0x0a;

/// The unfinished line left after reading `s`: the bytes after its last
/// `\n`, or all of `s` when it holds none.
pub open spec fn pending(s: Seq<u8>) -> Seq<u8>
    decreases s.len(),
{
    if s.len() == 0 {
        s
    } else if s.last() == NEWLINE {
        Seq::empty()
    } else {
        pending(s.drop_last()).push(s.last())
    }
}

/// The events for the complete lines of `s` (each ended by `\n`), in order.
pub open spec fn emitted(s: Seq<u8>) -> Seq<u8>
    decreases s.len(),
{
    if s.len() == 0 {
        Seq::empty()
    } else if s.last() == NEWLINE {
        emitted(s.drop_last()) + line_event(pending(s.drop_last()))
    } else {
        emitted(s.drop_last())
    }
}

/// The bytes of an optional chunk; no chunk counts as no bytes.
pub open spec fn chunk_bytes(chunk: Option<&[u8]>) -> Seq<u8> {
    match chunk {
        Some(c) => c@,
        None => Seq::empty(),
    }
}

/// What one step sends when the buffered and newly arrived bytes are `data`:
/// the events of the complete lines and, at the end of the stream, the event
/// of the unfinished last line.
pub open spec fn step_output(data: Seq<u8>, end_of_stream: bool) -> Seq<u8> {
    if end_of_stream {
        emitted(data) + line_event(pending(data))
    } else {
        emitted(data)
    }
}

/// What one step keeps for the next one when the buffered and newly arrived
/// bytes are `data`: the unfinished last line, or nothing at the end of the
/// stream.
pub open spec fn step_buffer(data: Seq<u8>, end_of_stream: bool) -> Seq<u8> {
    if end_of_stream {
        Seq::empty()
    } else {
        pending(data)
    }
}

/// One step of the conversion: appends `chunk` to the bytes left over from
/// earlier steps, returns the SSE bytes to send now and the bytes to keep.
/// Every complete line becomes one event; the unfinished last line is kept,
/// unless the stream ends here, in which case it is converted too.
pub fn process_ndjson_body_chunk(buffer: Vec<u8>, chunk: Option<&[u8]>, end_of_stream: bool) -> (res: (
    Vec<u8>,
    Vec<u8>,
))
    ensures
        res.0@ == step_output(buffer@ + chunk_bytes(chunk), end_of_stream),
        res.1@ == step_buffer(buffer@ + chunk_bytes(chunk), end_of_stream),
        chunk matches Some(c) ==> res.0@ == step_output(buffer@ + c@, end_of_stream) && res.1@
            == step_buffer(buffer@ + c@, end_of_stream),
        chunk is None ==> res.0@ == step_output(buffer@, end_of_stream) && res.1@ == step_buffer(
            buffer@,
            end_of_stream,
        ),
{
    let mut buffer = buffer;
    let ghost old_buffer = buffer@;
    if let Some(c) = chunk {
        buffer.extend_from_slice(c);
        assert(buffer@ =~= old_buffer + c@);
    } else {
        assert(buffer@ =~= old_buffer + Seq::<u8>::empty());
    }
    assert(old_buffer + chunk_bytes(chunk) == buffer@);
    let ghost data = buffer@;
    let len = buffer.len();
    let mut output: Vec<u8> = Vec::new();
    let mut line_start: usize = 0;
    let mut i: usize = 0;
    assert(data.take(0) =~= Seq::<u8>::empty());
    assert(data.subrange(0, 0) =~= Seq::<u8>::empty());
    while i < len
        invariant
            len == buffer@.len(),
            buffer@ == data,
            line_start <= i <= len,
            output@ == emitted(data.take(i as int)),
            pending(data.take(i as int)) == data.subrange(line_start as int, i as int),
        decreases len - i,
    {
        assert(data.take(i + 1).drop_last() =~= data.take(i as int));
        if buffer[i] == NEWLINE {
            if i > line_start {
                let line = &buffer[line_start..i];
                let event = line_to_sse(line);
                output.extend_from_slice(&event);
            } else {
                assert(data.subrange(line_start as int, i as int) =~= Seq::<u8>::empty());
            }
            assert(output@ =~= emitted(data.take(i + 1)));
            line_start = i + 1;
            assert(data.subrange(line_start as int, i + 1) =~= Seq::<u8>::empty());
        } else {
            assert(data.subrange(line_start as int, i + 1) =~= data.subrange(
                line_start as int,
                i as int,
            ).push(data[i as int]));
        }
        i = i + 1;
    }
    assert(data.take(len as int) =~= data);
    let mut rest = buffer.split_off(line_start);
    if end_of_stream && rest.len() > 0 {
        let event = line_to_sse(rest.as_slice());
        output.extend_from_slice(&event);
        rest = Vec::new();
    }
    proof {
        if end_of_stream && rest@.len() == 0 {
            assert(line_event(Seq::<u8>::empty()) =~= Seq::<u8>::empty());
        }
    }
    (output, rest)
}

} // verus!
