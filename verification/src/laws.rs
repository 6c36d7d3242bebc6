use vstd::prelude::*;

use crate::sse::line_event;
use crate::stream::{chunk_bytes, emitted, pending, step_buffer, step_output, NEWLINE};
use crate::trim::{ascii_whitespace, trim, trim_end, trim_start};

verus! {

/// A run of bytes without `\n` completes no line and is itself the
/// unfinished line.
pub proof fn lemma_newline_free(p: Seq<u8>)
    requires
        !p.contains(NEWLINE),
    ensures
        emitted(p) == Seq::<u8>::empty(),
        pending(p) == p,
    decreases p.len(),
{
    if p.len() > 0 {
        assert(p.drop_last().contains(NEWLINE) ==> p.contains(NEWLINE)) by {
            if p.drop_last().contains(NEWLINE) {
                let k = choose|k: int| 0 <= k < p.drop_last().len() && p.drop_last()[k] == NEWLINE;
                assert(p[k] == NEWLINE);
            }
        }
        assert(p.last() != NEWLINE) by {
            if p.last() == NEWLINE {
                assert(p[p.len() - 1] == NEWLINE);
            }
        }
        lemma_newline_free(p.drop_last());
        assert(p.drop_last().push(p.last()) =~= p);
    }
}

/// The bytes kept for later never hold a `\n`.
pub proof fn lemma_pending_has_no_newline(s: Seq<u8>)
    ensures
        !pending(s).contains(NEWLINE),
    decreases s.len(),
{
    if s.len() > 0 && s.last() != NEWLINE {
        lemma_pending_has_no_newline(s.drop_last());
        let p = pending(s.drop_last());
        assert forall|k: int| 0 <= k < p.push(s.last()).len() implies p.push(s.last())[k]
            != NEWLINE by {
            if k < p.len() {
                assert(!(p[k] == NEWLINE)) by {
                    if p[k] == NEWLINE {
                        assert(p.contains(NEWLINE));
                    }
                }
            }
        }
    }
}

/// Reading `x` and then `y` is reading `x + y`: the events of `x + y` are
/// those of `x` followed by those of the unfinished line of `x` continued by
/// `y`, and both leave the same unfinished line.
pub proof fn lemma_read_in_two_parts(x: Seq<u8>, y: Seq<u8>)
    ensures
        emitted(x + y) == emitted(x) + emitted(pending(x) + y),
        pending(x + y) == pending(pending(x) + y),
    decreases y.len(),
{
    if y.len() == 0 {
        assert(x + y =~= x);
        assert(pending(x) + y =~= pending(x));
        lemma_pending_has_no_newline(x);
        lemma_newline_free(pending(x));
        assert(emitted(x) + Seq::<u8>::empty() =~= emitted(x));
    } else {
        let y0 = y.drop_last();
        lemma_read_in_two_parts(x, y0);
        assert((x + y).drop_last() =~= x + y0);
        assert((x + y).last() == y.last());
        assert((pending(x) + y).drop_last() =~= pending(x) + y0);
        assert((pending(x) + y).last() == y.last());
        if y.last() == NEWLINE {
            assert(emitted(x + y) =~= emitted(x) + emitted(pending(x) + y));
        }
    }
}

/// Chunk boundaries do not matter: two consecutive steps, the first one
/// not at the end of the stream, send together what one step sends for both
/// chunks at once, and keep what it keeps.
pub proof fn law_two_steps(buffer: Seq<u8>, a: Seq<u8>, b: Seq<u8>, end_of_stream: bool)
    ensures
        step_output(buffer + a, false) + step_output(step_buffer(buffer + a, false) + b, end_of_stream)
            == step_output(buffer + a + b, end_of_stream),
        step_buffer(step_buffer(buffer + a, false) + b, end_of_stream) == step_buffer(
            buffer + a + b,
            end_of_stream,
        ),
{
    lemma_read_in_two_parts(buffer + a, b);
    let x = buffer + a;
    if end_of_stream {
        assert(emitted(x) + (emitted(pending(x) + b) + line_event(pending(pending(x) + b)))
            =~= emitted(x) + emitted(pending(x) + b) + line_event(pending(pending(x) + b)));
    }
}

/// What a run of steps over `chunks` sends and keeps, starting from
/// `buffer`, with the end of the stream announced (or not) on the last chunk.
pub open spec fn run_steps(buffer: Seq<u8>, chunks: Seq<Seq<u8>>, end_of_stream: bool) -> (Seq<u8>, Seq<u8>)
    decreases chunks.len(),
{
    if chunks.len() == 0 {
        (Seq::empty(), buffer)
    } else if chunks.len() == 1 {
        (step_output(buffer + chunks[0], end_of_stream), step_buffer(buffer + chunks[0], end_of_stream))
    } else {
        let rest = run_steps(step_buffer(buffer + chunks[0], false), chunks.drop_first(), end_of_stream);
        (step_output(buffer + chunks[0], false) + rest.0, rest.1)
    }
}

/// However a body is cut into chunks, the steps over the chunks send in all
/// what one step over the whole body sends, and keep what it keeps.
pub proof fn law_any_chunking(buffer: Seq<u8>, chunks: Seq<Seq<u8>>, end_of_stream: bool)
    requires
        chunks.len() > 0,
    ensures
        run_steps(buffer, chunks, end_of_stream) == (
            step_output(buffer + chunks.flatten(), end_of_stream),
            step_buffer(buffer + chunks.flatten(), end_of_stream),
        ),
    decreases chunks.len(),
{
    if chunks.len() == 1 {
        assert(chunks.drop_first().flatten() =~= Seq::<u8>::empty());
        assert(chunks.flatten() =~= chunks[0]);
    } else {
        let next = step_buffer(buffer + chunks[0], false);
        law_any_chunking(next, chunks.drop_first(), end_of_stream);
        law_two_steps(buffer, chunks[0], chunks.drop_first().flatten(), end_of_stream);
        assert(buffer + chunks[0] + chunks.drop_first().flatten() =~= buffer + chunks.flatten());
    }
}

/// At the end of the stream the unfinished last line is sent as if it had
/// been ended by `\n`, and nothing is kept.
pub proof fn law_end_of_stream_ends_last_line(data: Seq<u8>)
    ensures
        step_output(data, true) == emitted(data.push(NEWLINE)),
        step_buffer(data, true) == Seq::<u8>::empty(),
{
    assert(data.push(NEWLINE).drop_last() =~= data);
}

/// Lines are converted one by one, in order: a complete first line gives its
/// own event, followed by the events of the rest of the body.
pub proof fn law_line_by_line(line: Seq<u8>, rest: Seq<u8>)
    requires
        !line.contains(NEWLINE),
    ensures
        emitted(line.push(NEWLINE) + rest) == line_event(line) + emitted(rest),
        pending(line.push(NEWLINE) + rest) == pending(rest),
{
    let x = line.push(NEWLINE);
    lemma_read_in_two_parts(x, rest);
    assert(x.drop_last() =~= line);
    lemma_newline_free(line);
    assert(pending(x) =~= Seq::<u8>::empty());
    assert(Seq::<u8>::empty() + rest =~= rest);
    assert(Seq::<u8>::empty() + line_event(line) =~= line_event(line));
}

/// The number of leading whitespace bytes that `trim_start` drops.
proof fn lemma_trim_start_index(s: Seq<u8>) -> (i: int)
    ensures
        0 <= i <= s.len(),
        trim_start(s) == s.skip(i),
        forall|k: int| 0 <= k < i ==> ascii_whitespace(#[trigger] s[k]),
        i < s.len() ==> !ascii_whitespace(s[i]),
    decreases s.len(),
{
    if s.len() > 0 && ascii_whitespace(s[0]) {
        let j = lemma_trim_start_index(s.drop_first());
        assert(s.drop_first().skip(j) =~= s.skip(j + 1));
        assert forall|k: int| 0 <= k < j + 1 implies ascii_whitespace(#[trigger] s[k]) by {
            if k > 0 {
                assert(s[k] == s.drop_first()[k - 1]);
            }
        }
        j + 1
    } else {
        assert(s.skip(0) =~= s);
        0
    }
}

/// The length that `trim_end` keeps.
proof fn lemma_trim_end_index(s: Seq<u8>) -> (j: int)
    ensures
        0 <= j <= s.len(),
        trim_end(s) == s.take(j),
        forall|k: int| j <= k < s.len() ==> ascii_whitespace(#[trigger] s[k]),
        j > 0 ==> !ascii_whitespace(s[j - 1]),
    decreases s.len(),
{
    if s.len() > 0 && ascii_whitespace(s.last()) {
        let j = lemma_trim_end_index(s.drop_last());
        assert(s.drop_last().take(j) =~= s.take(j));
        assert forall|k: int| j <= k < s.len() implies ascii_whitespace(#[trigger] s[k]) by {
            if k < s.len() - 1 {
                assert(s[k] == s.drop_last()[k]);
            }
        }
        j
    } else {
        assert(s.take(s.len() as int) =~= s);
        s.len() as int
    }
}

/// What trimming keeps: a run `s[i..j]` of `s` outside which every byte is
/// whitespace, and which, unless empty, starts and ends with a byte that is
/// not; when the run is empty, `s` is all whitespace.
pub proof fn law_trim_keeps_inner_run(s: Seq<u8>)
    ensures
        exists|i: int, j: int|
            {
                &&& 0 <= i <= j <= s.len()
                &&& trim(s) == s.subrange(i, j)
                &&& forall|k: int| 0 <= k < i ==> ascii_whitespace(#[trigger] s[k])
                &&& forall|k: int| j <= k < s.len() ==> ascii_whitespace(#[trigger] s[k])
                &&& i < j ==> !ascii_whitespace(s[i]) && !ascii_whitespace(s[j - 1])
            },
{
    let i = lemma_trim_start_index(s);
    let t = s.skip(i);
    let m = lemma_trim_end_index(t);
    let j = i + m;
    assert(t.take(m) =~= s.subrange(i, j));
    assert forall|k: int| j <= k < s.len() implies ascii_whitespace(#[trigger] s[k]) by {
        assert(s[k] == t[k - i]);
    }
    if i < j {
        assert(s[i] == t[0]);
        assert(s[j - 1] == t[m - 1]);
    }
    assert({
        &&& 0 <= i <= j <= s.len()
        &&& trim(s) == s.subrange(i, j)
        &&& forall|k: int| 0 <= k < i ==> ascii_whitespace(#[trigger] s[k])
        &&& forall|k: int| j <= k < s.len() ==> ascii_whitespace(#[trigger] s[k])
        &&& i < j ==> !ascii_whitespace(s[i]) && !ascii_whitespace(s[j - 1])
    });
}

/// Exactly five bytes count as whitespace: space, horizontal tab, line feed,
/// form feed and carriage return.
pub proof fn law_whitespace_is_five_bytes(b: u8)
    ensures
        ascii_whitespace(b) <==> (b == 0x20u8 || b == 0x09u8 || b == 0x0au8 || b == 0x0cu8 || b
            == 0x0du8),
{
}

/// Trimming removes only space, tab, line feed, form feed and carriage
/// return, and only at the two ends: it keeps a run `s[i..j]` outside which
/// every byte is one of those five, and which, unless empty, starts and ends
/// with a byte that is none of them.
pub proof fn law_trim_removes_only_outer_whitespace(s: Seq<u8>)
    ensures
        exists|i: int, j: int|
            {
                &&& 0 <= i <= j <= s.len()
                &&& trim(s) == s.subrange(i, j)
                &&& forall|k: int|
                    0 <= k < i ==> (#[trigger] s[k] == 0x20u8 || s[k] == 0x09u8 || s[k] == 0x0au8
                        || s[k] == 0x0cu8 || s[k] == 0x0du8)
                &&& forall|k: int|
                    j <= k < s.len() ==> (#[trigger] s[k] == 0x20u8 || s[k] == 0x09u8 || s[k]
                        == 0x0au8 || s[k] == 0x0cu8 || s[k] == 0x0du8)
                &&& i < j ==> !(s[i] == 0x20u8 || s[i] == 0x09u8 || s[i] == 0x0au8 || s[i] == 0x0cu8
                    || s[i] == 0x0du8)
                &&& i < j ==> !(s[j - 1] == 0x20u8 || s[j - 1] == 0x09u8 || s[j - 1] == 0x0au8
                    || s[j - 1] == 0x0cu8 || s[j - 1] == 0x0du8)
            },
{
    law_trim_keeps_inner_run(s);
}

/// A line that neither starts nor ends with space, tab, line feed, form feed
/// or carriage return is kept whole by trimming.
pub proof fn law_trim_keeps_unpadded_line(s: Seq<u8>)
    requires
        s.len() > 0,
        !(s[0] == 0x20u8 || s[0] == 0x09u8 || s[0] == 0x0au8 || s[0] == 0x0cu8 || s[0] == 0x0du8),
        !(s.last() == 0x20u8 || s.last() == 0x09u8 || s.last() == 0x0au8 || s.last() == 0x0cu8
            || s.last() == 0x0du8),
    ensures
        trim(s) == s,
{
    assert(trim_start(s) == s);
    assert(trim_end(s) == s);
}

/// A line made only of space, tab, line feed, form feed and carriage return
/// trims to nothing.
pub proof fn law_trim_of_blank_line(s: Seq<u8>)
    requires
        forall|k: int|
            0 <= k < s.len() ==> (#[trigger] s[k] == 0x20u8 || s[k] == 0x09u8 || s[k] == 0x0au8
                || s[k] == 0x0cu8 || s[k] == 0x0du8),
    ensures
        trim(s) == Seq::<u8>::empty(),
{
    law_trim_keeps_inner_run(s);
}

/// The event of a line: nothing for a blank line, and otherwise the bytes
/// `data: `, the whole trimmed line, and `\n\n`, whatever its length.
pub proof fn law_line_event_bytes(line: Seq<u8>)
    ensures
        trim(line).len() == 0 ==> line_event(line) == Seq::<u8>::empty(),
        trim(line).len() > 0 ==> line_event(line) == seq![0x64u8, 0x61u8, 0x74u8, 0x61u8, 0x3au8, 0x20u8]
            + trim(line) + seq![0x0au8, 0x0au8],
{
}

/// A step reads the whole chunk it is given, and no chunk adds no bytes.
pub proof fn law_whole_chunk_is_read(c: &[u8])
    ensures
        chunk_bytes(Some(c)) == c@,
        chunk_bytes(None) == Seq::<u8>::empty(),
{
}

/// The event bytes of one line, as `law_line_event_bytes` states them.
proof fn lemma_event_of(line: Seq<u8>)
    ensures
        line_event(line) == (if trim(line).len() == 0 {
            Seq::<u8>::empty()
        } else {
            seq![0x64u8, 0x61u8, 0x74u8, 0x61u8, 0x3au8, 0x20u8] + trim(line) + seq![0x0au8, 0x0au8]
        }),
{
    law_line_event_bytes(line);
}

/// Reading complete lines followed by a newline-free tail.
proof fn lemma_read_lines(lines: Seq<Seq<u8>>, last: Seq<u8>)
    requires
        forall|i: int| 0 <= i < lines.len() ==> !(#[trigger] lines[i]).contains(0x0au8),
        !last.contains(0x0au8),
    ensures
        emitted(lines.map_values(|l: Seq<u8>| l.push(0x0au8)).flatten() + last) == lines.map_values(
            |l: Seq<u8>|
                if trim(l).len() == 0 {
                    Seq::<u8>::empty()
                } else {
                    seq![0x64u8, 0x61u8, 0x74u8, 0x61u8, 0x3au8, 0x20u8] + trim(l) + seq![0x0au8, 0x0au8]
                },
        ).flatten(),
        pending(lines.map_values(|l: Seq<u8>| l.push(0x0au8)).flatten() + last) == last,
    decreases lines.len(),
{
    let f = |l: Seq<u8>| l.push(0x0au8);
    let g = |l: Seq<u8>|
        if trim(l).len() == 0 {
            Seq::<u8>::empty()
        } else {
            seq![0x64u8, 0x61u8, 0x74u8, 0x61u8, 0x3au8, 0x20u8] + trim(l) + seq![0x0au8, 0x0au8]
        };
    if lines.len() == 0 {
        assert(lines.map_values(f).flatten() =~= Seq::<u8>::empty());
        assert(lines.map_values(g).flatten() =~= Seq::<u8>::empty());
        assert(lines.map_values(f).flatten() + last =~= last);
        lemma_newline_free(last);
    } else {
        let rest = lines.drop_first();
        assert(lines.map_values(f).drop_first() =~= rest.map_values(f));
        assert(lines.map_values(g).drop_first() =~= rest.map_values(g));
        assert forall|i: int| 0 <= i < rest.len() implies !(#[trigger] rest[i]).contains(0x0au8) by {
            assert(rest[i] == lines[i + 1]);
        }
        lemma_read_lines(rest, last);
        let tail = rest.map_values(f).flatten() + last;
        assert(lines.map_values(f).flatten() + last =~= lines[0].push(NEWLINE) + tail);
        law_line_by_line(lines[0], tail);
        lemma_event_of(lines[0]);
        assert(lines.map_values(g).flatten() =~= g(lines[0]) + rest.map_values(g).flatten());
    }
}

/// What a step does with a body that is a list of newline-free lines, each
/// ended by `\n`, followed by a newline-free tail: it sends, in order, for
/// every non-blank line the bytes `data: `, the trimmed line and `\n\n`, and
/// nothing for a blank one; at the end of the stream it sends the tail the
/// same way and keeps nothing, and otherwise it keeps the tail.
pub proof fn law_body_of_lines(lines: Seq<Seq<u8>>, last: Seq<u8>, end_of_stream: bool)
    requires
        forall|i: int| 0 <= i < lines.len() ==> !(#[trigger] lines[i]).contains(0x0au8),
        !last.contains(0x0au8),
    ensures
        step_output(lines.map_values(|l: Seq<u8>| l.push(0x0au8)).flatten() + last, end_of_stream)
            == lines.map_values(
            |l: Seq<u8>|
                if trim(l).len() == 0 {
                    Seq::<u8>::empty()
                } else {
                    seq![0x64u8, 0x61u8, 0x74u8, 0x61u8, 0x3au8, 0x20u8] + trim(l) + seq![0x0au8, 0x0au8]
                },
        ).flatten() + (if end_of_stream && trim(last).len() > 0 {
            seq![0x64u8, 0x61u8, 0x74u8, 0x61u8, 0x3au8, 0x20u8] + trim(last) + seq![0x0au8, 0x0au8]
        } else {
            Seq::<u8>::empty()
        }),
        step_buffer(lines.map_values(|l: Seq<u8>| l.push(0x0au8)).flatten() + last, end_of_stream)
            == (if end_of_stream {
            Seq::<u8>::empty()
        } else {
            last
        }),
{
    lemma_read_lines(lines, last);
    lemma_event_of(last);
    let out = lines.map_values(
        |l: Seq<u8>|
            if trim(l).len() == 0 {
                Seq::<u8>::empty()
            } else {
                seq![0x64u8, 0x61u8, 0x74u8, 0x61u8, 0x3au8, 0x20u8] + trim(l) + seq![0x0au8, 0x0au8]
            },
    ).flatten();
    assert(out + Seq::<u8>::empty() =~= out);
}

} // verus!
