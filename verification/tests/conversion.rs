use envoy_ndjson_to_sse::{line_to_sse, process_ndjson_body_chunk};

/// One body step: (buffer, chunk, end_of_stream) -> (output for this step, new buffer).
fn one_call(buffer: Vec<u8>, chunk: Option<&[u8]>, end_of_stream: bool) -> (Vec<u8>, Vec<u8>) {
    process_ndjson_body_chunk(buffer, chunk, end_of_stream)
}

/// Runs the steps over a sequence of chunks, the end of the stream on the last
/// one when asked, and returns everything sent.
fn process_chunks(chunks: &[&[u8]], end_of_stream_last: bool) -> Vec<u8> {
    let mut buffer = Vec::new();
    let mut emitted = Vec::new();

    for (i, chunk) in chunks.iter().enumerate() {
        let eos = end_of_stream_last && (i == chunks.len() - 1);
        let (out, new_buf) = one_call(buffer, Some(chunk), eos);
        buffer = new_buf;
        emitted.extend_from_slice(&out);
    }

    emitted
}

fn sse_line(json: &str) -> Vec<u8> {
    let mut out = Vec::new();
    out.extend_from_slice(b"data: ");
    out.extend_from_slice(json.as_bytes());
    out.extend_from_slice(b"\n\n");
    out
}

fn sse_lines(lines: &[&str]) -> Vec<u8> {
    let mut out = Vec::new();
    for s in lines {
        out.extend_from_slice(&sse_line(s));
    }
    out
}

#[test]
fn line_to_sse_single() {
    let out = line_to_sse(b"{\"a\":1}");
    assert_eq!(out, b"data: {\"a\":1}\n\n");
}

#[test]
fn line_to_sse_empty() {
    let out = line_to_sse(b"");
    assert!(out.is_empty());
}

#[test]
fn line_to_sse_whitespace_only() {
    let out = line_to_sse(b"  \n\t ");
    assert!(out.is_empty());
}

#[test]
fn line_to_sse_trims() {
    let out = line_to_sse(b"  {\"b\":2}  ");
    assert_eq!(out, b"data: {\"b\":2}\n\n");
}

/// Chunk case: (name, chunks, end_of_stream on the last, expected JSON lines).
fn chunk_test_cases() -> Vec<(&'static str, Vec<Vec<u8>>, bool, Vec<&'static str>)> {
    vec![
        (
            "single_full_body",
            vec![b"{\"a\":1}\n{\"b\":2}\n{\"c\":3}\n".to_vec()],
            true,
            vec!["{\"a\":1}", "{\"b\":2}", "{\"c\":3}"],
        ),
        (
            "line_split_two",
            vec![b"{\"a\":1}\n{\"b\":".to_vec(), b"2}\n".to_vec()],
            true,
            vec!["{\"a\":1}", "{\"b\":2}"],
        ),
        (
            "line_split_three",
            vec![
                b"{\"id\":\"ab".to_vec(),
                b"12-cd34\"".to_vec(),
                b",\"x\":1}\n".to_vec(),
            ],
            true,
            vec!["{\"id\":\"ab12-cd34\",\"x\":1}"],
        ),
        (
            "one_byte_at_a_time",
            b"{\"a\":1}\n".iter().map(|&b| vec![b]).collect(),
            true,
            vec!["{\"a\":1}"],
        ),
        (
            "empty_chunks_ignored",
            vec![
                vec![],
                b"{\"a\":1}\n".to_vec(),
                vec![],
                vec![],
                b"{\"b\":2}\n".to_vec(),
                vec![],
            ],
            true,
            vec!["{\"a\":1}", "{\"b\":2}"],
        ),
        (
            "boundary_at_newline",
            vec![
                b"{\"a\":1}".to_vec(),
                b"\n".to_vec(),
                b"{\"b\":2}".to_vec(),
                b"\n".to_vec(),
            ],
            true,
            vec!["{\"a\":1}", "{\"b\":2}"],
        ),
        (
            "empty_lines_skipped",
            vec![b"{\"a\":1}\n\n\n{\"b\":2}\n".to_vec()],
            true,
            vec!["{\"a\":1}", "{\"b\":2}"],
        ),
        (
            "end_of_stream_incomplete_last_line",
            vec![b"{\"a\":1}\n".to_vec(), b"{\"b\":2}".to_vec()],
            true,
            vec!["{\"a\":1}", "{\"b\":2}"],
        ),
        (
            "no_end_of_stream_incomplete_buffered",
            vec![b"{\"a\":1}\n{\"b\":".to_vec()],
            false,
            vec!["{\"a\":1}"],
        ),
        (
            "many_lines_then_partial",
            vec![
                b"{\"a\":1}\n{\"b\":2}\n{\"c\":".to_vec(),
                b"3}\n".to_vec(),
            ],
            true,
            vec!["{\"a\":1}", "{\"b\":2}", "{\"c\":3}"],
        ),
        (
            "long_line_many_chunks",
            {
                let line = b"{\"id\":\"123\",\"data\":\"hello world\"}\n";
                line.chunks(5).map(|c| c.to_vec()).collect::<Vec<_>>()
            },
            true,
            vec!["{\"id\":\"123\",\"data\":\"hello world\"}"],
        ),
        (
            "multiple_newlines_then_line",
            vec![b"\n\n\n{\"only\":true}\n".to_vec()],
            true,
            vec!["{\"only\":true}"],
        ),
    ]
}

#[test]
fn chunk_cases_from_array_loop() {
    let cases = chunk_test_cases();
    let mut results = Vec::with_capacity(cases.len());

    for (name, chunks_owned, end_of_stream_last, expected_lines) in cases {
        let chunk_refs: Vec<&[u8]> = chunks_owned.iter().map(Vec::as_slice).collect();
        let out = process_chunks(&chunk_refs, end_of_stream_last);
        let expected = sse_lines(&expected_lines);

        let passed = out == expected;
        results.push((name, passed, out.len(), expected_lines.len()));

        assert_eq!(
            out,
            expected,
            "case '{}': expected {} SSE events, got {} bytes",
            name,
            expected_lines.len(),
            out.len()
        );
    }

    println!("--- chunk_cases_from_array_loop: {} cases ---", results.len());
    for (name, passed, out_bytes, event_count) in &results {
        println!(
            "  {} | passed={} | output_bytes={} | events={}",
            name, passed, out_bytes, event_count
        );
    }
    println!("--- all passed ---");
}

#[test]
fn chunk_single_full_body() {
    let chunks = [b"{\"a\":1}\n{\"b\":2}\n{\"c\":3}\n".as_slice()];
    let out = process_chunks(&chunks, true);
    assert_eq!(out, sse_lines(&["{\"a\":1}", "{\"b\":2}", "{\"c\":3}"]));
}

#[test]
fn chunk_line_split_two() {
    let chunks = [b"{\"a\":1}\n{\"b\":".as_slice(), b"2}\n".as_slice()];
    let out = process_chunks(&chunks, true);
    assert_eq!(out, sse_lines(&["{\"a\":1}", "{\"b\":2}"]));
}

#[test]
fn chunk_line_split_three() {
    let chunks = [
        b"{\"id\":\"ab".as_slice(),
        b"12-cd34\"".as_slice(),
        b",\"x\":1}\n".as_slice(),
    ];
    let out = process_chunks(&chunks, true);
    assert_eq!(out, sse_lines(&["{\"id\":\"ab12-cd34\",\"x\":1}"]));
}

#[test]
fn chunk_one_byte_at_a_time() {
    let body = b"{\"a\":1}\n";
    let chunks: Vec<Vec<u8>> = body.iter().map(|&b| vec![b]).collect();
    let chunk_refs: Vec<&[u8]> = chunks.iter().map(Vec::as_slice).collect();
    let out = process_chunks(&chunk_refs, true);
    assert_eq!(out, sse_lines(&["{\"a\":1}"]));
}

#[test]
fn chunk_empty_chunks_ignored() {
    let chunks = [
        b"".as_slice(),
        b"{\"a\":1}\n".as_slice(),
        b"".as_slice(),
        b"".as_slice(),
        b"{\"b\":2}\n".as_slice(),
        b"".as_slice(),
    ];
    let out = process_chunks(&chunks, true);
    assert_eq!(out, sse_lines(&["{\"a\":1}", "{\"b\":2}"]));
}

#[test]
fn chunk_boundary_at_newline() {
    let chunks = [
        b"{\"a\":1}".as_slice(),
        b"\n".as_slice(),
        b"{\"b\":2}".as_slice(),
        b"\n".as_slice(),
    ];
    let out = process_chunks(&chunks, true);
    assert_eq!(out, sse_lines(&["{\"a\":1}", "{\"b\":2}"]));
}

#[test]
fn chunk_empty_lines_skipped() {
    let chunks = [b"{\"a\":1}\n\n\n{\"b\":2}\n".as_slice()];
    let out = process_chunks(&chunks, true);
    assert_eq!(out, sse_lines(&["{\"a\":1}", "{\"b\":2}"]));
}

#[test]
fn chunk_end_of_stream_incomplete_last_line() {
    let chunks = [b"{\"a\":1}\n".as_slice(), b"{\"b\":2}".as_slice()];
    let out = process_chunks(&chunks, true);
    assert_eq!(out, sse_lines(&["{\"a\":1}", "{\"b\":2}"]));
}

#[test]
fn chunk_no_end_of_stream_incomplete_buffered() {
    let chunks = [b"{\"a\":1}\n{\"b\":".as_slice()];
    let out = process_chunks(&chunks, false);
    assert_eq!(out, sse_lines(&["{\"a\":1}"]));
}

#[test]
fn chunk_many_lines_then_partial() {
    let chunks = [
        b"{\"a\":1}\n{\"b\":2}\n{\"c\":".as_slice(),
        b"3}\n".as_slice(),
    ];
    let out = process_chunks(&chunks, true);
    assert_eq!(out, sse_lines(&["{\"a\":1}", "{\"b\":2}", "{\"c\":3}"]));
}

#[test]
fn chunk_long_line_many_chunks() {
    let line = b"{\"id\":\"123\",\"data\":\"hello world\"}\n";
    let mut chunks = Vec::new();
    for i in (0..line.len()).step_by(5) {
        let end = (i + 5).min(line.len());
        chunks.push(&line[i..end]);
    }
    let out = process_chunks(&chunks, true);
    assert_eq!(out, sse_lines(&["{\"id\":\"123\",\"data\":\"hello world\"}"]));
}

#[test]
fn chunk_multiple_newlines_then_line() {
    let chunks = [b"\n\n\n{\"only\":true}\n".as_slice()];
    let out = process_chunks(&chunks, true);
    assert_eq!(out, sse_lines(&["{\"only\":true}"]));
}

#[test]
fn on_response_body_one_chunk_eos() {
    let (out, new_buf) = one_call(vec![], Some(b"{\"a\":1}\n{\"b\":2}\n"), true);
    assert_eq!(out, sse_lines(&["{\"a\":1}", "{\"b\":2}"]));
    assert!(new_buf.is_empty());
}

#[test]
fn on_response_body_incomplete_line_eos() {
    let (out, new_buf) = one_call(vec![], Some(b"{\"x\":1}"), true);
    assert_eq!(out, sse_lines(&["{\"x\":1}"]));
    assert!(new_buf.is_empty());
}

#[test]
fn on_response_body_incomplete_line_no_eos() {
    let (out, new_buf) = one_call(vec![], Some(b"{\"x\":1}"), false);
    assert!(out.is_empty());
    assert_eq!(&new_buf, b"{\"x\":1}");
}

#[test]
fn on_response_body_buffer_plus_chunk_completes_line() {
    let prev = b"{\"a\":1}\n{\"b\":".to_vec();
    let (out, new_buf) = one_call(prev, Some(b"2}\n"), false);
    assert_eq!(out, sse_lines(&["{\"a\":1}", "{\"b\":2}"]));
    assert!(new_buf.is_empty());
}

#[test]
fn on_response_body_empty_chunk_no_eos() {
    let (out, new_buf) = one_call(vec![], None, false);
    assert!(out.is_empty());
    assert!(new_buf.is_empty());
}

#[test]
fn on_response_body_empty_chunk_eos() {
    let (out, new_buf) = one_call(vec![], None, true);
    assert!(out.is_empty());
    assert!(new_buf.is_empty());
}

#[test]
fn on_response_body_two_calls_simulation() {
    let (out1, buf1) = one_call(vec![], Some(b"{\"a\":1}\n{\"b\":"), false);
    assert_eq!(out1, sse_lines(&["{\"a\":1}"]));
    assert_eq!(&buf1, b"{\"b\":");

    let (out2, buf2) = one_call(buf1, Some(b"2}\n"), true);
    assert_eq!(out2, sse_lines(&["{\"b\":2}"]));
    assert!(buf2.is_empty());
}
