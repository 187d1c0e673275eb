use openai_codex::sse::{
    do_chunks_fit, does_arrival_fit, does_last_chunk_fit, does_text_fit, find_sse_separator,
    parse_sse_text, process_sse_buffer_sync,
};
use openai_codex::stream_event::CodexStreamState;
use openai_codex::utf8_stream::{append_utf8_stream_chunk, decode_utf8_stream_chunks};

#[test]
fn parse_sse_text_reads_output_text_delta() {
    let payload = r#"data: {"type":"response.created","response":{"id":"resp_123"}}

data: {"type":"response.output_text.delta","delta":"Hello"}
data: {"type":"response.output_text.delta","delta":" world"}
data: {"type":"response.completed","response":{"output_text":"Hello world"}}
data: [DONE]
"#;

    assert_eq!(
        parse_sse_text(payload).unwrap().as_deref(),
        Some("Hello world")
    );
}

#[test]
fn parse_sse_text_falls_back_to_completed_response() {
    let payload = r#"data: {"type":"response.completed","response":{"output_text":"Done"}}
data: [DONE]
"#;

    assert_eq!(parse_sse_text(payload).unwrap().as_deref(), Some("Done"));
}

#[test]
fn parse_sse_text_backfills_completed_response_output_from_output_items() {
    let payload = r#"data: {"type":"response.output_item.done","item":{"content":[{"type":"output_text","text":"Recovered output"}]}}

data: {"type":"response.completed","response":{"output":[],"output_text":null}}
data: [DONE]
"#;

    assert_eq!(
        parse_sse_text(payload).unwrap().as_deref(),
        Some("Recovered output")
    );
}

#[test]
fn decode_utf8_stream_chunks_handles_multibyte_split_across_chunks() {
    let payload = "data: {\"type\":\"response.output_text.delta\",\"delta\":\"Hello 世\"}\n\ndata: [DONE]\n";
    let bytes = payload.as_bytes();
    let split_at = payload.find('世').unwrap() + 1;

    let decoded = decode_utf8_stream_chunks(&[&bytes[..split_at], &bytes[split_at..]]).unwrap();
    assert_eq!(decoded, payload);
    assert_eq!(
        parse_sse_text(&decoded).unwrap().as_deref(),
        Some("Hello 世")
    );
}

#[test]
fn decoding_does_not_depend_on_where_chunks_end() {
    let text = "a世é🦀z";
    let bytes = text.as_bytes();
    for i in 0..=bytes.len() {
        for j in i..=bytes.len() {
            let chunks = [&bytes[..i], &bytes[i..j], &bytes[j..]];
            assert_eq!(decode_utf8_stream_chunks(&chunks).unwrap(), text);
        }
    }
}

#[test]
fn decoding_refuses_invalid_bytes() {
    let err = decode_utf8_stream_chunks(&[b"ab".as_slice(), b"\xffcd".as_slice()]).unwrap_err();
    assert_eq!(
        err.message(),
        "OpenAI Codex response contained invalid UTF-8: invalid utf-8 sequence of 1 bytes from index 0"
    );
}

#[test]
fn decoding_refuses_a_cut_character_at_the_end() {
    let err = decode_utf8_stream_chunks(&["世".as_bytes(), &"世".as_bytes()[..2]]).unwrap_err();
    assert_eq!(
        err.message(),
        "OpenAI Codex response ended with incomplete UTF-8: incomplete utf-8 byte sequence from index 0"
    );
}

#[test]
fn a_cut_character_waits_for_its_end() {
    let mut body = String::new();
    let mut pending: Vec<u8> = Vec::new();
    append_utf8_stream_chunk(&mut body, &mut pending, b"ok \xe4\xb8").unwrap();
    assert_eq!(body, "ok ");
    assert_eq!(pending, vec![0xe4, 0xb8]);
    append_utf8_stream_chunk(&mut body, &mut pending, b"\x96!").unwrap();
    assert_eq!(body, "ok 世!");
    assert!(pending.is_empty());
}

#[test]
fn the_first_separator_counts_in_bytes() {
    assert_eq!(find_sse_separator("世\n\nb\r\n\r\n"), Some((3, 2)));
    assert_eq!(find_sse_separator("a\r\n\r\nb\n\n"), Some((1, 4)));
    assert_eq!(find_sse_separator("a\n\r\nb"), None);
}

#[test]
fn events_do_not_depend_on_how_they_arrive() {
    let payload = "data: {\"type\":\"response.output_text.delta\",\"delta\":\"a\"}\r\n\r\ndata: {\"type\":\"response.output_text.delta\",\"delta\":\"b\"}\n\nrest";
    for cut in 0..=payload.len() {
        let mut state = CodexStreamState::default();
        let mut buffer = payload[..cut].to_string();
        process_sse_buffer_sync(&mut buffer, &mut state).unwrap();
        buffer.push_str(&payload[cut..]);
        process_sse_buffer_sync(&mut buffer, &mut state).unwrap();
        assert!(state.saw_delta);
        assert_eq!(state.delta_accumulator, "ab");
        assert_eq!(buffer, "rest");
    }
}

#[test]
fn a_reported_error_ends_the_stream() {
    let payload = "data: {\"type\":\"error\",\"message\":\" overloaded \"}\n\n";
    let err = parse_sse_text(payload).unwrap_err();
    assert_eq!(err.message(), "OpenAI Codex stream error: overloaded");

    let payload = "data: {\"type\":\"response.failed\",\"response\":{\"error\":{\"message\":\"no\"}}}";
    let err = parse_sse_text(payload).unwrap_err();
    assert_eq!(err.message(), "OpenAI Codex stream error: no");

    let payload = "data: {\"type\":\"error\",\"error\":{\"message\":\"deep\"}}";
    assert_eq!(parse_sse_text(payload).unwrap_err().message, "deep");

    let payload = "data: {\"type\":\"error\",\"code\":\"c\",\"error\":{\"message\":\"deep\"}}";
    assert_eq!(parse_sse_text(payload).unwrap_err().message, "c");
}

#[test]
fn an_error_without_a_message_is_no_error() {
    let payload = "data: {\"type\":\"error\",\"message\":\"  \"}\n\n";
    assert_eq!(parse_sse_text(payload).unwrap(), None);
}

#[test]
fn a_finished_text_is_taken_where_no_piece_came() {
    let payload = "data: {\"type\":\"response.output_text.done\",\"text\":\" all \"}\n\n";
    assert_eq!(parse_sse_text(payload).unwrap().as_deref(), Some(" all "));

    let payload = "data: {\"type\":\"response.output_text.delta\",\"delta\":\"x\"}\n\ndata: {\"type\":\"response.output_text.done\",\"text\":\"all\"}\n\n";
    assert_eq!(parse_sse_text(payload).unwrap().as_deref(), Some("x"));
}

#[test]
fn an_event_may_span_lines() {
    let payload = "event: x\ndata: {\"type\":\ndata: \"response.output_text.delta\",\"delta\":\"y\"}\n\n";
    assert_eq!(parse_sse_text(payload).unwrap().as_deref(), Some("y"));
}

#[test]
fn what_is_no_event_is_skipped() {
    assert_eq!(parse_sse_text("").unwrap(), None);
    assert_eq!(parse_sse_text("data: [DONE]\n\n").unwrap(), None);
    assert_eq!(parse_sse_text("data: nonsense\n\n: comment\n\n").unwrap(), None);
    assert_eq!(parse_sse_text("{\"output_text\":\"x\"}").unwrap(), None);
}

#[test]
fn malformed_items_are_left_out() {
    let payload = "data: {\"type\":\"response.output_item.done\",\"item\":{\"content\":[{\"text\":5}]}}\n\ndata: {\"type\":\"response.output_item.done\",\"item\":[[[null,\"by place\"]]]}\n\ndata: {\"type\":\"response.done\",\"response\":{}}\n\n";
    assert_eq!(parse_sse_text(payload).unwrap().as_deref(), Some("by place"));
}

#[test]
fn line_ends_make_no_difference() {
    let feeds = "event: x\ndata: {\"type\":\"response.output_text.delta\",\ndata: \"delta\":\"a\"}\n\nid: 7\ndata: {\"type\":\"response.output_text.delta\",\"delta\":\"b\"}\n\n\n";
    let returns = feeds.replace('\n', "\r\n");
    assert_eq!(parse_sse_text(feeds).unwrap().as_deref(), Some("ab"));
    assert_eq!(parse_sse_text(&returns).unwrap().as_deref(), Some("ab"));
}

#[test]
fn ordinary_texts_fit() {
    for text in ["", "data: x", "data: 1\n\ndata: 2\r\n\r\nrest"] {
        assert!(do_chunks_fit(text));
        assert!(does_text_fit(text));
        assert!(does_last_chunk_fit(text));
        assert!(does_arrival_fit(text, b"\xe4", b"\xb8\x96\n\n"));
    }
}
