use openai_codex::json::Json;
use openai_codex::stream_event::{
    extract_stream_error_message, extract_stream_event_text, process_stream_event,
    process_stream_event_sync, CodexStreamState,
};
use openai_codex::sse::{process_sse_buffer, process_sse_chunk};
use openai_codex::text::{
    begins_with, ends_with, first_nonempty, is_blank, join, nonempty_preserve, same_text, trim,
    trim_start, trim_trailing,
};
use openai_codex::utf8_stream::valid_up_to;
use openai_codex::wire::{decode_content, decode_output, decode_response};

fn object(members: Vec<(&str, Json)>) -> Json {
    Json::Object(members.into_iter().map(|(n, v)| (n.to_string(), v)).collect())
}

#[test]
fn trimming_agrees_with_std() {
    for s in ["", " ", " a b ", "\u{a0}\u{2003}x\u{3000}", "\u{85}\u{1680}y\u{205f}", "\u{200b}z", "\r\n\t"] {
        assert_eq!(trim(s), s.trim());
        assert_eq!(trim_start(s), s.trim_start());
        assert_eq!(is_blank(s), s.trim().is_empty());
        assert_eq!(trim(trim(s)), trim(s));
    }
    assert_eq!(trim_trailing("/a//", '/'), "/a");
    assert_eq!(trim_trailing("///", '/'), "");
}

#[test]
fn white_space_agrees_with_std() {
    for code in 0..=0x3100u32 {
        if let Some(c) = char::from_u32(code) {
            assert_eq!(is_blank(&c.to_string()), c.is_whitespace());
        }
    }
}

#[test]
fn texts_are_compared_and_joined() {
    assert!(same_text("世", "世"));
    assert!(!same_text("a", "ab"));
    assert!(begins_with("gpt-5.2", "gpt-5"));
    assert!(!begins_with("gp", "gpt"));
    assert!(ends_with("/v1/responses", "/responses"));
    assert!(!ends_with("responses", "/responses"));
    assert_eq!(join(&vec!["a".to_string(), "".to_string(), "b".to_string()], "--"), "a----b");
    assert_eq!(join(&vec![], "--"), "");
}

#[test]
fn blank_and_empty_texts_differ() {
    assert_eq!(first_nonempty(Some(" x ")).as_deref(), Some("x"));
    assert_eq!(first_nonempty(Some(" \n")), None);
    assert_eq!(first_nonempty(None), None);
    assert_eq!(nonempty_preserve(Some(" \n")).as_deref(), Some(" \n"));
    assert_eq!(nonempty_preserve(Some("")), None);
    assert_eq!(nonempty_preserve(None), None);
}

#[test]
fn the_valid_prefix_agrees_with_std() {
    for bytes in [
        b"abc".as_slice(),
        b"a\xc3",
        b"\xe0\x80\x80",
        b"\xed\xa0\x80",
        b"ok\xf0\x90\x80\x80\xf4\x90\x80\x80",
        b"\xf5",
        b"",
    ] {
        let expected = match std::str::from_utf8(bytes) {
            Ok(text) => text.len(),
            Err(err) => err.valid_up_to(),
        };
        assert_eq!(valid_up_to(bytes), expected);
    }
}

#[test]
fn values_are_read_strictly() {
    let piece = object(vec![("type", Json::Null), ("text", Json::text("t")), ("more", Json::Bool(true))]);
    let read = decode_content(&piece).unwrap();
    assert_eq!(read.kind, None);
    assert_eq!(read.text.as_deref(), Some("t"));
    assert!(decode_content(&object(vec![("text", Json::Number("5".to_string()))])).is_none());
    assert!(decode_content(&Json::Array(vec![Json::Null])).is_none());

    assert!(decode_output(&object(vec![])).unwrap().content.is_empty());
    assert!(decode_output(&object(vec![("content", Json::Null)])).is_none());
    assert!(decode_output(&Json::Null).is_none());

    let response = decode_response(&object(vec![("output_text", Json::text("o"))])).unwrap();
    assert_eq!(response.output_text.as_deref(), Some("o"));
    assert!(response.output.is_empty());
    assert!(decode_response(&object(vec![("output", Json::text("o"))])).is_none());
}

#[test]
fn events_are_read_by_their_type() {
    let delta = object(vec![
        ("type", Json::text("response.output_text.delta")),
        ("delta", Json::text(" d")),
    ]);
    let done = object(vec![
        ("type", Json::text("response.output_text.done")),
        ("text", Json::text("whole")),
    ]);
    assert_eq!(extract_stream_event_text(&delta, true).as_deref(), Some(" d"));
    assert_eq!(extract_stream_event_text(&done, false).as_deref(), Some("whole"));
    assert_eq!(extract_stream_event_text(&done, true), None);
    assert_eq!(extract_stream_error_message(&delta), None);

    let mut state = CodexStreamState::default();
    assert_eq!(process_stream_event(&delta, &mut state).unwrap().as_deref(), Some(" d"));
    assert_eq!(process_stream_event(&done, &mut state).unwrap(), None);
    assert!(state.saw_delta);
    assert_eq!(state.delta_accumulator, " d");
    assert_eq!(state.fallback_text, None);

    let mut state = CodexStreamState::default();
    process_stream_event_sync(&done, &mut state).unwrap();
    assert!(!state.saw_delta);
    assert_eq!(state.fallback_text.as_deref(), Some("whole"));
}

#[test]
fn the_first_text_to_fall_back_on_stays() {
    let mut state = CodexStreamState::default();
    let mut pieces: Vec<String> = Vec::new();
    for text in ["one", "two"] {
        let chunk = format!("data: {{\"type\":\"response.done\",\"response\":{{\"output_text\":\"{text}\"}}}}");
        process_sse_chunk(&chunk, &mut state, &mut pieces).unwrap();
    }
    assert_eq!(state.fallback_text.as_deref(), Some("one"));
    assert!(pieces.is_empty());
}

#[test]
fn an_error_leaves_the_chunks_behind_it() {
    let delta = "data: {\"type\":\"response.output_text.delta\",\"delta\":\"x\"}\n\n";
    let mut buffer = format!("{delta}data: {{\"type\":\"error\",\"code\":\"c\"}}\n\n{delta}rest");
    let mut state = CodexStreamState::default();
    let mut pieces: Vec<String> = vec!["before".to_string()];
    let err = process_sse_buffer(&mut buffer, &mut state, &mut pieces).unwrap_err();
    assert_eq!(err.message, "c");
    assert_eq!(buffer, format!("{delta}rest"));
    assert_eq!(pieces, vec!["before".to_string(), "x".to_string()]);
    assert_eq!(state.delta_accumulator, "x");
}
