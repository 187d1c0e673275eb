use openai_codex::body::{answer_of, BodyError, BodyReader, Reading};
use openai_codex::session::{refusal_message, undelivered, Emission, StreamSession};
use openai_codex::wire::{ResponsesOutput, ResponsesResponse};

fn show(emission: &Emission) -> String {
    match emission {
        Emission::Delta(text) => format!("+{text}"),
        Emission::Failed(message) => format!("!{message}"),
        Emission::Final => ".".to_string(),
    }
}

fn follow(chunks: &[&[u8]], error: Option<&str>) -> Vec<String> {
    let mut session = StreamSession::new();
    let mut told: Vec<String> = Vec::new();
    for chunk in chunks {
        assert!(session.takes(chunk));
        let step = session.on_bytes(chunk);
        told.extend(step.emissions.iter().map(show));
        if step.over {
            return told;
        }
    }
    match error {
        Some(error) => told.push(show(&session.on_read_error(error))),
        None if !session.can_end() => panic!("too long"),
        None => told.extend(session.on_end().iter().map(show)),
    }
    told
}

fn read(chunks: &[&[u8]]) -> Result<Reading, BodyError> {
    let mut reader = BodyReader::new();
    for chunk in chunks {
        assert!(reader.takes(chunk));
        reader.on_bytes(chunk)?;
    }
    assert!(reader.can_end());
    reader.finish()
}

const TWO: &str = "data: {\"type\":\"response.output_text.delta\",\"delta\":\"Grüß\"}\n\ndata: {\"type\":\"response.output_text.delta\",\"delta\":\" dich\"}\r\n\r\ndata: [DONE]\n\n";
const FAILED: &str = "data: {\"type\":\"error\",\"message\":\"busy\"}\n\n";
const DELTA: &str = "data: {\"type\":\"response.output_text.delta\",\"delta\":\"x\"}\n\n";
const DONE: &str = "data: {\"type\":\"response.completed\",\"response\":{\"output_text\":\"all\"}}";

#[test]
fn a_stream_is_told_the_same_however_it_is_cut() {
    let bytes = TWO.as_bytes();
    for i in 0..=bytes.len() {
        assert_eq!(follow(&[&bytes[..i], &bytes[i..]], None), vec!["+Grüß", "+ dich", "."]);
    }
    let single: Vec<&[u8]> = bytes.chunks(1).collect();
    assert_eq!(follow(&single, None), vec!["+Grüß", "+ dich", "."]);
}

#[test]
fn the_text_to_fall_back_on_is_told_at_the_end() {
    assert_eq!(follow(&[DONE.as_bytes()], None), vec!["+all", "."]);
    assert_eq!(follow(&[DELTA.as_bytes(), DONE.as_bytes()], None), vec!["+x", "."]);
    assert_eq!(follow(&[], None), vec!["."]);
}

#[test]
fn an_error_before_any_text_is_told() {
    assert_eq!(follow(&[FAILED.as_bytes()], None), vec!["!OpenAI Codex stream error: busy"]);
    assert_eq!(
        follow(&[FAILED.trim_end().as_bytes()], None),
        vec!["!OpenAI Codex stream error: busy"]
    );
}

#[test]
fn an_error_behind_text_is_an_end() {
    assert_eq!(follow(&[DELTA.as_bytes(), FAILED.as_bytes()], None), vec!["+x", "."]);
    let both = format!("{DELTA}{FAILED}");
    assert_eq!(follow(&[both.as_bytes()], None), vec!["+x", "."]);
    let tail = format!("{DELTA}{}", FAILED.trim_end());
    assert_eq!(follow(&[tail.as_bytes()], None), vec!["+x", "."]);
}

#[test]
fn a_read_error_is_told_before_any_text_only() {
    assert_eq!(
        follow(&[b"data:"], Some("reset")),
        vec!["!error reading OpenAI Codex response stream: reset"]
    );
    assert_eq!(follow(&[DELTA.as_bytes()], Some("reset")), vec!["+x", "."]);
}

#[test]
fn invalid_bytes_are_told_before_any_text_only() {
    assert_eq!(
        follow(&[b"a\xff"], None),
        vec!["!OpenAI Codex response contained invalid UTF-8: invalid utf-8 sequence of 1 bytes from index 1"]
    );
    assert_eq!(follow(&[DELTA.as_bytes(), b"\xff"], None), vec!["+x", "."]);
}

#[test]
fn a_cut_character_at_the_end_is_told_before_any_text_only() {
    assert_eq!(
        follow(&[b"a\xe4\xb8"], None),
        vec!["!OpenAI Codex response ended with incomplete UTF-8: incomplete utf-8 byte sequence from index 0"]
    );
    assert_eq!(follow(&[DELTA.as_bytes(), b"\xe4"], None), vec!["+x", "."]);
}

#[test]
fn a_refusal_shows_the_status() {
    assert_eq!(refusal_message("429 Too Many Requests", Some("slow down")), "429 Too Many Requests: slow down");
    assert_eq!(refusal_message("500", None), "500: HTTP error: 500");
}

#[test]
fn following_tells_the_answer_that_the_body_holds() {
    for payload in [TWO, DELTA, DONE] {
        let told = follow(&[payload.as_bytes()], None);
        let text: String = told.iter().filter_map(|t| t.strip_prefix('+')).collect();
        match read(&[payload.as_bytes()]) {
            Ok(Reading::Answer(answer)) => assert_eq!(answer, text),
            other => panic!("no answer: {:?}", other),
        }
    }
}

#[test]
fn a_body_may_be_a_stream_or_a_document() {
    for body in [" \n event: ping\n\n", "data: [DONE]", "data: nonsense\n\nrest"] {
        match read(&[body.as_bytes()]) {
            Ok(Reading::Unanswered(kept)) => assert_eq!(kept, body),
            other => panic!("no stream: {:?}", other),
        }
    }
    for body in ["{\"output_text\":\"x\"}", "", ": comment\n\n{}"] {
        match read(&[body.as_bytes()]) {
            Ok(Reading::Document(kept)) => assert_eq!(kept, body),
            other => panic!("no document: {:?}", other),
        }
    }
}

#[test]
fn a_body_with_an_error_is_refused() {
    let err = read(&[FAILED.as_bytes()]).unwrap_err();
    assert_eq!(err.message(), "OpenAI Codex stream error: busy");
    let err = read(&[DELTA.as_bytes(), FAILED.trim_end().as_bytes()]).unwrap_err();
    assert_eq!(err.message(), "OpenAI Codex stream error: busy");
    let err = read(&[DELTA.as_bytes(), b"\xe4"]).unwrap_err();
    assert_eq!(
        err.message(),
        "OpenAI Codex response ended with incomplete UTF-8: incomplete utf-8 byte sequence from index 0"
    );
    let err = read(&[FAILED.as_bytes(), b"ok", b"\xff"]).unwrap_err();
    assert_eq!(
        err.message(),
        "OpenAI Codex response contained invalid UTF-8: invalid utf-8 sequence of 1 bytes from index 0"
    );
}

#[test]
fn a_body_reads_the_same_however_it_is_cut() {
    let unanswered = "data: {\"type\":\"response.created\"}\n\ndata: ü\n\n";
    for payload in [TWO, DONE, FAILED, unanswered, "{\"output_text\":\"ß\"}"] {
        let bytes = payload.as_bytes();
        let whole = format!("{:?}", read(&[bytes]));
        for i in 0..=bytes.len() {
            assert_eq!(format!("{:?}", read(&[&bytes[..i], &bytes[i..]])), whole);
        }
    }
}

#[test]
fn a_document_answers_with_its_text() {
    let response = ResponsesResponse { output: vec![], output_text: Some(" ok ".to_string()) };
    assert_eq!(answer_of(&response).unwrap(), "ok");
    let response = ResponsesResponse {
        output: vec![ResponsesOutput { content: vec![] }],
        output_text: None,
    };
    let err = answer_of(&response).unwrap_err();
    assert!(matches!(err, BodyError::NoText));
    assert_eq!(err.message(), "No response from OpenAI Codex");
}

#[test]
fn body_errors_show_their_cause() {
    assert_eq!(
        BodyError::Unreadable("reset".to_string()).message(),
        "error reading OpenAI Codex response stream: reset"
    );
    assert_eq!(
        BodyError::Unanswered("data: x".to_string()).message(),
        "No response from OpenAI Codex stream payload: data: x"
    );
    assert_eq!(
        BodyError::NotJson("expected value".to_string(), "<html>".to_string()).message(),
        "OpenAI Codex JSON parse failed: expected value. Payload: <html>"
    );
}

#[test]
fn text_that_nobody_takes_is_a_failure() {
    let delta = Emission::Delta("x".to_string());
    assert_eq!(undelivered(&delta, false).as_deref(), Some("stream receiver dropped"));
    assert_eq!(undelivered(&delta, true), None);
    assert_eq!(undelivered(&Emission::Final, false), None);
    assert_eq!(undelivered(&Emission::Failed("x".to_string()), false), None);

    let mut session = StreamSession::new();
    let step = session.on_bytes(DELTA.as_bytes());
    assert_eq!(step.emissions.iter().map(show).collect::<Vec<_>>(), vec!["+x"]);
    assert_eq!(session.state.delta_accumulator, "x");
}
