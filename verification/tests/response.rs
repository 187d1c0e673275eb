use openai_codex::wire::{
    extract_responses_text, ResponsesContent, ResponsesOutput, ResponsesResponse,
};

fn piece(kind: Option<&str>, text: Option<&str>) -> ResponsesContent {
    ResponsesContent { kind: kind.map(str::to_string), text: text.map(str::to_string) }
}

#[test]
fn extracts_output_text_first() {
    let response = ResponsesResponse {
        output: vec![],
        output_text: Some("hello".into()),
    };
    assert_eq!(extract_responses_text(&response).as_deref(), Some("hello"));
}

#[test]
fn extracts_nested_output_text() {
    let response = ResponsesResponse {
        output: vec![ResponsesOutput {
            content: vec![ResponsesContent {
                kind: Some("output_text".into()),
                text: Some("nested".into()),
            }],
        }],
        output_text: None,
    };
    assert_eq!(extract_responses_text(&response).as_deref(), Some("nested"));
}

#[test]
fn output_text_is_preferred_over_other_kinds() {
    let response = ResponsesResponse {
        output: vec![
            ResponsesOutput { content: vec![piece(Some("refusal"), Some("no"))] },
            ResponsesOutput {
                content: vec![
                    piece(Some("output_text"), Some("  ")),
                    piece(Some("output_text"), Some(" yes\n")),
                ],
            },
        ],
        output_text: Some(" \t".into()),
    };
    assert_eq!(extract_responses_text(&response).as_deref(), Some("yes"));
}

#[test]
fn any_text_is_taken_where_there_is_no_output_text() {
    let response = ResponsesResponse {
        output: vec![
            ResponsesOutput { content: vec![piece(Some("output_text"), None)] },
            ResponsesOutput { content: vec![piece(None, Some("loose")), piece(None, Some("late"))] },
        ],
        output_text: None,
    };
    assert_eq!(extract_responses_text(&response).as_deref(), Some("loose"));
}

#[test]
fn a_response_without_text_has_none() {
    let response = ResponsesResponse {
        output: vec![ResponsesOutput { content: vec![piece(Some("output_text"), Some(""))] }],
        output_text: None,
    };
    assert_eq!(extract_responses_text(&response), None);
}
