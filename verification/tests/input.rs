use openai_codex::images::parse_image_markers;
use openai_codex::input::{
    build_responses_input, build_user_content, resolve_instructions, single_turn, ChatMessage,
    DEFAULT_CODEX_INSTRUCTIONS,
};
use openai_codex::json::Json;

fn message(role: &str, content: &str) -> ChatMessage {
    ChatMessage { role: role.into(), content: content.into() }
}

fn items(json: &Json) -> &Vec<Json> {
    match json {
        Json::Array(items) => items,
        other => panic!("no list: {:?}", other),
    }
}

#[test]
fn resolve_instructions_uses_default_when_missing() {
    assert_eq!(
        resolve_instructions(None),
        DEFAULT_CODEX_INSTRUCTIONS.to_string()
    );
}

#[test]
fn resolve_instructions_uses_default_when_blank() {
    assert_eq!(
        resolve_instructions(Some("   ")),
        DEFAULT_CODEX_INSTRUCTIONS.to_string()
    );
}

#[test]
fn resolve_instructions_uses_system_prompt_when_present() {
    assert_eq!(
        resolve_instructions(Some("Be strict")),
        "Be strict".to_string()
    );
}

#[test]
fn build_responses_input_maps_content_types_by_role() {
    let messages = vec![
        ChatMessage {
            role: "system".into(),
            content: "You are helpful.".into(),
        },
        ChatMessage {
            role: "user".into(),
            content: "Hi".into(),
        },
        ChatMessage {
            role: "assistant".into(),
            content: "Hello!".into(),
        },
        ChatMessage {
            role: "user".into(),
            content: "Thanks".into(),
        },
    ];
    let (instructions, input) = build_responses_input(&messages);
    assert_eq!(instructions, "You are helpful.");
    assert_eq!(input.len(), 3);

    let json: Vec<Json> = input.iter().map(|item| item.to_json()).collect();
    let content: Vec<&Json> =
        json.iter().map(|item| &items(item.get("content").unwrap())[0]).collect();
    assert_eq!(json[0].str_at("role"), Some("user"));
    assert_eq!(content[0].str_at("type"), Some("input_text"));
    assert_eq!(json[1].str_at("role"), Some("assistant"));
    assert_eq!(content[1].str_at("type"), Some("output_text"));
    assert_eq!(json[2].str_at("role"), Some("user"));
    assert_eq!(content[2].str_at("type"), Some("input_text"));
}

#[test]
fn build_responses_input_uses_default_instructions_without_system() {
    let messages = vec![ChatMessage {
        role: "user".into(),
        content: "Hello".into(),
    }];
    let (instructions, input) = build_responses_input(&messages);
    assert_eq!(instructions, DEFAULT_CODEX_INSTRUCTIONS);
    assert_eq!(input.len(), 1);
}

#[test]
fn build_responses_input_ignores_unknown_roles() {
    let messages = vec![
        ChatMessage {
            role: "tool".into(),
            content: "result".into(),
        },
        ChatMessage {
            role: "user".into(),
            content: "Go".into(),
        },
    ];
    let (instructions, input) = build_responses_input(&messages);
    assert_eq!(instructions, DEFAULT_CODEX_INSTRUCTIONS);
    assert_eq!(input.len(), 1);
    let json = input[0].to_json();
    assert_eq!(json.str_at("role"), Some("user"));
}

#[test]
fn build_responses_input_handles_image_markers() {
    let messages = vec![ChatMessage::user(
        "Describe this\n\n[IMAGE:data:image/png;base64,abc]",
    )];
    let (_, input) = build_responses_input(&messages);

    assert_eq!(input.len(), 1);
    assert_eq!(input[0].role, "user");
    assert_eq!(input[0].content.len(), 2);

    let json: Vec<Json> = input[0].content.iter().map(|item| item.to_json()).collect();

    // First content = text
    assert_eq!(json[0].str_at("type"), Some("input_text"));
    assert!(json[0].str_at("text").unwrap().contains("Describe this"));

    // Second content = image
    assert_eq!(json[1].str_at("type"), Some("input_image"));
    assert_eq!(json[1].str_at("image_url"), Some("data:image/png;base64,abc"));
}

#[test]
fn build_responses_input_preserves_text_only_messages() {
    let messages = vec![ChatMessage::user("Hello without images")];
    let (_, input) = build_responses_input(&messages);

    assert_eq!(input.len(), 1);
    assert_eq!(input[0].content.len(), 1);

    let json = input[0].content[0].to_json();
    assert_eq!(json.str_at("type"), Some("input_text"));
    assert_eq!(json.str_at("text"), Some("Hello without images"));
    assert!(json.get("image_url").is_none());
}

#[test]
fn build_responses_input_handles_multiple_images() {
    let messages = vec![ChatMessage::user(
        "Compare these: [IMAGE:data:image/png;base64,img1] and [IMAGE:data:image/jpeg;base64,img2]",
    )];
    let (_, input) = build_responses_input(&messages);

    assert_eq!(input.len(), 1);
    assert_eq!(input[0].content.len(), 3); // text + 2 images

    let json: Vec<Json> = input[0].content.iter().map(|item| item.to_json()).collect();

    assert_eq!(json[0].str_at("type"), Some("input_text"));
    assert_eq!(json[1].str_at("type"), Some("input_image"));
    assert_eq!(json[2].str_at("type"), Some("input_image"));
}

#[test]
fn system_messages_are_joined_by_blank_lines() {
    let messages = vec![
        message("system", "One."),
        message("user", "Go"),
        message("system", "Two."),
        message("assistant", ""),
    ];
    let (instructions, input) = build_responses_input(&messages);
    assert_eq!(instructions, "One.\n\nTwo.");
    assert_eq!(input.len(), 2);
    assert_eq!(input[1].content[0].kind, "output_text");
    assert_eq!(input[1].content[0].text.as_deref(), Some(""));
}

#[test]
fn a_blank_turn_holds_an_empty_text() {
    let (_, input) = build_responses_input(&[message("user", " \n")]);
    assert_eq!(input[0].content.len(), 1);
    assert_eq!(input[0].content[0].kind, "input_text");
    assert_eq!(input[0].content[0].text.as_deref(), Some(""));
}

#[test]
fn an_image_alone_makes_no_text() {
    let (_, input) = build_responses_input(&[message("user", "[IMAGE: a.png ]")]);
    assert_eq!(input[0].content.len(), 1);
    assert_eq!(input[0].content[0].kind, "input_image");
    assert_eq!(input[0].content[0].text, None);
    assert_eq!(input[0].content[0].image_url.as_deref(), Some("a.png"));
}

#[test]
fn user_content_keeps_the_text_as_it_is() {
    let content = build_user_content(" hi ".to_string(), vec!["b.png".to_string()]);
    assert_eq!(content.len(), 2);
    assert_eq!(content[0].text.as_deref(), Some(" hi "));
    assert_eq!(content[1].image_url.as_deref(), Some("b.png"));
}

#[test]
fn a_conversation_that_goes_on_adds_turns() {
    let first = [message("user", "a"), message("tool", "b")];
    let second = [message("system", "c"), message("assistant", "d")];
    let whole = [
        message("user", "a"),
        message("tool", "b"),
        message("system", "c"),
        message("assistant", "d"),
    ];
    let before = build_responses_input(&first).1;
    let after = build_responses_input(&second).1;
    let (instructions, input) = build_responses_input(&whole);
    assert_eq!(instructions, "c");
    assert_eq!(input.len(), before.len() + after.len());
    assert_eq!(input[0].role, before[0].role);
    assert_eq!(input[1].role, after[0].role);
}

#[test]
fn image_markers_are_taken_out_in_order() {
    let (text, images) = parse_image_markers(" a [IMAGE:1.png] b [IMAGE:2.png]");
    assert_eq!(text, "a  b");
    assert_eq!(images, vec!["1.png".to_string(), "2.png".to_string()]);
}

#[test]
fn markers_without_an_image_are_text() {
    assert_eq!(parse_image_markers("[IMAGE: ] x"), ("[IMAGE: ] x".to_string(), vec![]));
    assert_eq!(parse_image_markers("[IMAGE:open"), ("[IMAGE:open".to_string(), vec![]));
    assert_eq!(parse_image_markers("[image:a] [IMAG"), ("[image:a] [IMAG".to_string(), vec![]));
}

#[test]
fn a_single_turn_puts_the_prompt_first() {
    let messages = single_turn(Some("Be brief."), "Hi");
    assert_eq!(messages.len(), 2);
    assert_eq!((messages[0].role.as_str(), messages[0].content.as_str()), ("system", "Be brief."));
    assert_eq!((messages[1].role.as_str(), messages[1].content.as_str()), ("user", "Hi"));
    assert_eq!(single_turn(None, "Hi").len(), 1);
}
