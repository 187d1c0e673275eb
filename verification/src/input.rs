//! Conversations, and the input that a request makes of them.

use crate::images::{parse_image_markers, taken_apart};
use crate::request::{inputs, pieces, InputView, PieceView, ResponsesInput, ResponsesInputContent};
use crate::text::{
    first_nonempty, is_blank, join, joined, nonblank, opt_str, same_text, texts, trimmed,
};
use vstd::prelude::*;
use vstd::string::*;

verus! {

/// The instructions that are sent where a conversation has none of its own.
pub const DEFAULT_CODEX_INSTRUCTIONS: &'static str =
    "You are ZeroClaw, a concise and helpful coding assistant.";

/// One message of a conversation.
#[derive(Debug)]
pub struct ChatMessage {
    pub role: String,
    pub content: String,
}

/// The model of [`ChatMessage`].
pub struct MessageView {
    pub role: Seq<char>,
    pub content: Seq<char>,
}

impl View for ChatMessage {
    type V = MessageView;

    open spec fn view(&self) -> MessageView {
        MessageView { role: self.role@, content: self.content@ }
    }
}

/// What a list of messages holds.
pub open spec fn messages_of(v: Seq<ChatMessage>) -> Seq<MessageView> {
    v.map_values(|m: ChatMessage| m@)
}

impl ChatMessage {
    /// A message that instructs the model.
    pub fn system(content: &str) -> (r: ChatMessage)
        ensures
            r@ == (MessageView { role: "system"@, content: content@ }),
    {
        ChatMessage { role: "system".to_owned(), content: content.to_owned() }
    }

    /// A message of the user.
    pub fn user(content: &str) -> (r: ChatMessage)
        ensures
            r@ == (MessageView { role: "user"@, content: content@ }),
    {
        ChatMessage { role: "user".to_owned(), content: content.to_owned() }
    }
}

/// The conversation that consists of one message, and of instructions where
/// there are any.
pub open spec fn conversation_of(
    system_prompt: Option<Seq<char>>,
    message: Seq<char>,
) -> Seq<MessageView> {
    let asked = MessageView { role: "user"@, content: message };
    match system_prompt {
        Some(prompt) => seq![MessageView { role: "system"@, content: prompt }, asked],
        None => seq![asked],
    }
}

/// The conversation that consists of one message, and of instructions where
/// there are any.
pub fn single_turn(system_prompt: Option<&str>, message: &str) -> (r: Vec<ChatMessage>)
    ensures
        messages_of(r@) == conversation_of(opt_str(system_prompt), message@),
{
    let mut messages: Vec<ChatMessage> = Vec::new();
    if let Some(prompt) = system_prompt {
        messages.push(ChatMessage::system(prompt));
    }
    messages.push(ChatMessage::user(message));
    assert(messages_of(messages@) =~= conversation_of(opt_str(system_prompt), message@));
    messages
}

/// The instructions in a system prompt, or the default ones where it is blank or
/// there is none.
pub open spec fn instructions_in(system_prompt: Option<Seq<char>>) -> Seq<char> {
    match nonblank(system_prompt) {
        Some(prompt) => prompt,
        None => DEFAULT_CODEX_INSTRUCTIONS@,
    }
}

/// The instructions in a system prompt, or the default ones where it is blank or
/// there is none.
pub fn resolve_instructions(system_prompt: Option<&str>) -> (r: String)
    ensures
        r@ == instructions_in(opt_str(system_prompt)),
{
    match first_nonempty(system_prompt) {
        Some(prompt) => prompt,
        None => DEFAULT_CODEX_INSTRUCTIONS.to_owned(),
    }
}

/// A piece of content that is text.
pub open spec fn text_piece(kind: Seq<char>, text: Seq<char>) -> PieceView {
    PieceView { kind, text: Some(text), image_url: None }
}

/// A piece of content that is an image.
pub open spec fn image_piece(image: Seq<char>) -> PieceView {
    PieceView { kind: "input_image"@, text: None, image_url: Some(image) }
}

/// The content of a user's turn: the text, unless it is blank, and the images
/// behind it; an empty text where that leaves nothing.
pub open spec fn user_content(text: Seq<char>, images: Seq<Seq<char>>) -> Seq<PieceView> {
    let shown = images.map_values(|image: Seq<char>| image_piece(image));
    if trimmed(text).len() > 0 {
        seq![text_piece("input_text"@, text)] + shown
    } else if images.len() > 0 {
        shown
    } else {
        seq![text_piece("input_text"@, Seq::empty())]
    }
}

/// The turn that a message makes, if it is a user's or an assistant's.
pub open spec fn turn_of(message: MessageView) -> Option<InputView> {
    if message.role == "user"@ {
        let marked = taken_apart(message.content);
        Some(
            InputView {
                role: "user"@,
                content: user_content(trimmed(marked.text), marked.images),
            },
        )
    } else if message.role == "assistant"@ {
        Some(
            InputView {
                role: "assistant"@,
                content: seq![text_piece("output_text"@, message.content)],
            },
        )
    } else {
        None
    }
}

/// The turns of a conversation, in order.
pub open spec fn turns_of(messages: Seq<MessageView>) -> Seq<InputView>
    decreases messages.len(),
{
    if messages.len() == 0 {
        Seq::empty()
    } else {
        let before = turns_of(messages.drop_last());
        match turn_of(messages.last()) {
            Some(turn) => before.push(turn),
            None => before,
        }
    }
}

/// What the system messages of a conversation say, in order.
pub open spec fn system_parts(messages: Seq<MessageView>) -> Seq<Seq<char>>
    decreases messages.len(),
{
    if messages.len() == 0 {
        Seq::empty()
    } else {
        let before = system_parts(messages.drop_last());
        if messages.last().role == "system"@ {
            before.push(messages.last().content)
        } else {
            before
        }
    }
}

/// The instructions of a conversation: its system messages with a blank line
/// between them, or the default where it has none.
pub open spec fn instructions_of(messages: Seq<MessageView>) -> Seq<char> {
    if system_parts(messages).len() == 0 {
        DEFAULT_CODEX_INSTRUCTIONS@
    } else {
        joined(system_parts(messages), "\n\n"@)
    }
}

/// The content of a user's turn: the text, unless it is blank, and the images
/// behind it; an empty text where that leaves nothing.
pub fn build_user_content(text: String, images: Vec<String>) -> (r: Vec<ResponsesInputContent>)
    ensures
        pieces(r@) == user_content(text@, texts(images@)),
{
    let mut items: Vec<ResponsesInputContent> = Vec::new();
    let said = !is_blank(text.as_str());
    let ghost whole = text@;
    if said {
        items.push(
            ResponsesInputContent {
                kind: "input_text".to_owned(),
                text: Some(text),
                image_url: None,
            },
        );
    }
    let ghost first = pieces(items@);
    let ghost shown = texts(images@).map_values(|image: Seq<char>| image_piece(image));
    let mut i: usize = 0;
    assert(first + shown.take(0) =~= first);
    while i < images.len()
        invariant
            i <= images@.len(),
            shown == texts(images@).map_values(|image: Seq<char>| image_piece(image)),
            pieces(items@) == first + shown.take(i as int),
        decreases images@.len() - i,
    {
        let ghost done = pieces(items@);
        items.push(
            ResponsesInputContent {
                kind: "input_image".to_owned(),
                text: None,
                image_url: Some(images[i].as_str().to_owned()),
            },
        );
        proof {
            assert(pieces(items@) =~= done.push(image_piece(images@[i as int]@)));
            assert(shown.take(i + 1) =~= shown.take(i as int).push(shown[i as int]));
            assert(first + shown.take(i as int).push(shown[i as int]) =~= (first + shown.take(
                i as int,
            )).push(shown[i as int]));
        }
        i += 1;
    }
    assert(shown.take(i as int) =~= shown);
    proof {
        if said {
            assert(first =~= seq![text_piece("input_text"@, whole)]);
        } else {
            assert(first + shown =~= shown);
        }
    }
    if items.len() == 0 {
        items.push(
            ResponsesInputContent {
                kind: "input_text".to_owned(),
                text: Some(String::new()),
                image_url: None,
            },
        );
        assert(pieces(items@) =~= seq![text_piece("input_text"@, Seq::empty())]);
    }
    items
}

fn build_turn(message: &ChatMessage) -> (r: Option<ResponsesInput>)
    ensures
        (match r {
            Some(turn) => Some(turn@),
            None => None,
        }) == turn_of(message@),
{
    if same_text(message.role.as_str(), "user") {
        let (text, images) = parse_image_markers(message.content.as_str());
        return Some(
            ResponsesInput { role: "user".to_owned(), content: build_user_content(text, images) },
        );
    }
    if same_text(message.role.as_str(), "assistant") {
        let mut content: Vec<ResponsesInputContent> = Vec::new();
        content.push(
            ResponsesInputContent {
                kind: "output_text".to_owned(),
                text: Some(message.content.as_str().to_owned()),
                image_url: None,
            },
        );
        assert(pieces(content@) =~= seq![text_piece("output_text"@, message.content@)]);
        return Some(ResponsesInput { role: "assistant".to_owned(), content });
    }
    None
}

/// The instructions of a conversation, and its turns.
pub fn build_responses_input(messages: &[ChatMessage]) -> (r: (String, Vec<ResponsesInput>))
    ensures
        r.0@ == instructions_of(messages_of(messages@)),
        inputs(r.1@) == turns_of(messages_of(messages@)),
{
    let ghost all = messages_of(messages@);
    let mut parts: Vec<String> = Vec::new();
    let mut turns: Vec<ResponsesInput> = Vec::new();
    let n: usize = messages.len();
    let mut i: usize = 0;
    proof {
        assert(all.take(0) =~= Seq::<MessageView>::empty());
        assert(texts(parts@) =~= Seq::<Seq<char>>::empty());
        assert(inputs(turns@) =~= Seq::<InputView>::empty());
        lemma_roles_differ();
    }
    while i < n
        invariant
            i <= n,
            n == messages@.len(),
            all == messages_of(messages@),
            "system"@ != "user"@,
            "system"@ != "assistant"@,
            texts(parts@) == system_parts(all.take(i as int)),
            inputs(turns@) == turns_of(all.take(i as int)),
        decreases n - i,
    {
        let message = &messages[i];
        let ghost said = texts(parts@);
        let ghost taken = inputs(turns@);
        proof {
            assert(all.take(i + 1).drop_last() =~= all.take(i as int));
            assert(all.take(i + 1).last() == message@);
        }
        if same_text(message.role.as_str(), "system") {
            parts.push(message.content.as_str().to_owned());
            assert(texts(parts@) =~= said.push(message.content@));
        } else if let Some(turn) = build_turn(message) {
            turns.push(turn);
            assert(inputs(turns@) =~= taken.push(turn@));
        }
        i += 1;
    }
    assert(all.take(i as int) =~= all);
    let instructions = if parts.len() == 0 {
        DEFAULT_CODEX_INSTRUCTIONS.to_owned()
    } else {
        join(&parts, "\n\n")
    };
    (instructions, turns)
}

proof fn lemma_roles_differ()
    ensures
        "system"@ != "user"@,
        "system"@ != "assistant"@,
        "user"@ != "assistant"@,
{
    reveal_strlit("system");
    reveal_strlit("user");
    reveal_strlit("assistant");
    assert("system"@.len() == 6 && "user"@.len() == 4 && "assistant"@.len() == 9);
}

/// The turns of a conversation that goes on are those of its beginning, and
/// behind them those of the rest; and so are its system messages.
pub proof fn conversations_compose(a: Seq<MessageView>, b: Seq<MessageView>)
    ensures
        turns_of(a + b) == turns_of(a) + turns_of(b),
        system_parts(a + b) == system_parts(a) + system_parts(b),
    decreases b.len(),
{
    if b.len() == 0 {
        assert(a + b =~= a);
        assert(turns_of(a) + turns_of(b) =~= turns_of(a));
        assert(system_parts(a) + system_parts(b) =~= system_parts(a));
    } else {
        conversations_compose(a, b.drop_last());
        assert((a + b).drop_last() =~= a + b.drop_last());
        assert((a + b).last() == b.last());
        if let Some(turn) = turn_of(b.last()) {
            assert((turns_of(a) + turns_of(b.drop_last())).push(turn) =~= turns_of(a) + turns_of(
                b.drop_last(),
            ).push(turn));
        }
        if b.last().role == "system"@ {
            let part = b.last().content;
            assert((system_parts(a) + system_parts(b.drop_last())).push(part) =~= system_parts(a)
                + system_parts(b.drop_last()).push(part));
        }
    }
}

/// A message in another role than `system`, `user` and `assistant` counts for
/// nothing, wherever it stands.
pub proof fn other_roles_are_ignored(a: Seq<MessageView>, message: MessageView, b: Seq<MessageView>)
    requires
        message.role != "system"@,
        message.role != "user"@,
        message.role != "assistant"@,
    ensures
        turns_of(a.push(message) + b) == turns_of(a + b),
        instructions_of(a.push(message) + b) == instructions_of(a + b),
{
    conversations_compose(a.push(message), b);
    conversations_compose(a, b);
    assert(a.push(message).drop_last() =~= a);
}

/// A system message makes no turn, and any other message no instructions.
pub proof fn instructions_are_the_system_messages(a: Seq<MessageView>, message: MessageView)
    ensures
        message.role == "system"@ ==> turns_of(a.push(message)) == turns_of(a) && system_parts(
            a.push(message),
        ) == system_parts(a).push(message.content),
        message.role != "system"@ ==> instructions_of(a.push(message)) == instructions_of(a),
{
    lemma_roles_differ();
    assert(a.push(message).drop_last() =~= a);
}

/// Whether the pieces of a turn are of the kinds that its role sends.
pub open spec fn speaks_in_role(turn: InputView) -> bool {
    if turn.role == "user"@ {
        forall|i: int|
            0 <= i < turn.content.len() ==> {
                let piece = #[trigger] turn.content[i];
                (piece.kind == "input_text"@ && piece.text is Some && piece.image_url is None) || (
                piece.kind == "input_image"@ && piece.text is None && piece.image_url is Some)
            }
    } else {
        &&& turn.role == "assistant"@
        &&& turn.content.len() == 1
        &&& turn.content[0].kind == "output_text"@
        &&& turn.content[0].text is Some
        &&& turn.content[0].image_url is None
    }
}

/// No turn is without content, and the kinds of its pieces go by its role.
pub proof fn turns_speak_in_role(messages: Seq<MessageView>, i: int)
    requires
        0 <= i < turns_of(messages).len(),
    ensures
        turns_of(messages)[i].content.len() > 0,
        speaks_in_role(turns_of(messages)[i]),
    decreases messages.len(),
{
    lemma_roles_differ();
    if i < turns_of(messages.drop_last()).len() {
        turns_speak_in_role(messages.drop_last(), i);
    }
}

} // verus!
