//! What a conversation becomes in a request.

use crate::images::{next_at, taken_apart, unmarked_texts_are_kept, MarkedView};
use crate::input::{
    conversation_of, instructions_in, instructions_of, system_parts, text_piece,
    turn_of, turns_of, user_content, MessageView,
};
use crate::laws::text::all_white;
use crate::request::{InputView, PieceView};
use crate::text::{blank_is_all_white, joined, stands_at, trimmed, trimming_is_idempotent};
use vstd::prelude::*;

verus! {

proof fn lemma_roles_differ()
    ensures
        "system"@ != "user"@,
        "system"@ != "assistant"@,
        "user"@ != "assistant"@,
{
    reveal_strlit("system");
    reveal_strlit("user");
    reveal_strlit("assistant");
    assert("system"@.len() == 6 && "user"@.len() == 4 && "assistant"@.len() == 9);
}

/// What the assistant said is one piece of output text, unchanged.
pub proof fn the_assistants_words_are_kept(message: MessageView)
    requires
        message.role == "assistant"@,
    ensures
        turn_of(message) matches Some(turn) && {
            &&& turn.role == "assistant"@
            &&& turn.content.len() == 1
            &&& turn.content[0].kind == "output_text"@
            &&& turn.content[0].text == Some(message.content)
            &&& turn.content[0].image_url is None
        },
{
    lemma_roles_differ();
}

/// Assistant messages that differ make turns that differ.
pub proof fn different_answers_make_different_turns(a: MessageView, b: MessageView)
    requires
        a.role == "assistant"@,
        b.role == "assistant"@,
        a.content != b.content,
    ensures
        turn_of(a) != turn_of(b),
{
    the_assistants_words_are_kept(a);
    the_assistants_words_are_kept(b);
}

/// Whether a marker begins somewhere in a text.
pub open spec fn has_marker(s: Seq<char>) -> bool {
    exists|i: int| 0 <= i < s.len() && #[trigger] stands_at(s, "[IMAGE:"@, i)
}

/// What a user said, where no marker is in it, is one piece of input text: the words
/// as they are, without white space around them.
pub proof fn the_users_words_are_kept(message: MessageView)
    requires
        message.role == "user"@,
        !has_marker(message.content),
    ensures
        turn_of(message) matches Some(turn) && {
            &&& turn.role == "user"@
            &&& turn.content.len() == 1
            &&& turn.content[0].kind == "input_text"@
            &&& turn.content[0].text == Some(trimmed(message.content))
            &&& turn.content[0].image_url is None
        },
{
    lemma_roles_differ();
    unmarked_texts_are_kept(message.content);
    trimming_is_idempotent(message.content);
    let turn = turn_of(message).unwrap();
    let text = trimmed(message.content);
    if text.len() == 0 {
        assert(text =~= Seq::<char>::empty());
        assert(trimmed(text).len() == 0);
    } else {
        assert(turn.content =~= seq![text_piece("input_text"@, text)]);
    }
}

/// A user's text stands first, as it is, unless it is blank, and every image behind it,
/// in order, each a piece of its own; where there is neither, an empty text stands for
/// them.
pub proof fn users_show_text_and_images(text: Seq<char>, images: Seq<Seq<char>>)
    ensures
        ({
            let content = user_content(text, images);
            let first: int = if all_white(text) {
                0
            } else {
                1
            };
            &&& first + images.len() > 0 ==> content.len() == first + images.len()
            &&& first == 1 ==> content[0] == (PieceView {
                kind: "input_text"@,
                text: Some(text),
                image_url: None,
            })
            &&& forall|i: int|
                0 <= i < images.len() ==> content.skip(first)[i] == (PieceView {
                    kind: "input_image"@,
                    text: None,
                    image_url: Some(#[trigger] images[i]),
                })
            &&& first + images.len() == 0 ==> content == seq![
                PieceView { kind: "input_text"@, text: Some(Seq::empty()), image_url: None },
            ]
        }),
{
    blank_is_all_white(text);
}

/// A user's turn shows what is left of the message without its markers, trimmed, and
/// the images that they name.
pub proof fn users_turns_show_their_message(message: MessageView)
    requires
        message.role == "user"@,
    ensures
        turn_of(message) == Some(
            InputView {
                role: "user"@,
                content: user_content(
                    trimmed(taken_apart(message.content).text),
                    taken_apart(message.content).images,
                ),
            },
        ),
{
    lemma_roles_differ();
}

proof fn lemma_next_found(s: Seq<char>, p: Seq<char>, i: int, k: int)
    requires
        0 <= i <= k < s.len(),
        stands_at(s, p, k),
        forall|j: int| i <= j < k ==> !#[trigger] stands_at(s, p, j),
    ensures
        next_at(s, p, i) == Some(k),
    decreases k - i,
{
    if i < k {
        assert(!stands_at(s, p, i));
        lemma_next_found(s, p, i + 1, k);
    }
}

/// A marker is taken out of a text, with the text before it and what the text behind it
/// gives left as they are: a marker that names an image puts that image first, trimmed;
/// one that names none stays as text.
pub proof fn markers_are_taken_out(before: Seq<char>, name: Seq<char>, behind: Seq<char>)
    requires
        !name.contains(']'),
        forall|i: int|
            0 <= i < before.len() ==> !#[trigger] stands_at(
                before + "[IMAGE:"@ + name + "]"@ + behind,
                "[IMAGE:"@,
                i,
            ),
    ensures
        ({
            let all = taken_apart(before + "[IMAGE:"@ + name + "]"@ + behind);
            let rest = taken_apart(behind);
            &&& !all_white(name) ==> all.text == before + rest.text && all.images == seq![
                trimmed(name),
            ] + rest.images
            &&& all_white(name) ==> all.text == before + "[IMAGE:"@ + name + "]"@ + rest.text
                && all.images == rest.images
        }),
{
    reveal_strlit("[IMAGE:");
    reveal_strlit("]");
    let s = before + "[IMAGE:"@ + name + "]"@ + behind;
    let start = before.len() as int;
    let end = start + 7 + name.len();
    assert(s.subrange(start, start + 7) =~= "[IMAGE:"@);
    lemma_next_found(s, "[IMAGE:"@, 0, start);
    assert(s.subrange(end, end + 1) =~= "]"@);
    assert forall|j: int| start + 7 <= j < end implies !#[trigger] stands_at(s, "]"@, j) by {
        assert(s[j] == name[j - start - 7]);
        assert(name.contains(s[j]));
        if stands_at(s, "]"@, j) {
            assert(s.subrange(j, j + 1)[0] == ']');
        }
    }
    lemma_next_found(s, "]"@, start + 7, end);
    assert(s.subrange(start + 7, end) =~= name);
    assert(s.skip(end + 1) =~= behind);
    assert(s.take(start) =~= before);
    assert(s.take(end + 1) =~= before + "[IMAGE:"@ + name + "]"@);
    blank_is_all_white(name);
}

/// A marker that is never closed is text, and so is all behind it.
pub proof fn open_markers_are_text(before: Seq<char>, behind: Seq<char>)
    requires
        !behind.contains(']'),
        forall|i: int|
            0 <= i < before.len() ==> !#[trigger] stands_at(
                before + "[IMAGE:"@ + behind,
                "[IMAGE:"@,
                i,
            ),
    ensures
        taken_apart(before + "[IMAGE:"@ + behind) == (MarkedView {
            text: before + "[IMAGE:"@ + behind,
            images: Seq::empty(),
        }),
{
    reveal_strlit("[IMAGE:");
    reveal_strlit("]");
    let s = before + "[IMAGE:"@ + behind;
    let start = before.len() as int;
    assert(s.subrange(start, start + 7) =~= "[IMAGE:"@);
    lemma_next_found(s, "[IMAGE:"@, 0, start);
    assert(s.skip(start + 7) =~= behind);
    lemma_nowhere(s, behind, start + 7, start + 7);
}

proof fn lemma_nowhere(s: Seq<char>, behind: Seq<char>, from: int, i: int)
    requires
        0 <= from <= i,
        from + behind.len() == s.len(),
        s.skip(from) == behind,
        !behind.contains(']'),
    ensures
        next_at(s, "]"@, i) is None,
    decreases s.len() - i,
{
    reveal_strlit("]");
    if i < s.len() {
        assert(s[i] == behind[i - from]);
        assert(behind.contains(s[i]));
        if stands_at(s, "]"@, i) {
            assert(s.subrange(i, i + 1)[0] == ']');
        }
        lemma_nowhere(s, behind, from, i + 1);
    }
}

/// Each message of the user or the assistant makes one turn at its place, with what was
/// said before in front of it; a system message makes none, but adds its words to the
/// instructions as they are.
pub proof fn messages_make_turns_in_order(before: Seq<MessageView>, message: MessageView)
    ensures
        message.role == "user"@ || message.role == "assistant"@ ==> {
            &&& turn_of(message) is Some
            &&& turns_of(before.push(message)) == turns_of(before).push(turn_of(message).unwrap())
            &&& system_parts(before.push(message)) == system_parts(before)
        },
        message.role == "system"@ ==> {
            &&& turns_of(before.push(message)) == turns_of(before)
            &&& system_parts(before.push(message)) == system_parts(before).push(message.content)
        },
        turns_of(Seq::empty()).len() == 0,
        system_parts(Seq::empty()).len() == 0,
{
    lemma_roles_differ();
    assert(before.push(message).drop_last() =~= before);
}

/// A system message alone gives the instructions, as they are; two give both with a blank
/// line between them; without any the default ones are given.
pub proof fn system_messages_give_the_instructions(
    messages: Seq<MessageView>,
    a: Seq<char>,
    b: Seq<char>,
)
    ensures
        system_parts(messages).len() == 0 ==> instructions_of(messages)
            == "You are ZeroClaw, a concise and helpful coding assistant."@,
        system_parts(messages) == seq![a] ==> instructions_of(messages) == a,
        system_parts(messages) == seq![a, b] ==> instructions_of(messages) == a + seq!['\n', '\n']
            + b,
        system_parts(messages).len() > 0 ==> instructions_of(messages) == joined(
            system_parts(messages),
            seq!['\n', '\n'],
        ),
{
    reveal_strlit("\n\n");
    assert("\n\n"@ =~= seq!['\n', '\n']);
    let two = seq![a, b];
    assert(two.drop_last() =~= seq![a]);
    reveal_with_fuel(joined, 3);
}

/// A system prompt is taken trimmed, and the default in its place where it is blank or
/// there is none.
pub proof fn prompts_are_the_instructions(prompt: Seq<char>)
    ensures
        !all_white(prompt) ==> instructions_in(Some(prompt)) == trimmed(prompt),
        all_white(prompt) ==> instructions_in(Some(prompt)) == instructions_in(None),
        instructions_in(None) == "You are ZeroClaw, a concise and helpful coding assistant."@,
{
    blank_is_all_white(prompt);
}

/// A single message is asked as the user's, unchanged, behind the system prompt where
/// there is one.
pub proof fn single_messages_are_asked(prompt: Seq<char>, message: Seq<char>)
    ensures
        ({
            let asked = MessageView { role: "user"@, content: message };
            let told = MessageView { role: "system"@, content: prompt };
            &&& conversation_of(None, message) == seq![asked]
            &&& conversation_of(Some(prompt), message) == seq![told, asked]
            &&& instructions_of(conversation_of(Some(prompt), message)) == prompt
            &&& turns_of(conversation_of(Some(prompt), message)) == seq![turn_of(asked).unwrap()]
            &&& turns_of(conversation_of(None, message)) == seq![turn_of(asked).unwrap()]
            &&& turn_of(asked) is Some
        }),
{
    let asked = MessageView { role: "user"@, content: message };
    let told = MessageView { role: "system"@, content: prompt };
    let none = Seq::<MessageView>::empty();
    messages_make_turns_in_order(none, asked);
    messages_make_turns_in_order(none, told);
    messages_make_turns_in_order(none.push(told), asked);
    assert(none.push(asked) =~= seq![asked]);
    assert(none.push(told).push(asked) =~= seq![told, asked]);
    assert(system_parts(seq![told, asked]) =~= seq![prompt]);
    assert(turns_of(seq![asked]) =~= seq![turn_of(asked).unwrap()]);
    assert(turns_of(seq![told, asked]) =~= seq![turn_of(asked).unwrap()]);
    system_messages_give_the_instructions(seq![told, asked], prompt, prompt);
}

} // verus!
