//! Reading JSON values, and the responses that they hold.

use crate::json::JsonView;
use crate::laws::text::all_white;
use crate::text::{blank_is_all_white, trimmed};
use crate::wire::{
    first_text, read_all, read_content, read_output, read_response, response_text,
    ContentView, ResponseView,
};
use vstd::prelude::*;

verus! {

/// A member is found by its name wherever it stands, the first of that name where
/// there are several; and what is no object has no members.
pub proof fn members_are_found_by_name(
    members: Seq<(Seq<char>, JsonView)>,
    name: Seq<char>,
    i: int,
)
    requires
        forall|j: int| 0 <= j < i && j < members.len() ==> (#[trigger] members[j]).0 != name,
        0 <= i <= members.len(),
        i < members.len() ==> members[i].0 == name,
    ensures
        i < members.len() ==> JsonView::Object(members).get(name) == Some(members[i].1),
        i == members.len() ==> JsonView::Object(members).get(name) is None,
    decreases members.len(),
{
    if members.len() > 0 && i > 0 {
        let rest = members.drop_first();
        assert(members[0].0 != name);
        assert forall|j: int| 0 <= j < i - 1 && j < rest.len() implies (#[trigger] rest[j]).0
            != name by {
            assert(rest[j] == members[j + 1]);
        }
        members_are_found_by_name(rest, name, i - 1);
    }
}

/// Only a text is a text, and only an object has members.
pub proof fn values_are_what_they_are(v: JsonView, s: Seq<char>, name: Seq<char>)
    ensures
        JsonView::Text(s).as_text() == Some(s),
        v.as_text() is Some ==> v == JsonView::Text(v.as_text().unwrap()),
        !(v is Object) ==> v.get(name) is None,
        v.get(name) matches Some(inner) ==> v.text_at(name) == inner.as_text(),
        v.get(name) is None ==> v.text_at(name) is None,
{
}

/// An object with a member called `a` in front of one called `b` gives either.
pub proof fn pairs_are_found(
    a: Seq<char>,
    x: JsonView,
    b: Seq<char>,
    y: JsonView,
    name: Seq<char>,
)
    requires
        a != b,
    ensures
        JsonView::Object(seq![(a, x), (b, y)]).get(a) == Some(x),
        JsonView::Object(seq![(a, x), (b, y)]).get(b) == Some(y),
        name != a && name != b ==> JsonView::Object(seq![(a, x), (b, y)]).get(name) is None,
{
    let members = seq![(a, x), (b, y)];
    members_are_found_by_name(members, a, 0);
    members_are_found_by_name(members, b, 1);
    if name != a && name != b {
        members_are_found_by_name(members, name, 2);
    }
}

/// Whether a value, or its absence, stands for an optional text: `null` and nothing
/// for none, and a text for itself.
pub open spec fn stands_for(v: Option<JsonView>, text: Option<Seq<char>>) -> bool {
    match v {
        None => text is None,
        Some(JsonView::Null) => text is None,
        Some(JsonView::Text(s)) => text == Some(s),
        Some(_) => false,
    }
}

/// A content piece is read from the members `type` and `text` of an object, and is
/// refused where one of them is anything but a text or `null`.
pub proof fn pieces_are_read_by_member(
    members: Seq<(Seq<char>, JsonView)>,
    kind: Option<Seq<char>>,
    text: Option<Seq<char>>,
)
    ensures
        ({
            let v = JsonView::Object(members);
            &&& stands_for(v.get("type"@), kind) && stands_for(v.get("text"@), text)
                ==> read_content(v) == Some(ContentView { kind, text })
            &&& read_content(v) matches Some(piece) ==> stands_for(v.get("type"@), piece.kind)
                && stands_for(v.get("text"@), piece.text)
        }),
{
}

proof fn lemma_read_all<T>(items: Seq<JsonView>, read: spec_fn(JsonView) -> Option<T>)
    ensures
        match read_all(items, read) {
            Some(out) => out.len() == items.len() && forall|i: int|
                0 <= i < items.len() ==> read(#[trigger] items[i]) == Some(out[i]),
            None => exists|i: int| 0 <= i < items.len() && read(#[trigger] items[i]) is None,
        },
    decreases items.len(),
{
    if items.len() > 0 {
        let before = items.drop_last();
        lemma_read_all(before, read);
        match read_all(items, read) {
            Some(out) => {
                assert forall|i: int| 0 <= i < items.len() implies read(#[trigger] items[i])
                    == Some(out[i]) by {
                    if i < before.len() {
                        assert(before[i] == items[i]);
                    }
                }
            },
            None => {
                if read_all(before, read) is None {
                    let i = choose|i: int| 0 <= i < before.len() && read(#[trigger] before[i]) is None;
                    assert(items[i] == before[i]);
                } else {
                    assert(read(items[items.len() - 1]) is None);
                }
            },
        }
    }
}

/// An output item is the list of all the pieces in its member `content`, in order;
/// it has none where there is no such member, and is refused where one of them is.
pub proof fn items_hold_all_their_pieces(members: Seq<(Seq<char>, JsonView)>)
    ensures
        ({
            let v = JsonView::Object(members);
            match v.get("content"@) {
                None => read_output(v) == Some(Seq::<ContentView>::empty()),
                Some(JsonView::Array(items)) => match read_output(v) {
                    Some(out) => out.len() == items.len() && forall|i: int|
                        0 <= i < items.len() ==> read_content(#[trigger] items[i]) == Some(out[i]),
                    None => exists|i: int|
                        0 <= i < items.len() && read_content(#[trigger] items[i]) is None,
                },
                Some(_) => read_output(v) is None,
            }
        }),
{
    let v = JsonView::Object(members);
    if let Some(JsonView::Array(items)) = v.get("content"@) {
        let read = |c: JsonView| read_content(c);
        lemma_read_all(items, read);
        if read_output(v) is None {
            let i = choose|i: int| 0 <= i < items.len() && read(#[trigger] items[i]) is None;
            assert(read_content(items[i]) is None);
        } else {
            let out = read_output(v).unwrap();
            assert forall|i: int| 0 <= i < items.len() implies read_content(#[trigger] items[i])
                == Some(out[i]) by {
                assert(read(items[i]) == Some(out[i]));
            }
        }
    }
}

/// A response is the text in its member `output_text` and all the items in its member
/// `output`, in order; it is refused where one of them is.
pub proof fn responses_hold_all_their_items(members: Seq<(Seq<char>, JsonView)>)
    ensures
        ({
            let v = JsonView::Object(members);
            match read_response(v) {
                Some(response) => {
                    &&& stands_for(v.get("output_text"@), response.output_text)
                    &&& match v.get("output"@) {
                        None => response.output.len() == 0,
                        Some(JsonView::Array(items)) => response.output.len() == items.len()
                            && forall|i: int|
                            0 <= i < items.len() ==> read_output(#[trigger] items[i]) == Some(
                                response.output[i],
                            ),
                        Some(_) => false,
                    }
                },
                None => {
                    ||| forall|text: Option<Seq<char>>| !stands_for(v.get("output_text"@), text)
                    ||| match v.get("output"@) {
                        None => false,
                        Some(JsonView::Array(items)) => exists|i: int|
                            0 <= i < items.len() && read_output(#[trigger] items[i]) is None,
                        Some(_) => true,
                    }
                },
            }
        }),
{
    let v = JsonView::Object(members);
    if let Some(JsonView::Array(items)) = v.get("output"@) {
        let read = |o: JsonView| read_output(o);
        lemma_read_all(items, read);
        match read_all(items, read) {
            None => {
                let i = choose|i: int| 0 <= i < items.len() && read(#[trigger] items[i]) is None;
                assert(read_output(items[i]) is None);
            },
            Some(out) => {
                assert forall|i: int| 0 <= i < items.len() implies read_output(#[trigger] items[i])
                    == Some(out[i]) by {
                    assert(read(items[i]) == Some(out[i]));
                }
            },
        }
    }
}

/// By place: a piece is its kind and its text, an item its list of pieces, and a
/// response its items and its text.
pub proof fn values_are_read_by_place(a: JsonView, b: JsonView, more: Seq<JsonView>)
    ensures
        ({
            let named = JsonView::Object(seq![("type"@, a), ("text"@, b)]);
            read_content(JsonView::Array(seq![a, b])) == read_content(named)
        }),
        read_output(JsonView::Array(seq![a])) == read_output(
            JsonView::Object(seq![("content"@, a)]),
        ),
        read_response(JsonView::Array(seq![a, b])) == read_response(
            JsonView::Object(seq![("output"@, a), ("output_text"@, b)]),
        ),
        more.len() != 2 ==> read_content(JsonView::Array(more)) is None,
        more.len() > 1 ==> read_output(JsonView::Array(more)) is None,
        more.len() > 2 ==> read_response(JsonView::Array(more)) is None,
{
    reveal_strlit("type");
    reveal_strlit("text");
    reveal_strlit("output");
    reveal_strlit("output_text");
    assert("type"@[1] != "text"@[1]);
    assert("output"@.len() != "output_text"@.len());
    pairs_are_found("type"@, a, "text"@, b, "type"@);
    pairs_are_found("output"@, a, "output_text"@, b, "output"@);
    members_are_found_by_name(seq![("content"@, a)], "content"@, 0);
}

/// Whether a piece has a text that is not blank.
pub open spec fn says_something(piece: ContentView) -> bool {
    piece.text matches Some(text) && !all_white(text)
}

proof fn lemma_first_text(pieces: Seq<ContentView>, marked: bool, i: int)
    requires
        0 <= i <= pieces.len(),
        forall|j: int|
            0 <= j < i ==> !(says_something(#[trigger] pieces[j]) && (marked ==> pieces[j].kind
                == Some("output_text"@))),
        i < pieces.len() ==> says_something(pieces[i]) && (marked ==> pieces[i].kind == Some(
            "output_text"@,
        )),
    ensures
        i < pieces.len() ==> first_text(pieces, marked) == Some(trimmed(pieces[i].text.unwrap())),
        i == pieces.len() ==> first_text(pieces, marked) is None,
    decreases pieces.len(),
{
    if pieces.len() > 0 {
        if let Some(text) = pieces[0].text {
            blank_is_all_white(text);
        }
        if i > 0 {
            let rest = pieces.drop_first();
            assert(!(says_something(pieces[0]) && (marked ==> pieces[0].kind == Some(
                "output_text"@,
            ))));
            assert forall|j: int| 0 <= j < i - 1 implies !(says_something(#[trigger] rest[j]) && (
            marked ==> rest[j].kind == Some("output_text"@))) by {
                assert(rest[j] == pieces[j + 1]);
            }
            lemma_first_text(rest, marked, i - 1);
        }
    }
}

/// A response's own text comes before its output's, unless it is blank.
pub proof fn the_own_text_comes_first(response: ResponseView, text: Seq<char>)
    requires
        response.output_text == Some(text),
        !all_white(text),
    ensures
        response_text(response) == Some(trimmed(text)),
{
    blank_is_all_white(text);
}

/// Where a response has no text of its own, the first piece of the kind
/// `output_text` that says something gives it, trimmed, wherever it stands.
pub proof fn output_text_comes_next(response: ResponseView, i: int)
    requires
        response.output_text matches Some(text) ==> all_white(text),
        0 <= i < response.output.flatten().len(),
        says_something(response.output.flatten()[i]),
        response.output.flatten()[i].kind == Some("output_text"@),
        forall|j: int|
            0 <= j < i ==> !(says_something(#[trigger] response.output.flatten()[j])
                && response.output.flatten()[j].kind == Some("output_text"@)),
    ensures
        response_text(response) == Some(trimmed(response.output.flatten()[i].text.unwrap())),
{
    if let Some(text) = response.output_text {
        blank_is_all_white(text);
    }
    lemma_first_text(response.output.flatten(), true, i);
}

/// Where no piece of that kind says anything, the first piece that says something
/// gives the text; and there is none where no piece does.
pub proof fn any_text_comes_last(response: ResponseView, i: int)
    requires
        response.output_text matches Some(text) ==> all_white(text),
        0 <= i <= response.output.flatten().len(),
        i < response.output.flatten().len() ==> says_something(response.output.flatten()[i]),
        forall|j: int| 0 <= j < i ==> !says_something(#[trigger] response.output.flatten()[j]),
        forall|j: int|
            0 <= j < response.output.flatten().len() ==> !(says_something(
                #[trigger] response.output.flatten()[j],
            ) && response.output.flatten()[j].kind == Some("output_text"@)),
    ensures
        i < response.output.flatten().len() ==> response_text(response) == Some(
            trimmed(response.output.flatten()[i].text.unwrap()),
        ),
        i == response.output.flatten().len() ==> response_text(response) is None,
{
    if let Some(text) = response.output_text {
        blank_is_all_white(text);
    }
    let pieces = response.output.flatten();
    lemma_first_text(pieces, true, pieces.len() as int);
    lemma_first_text(pieces, false, i);
}

} // verus!
