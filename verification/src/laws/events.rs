//! What the events of a stream do.

use crate::json::JsonView;
use crate::laws::text::all_white;
use crate::laws::values::pairs_are_found;
use crate::sse::amounts_to;
use crate::stream_event::{
    added_text, advanced, event_text, fresh_state, reported_error, run, StreamStateView,
};
use crate::text::{blank_is_all_white, trimmed};
use crate::wire::{read_output, read_response, response_text, ContentView, ResponseView};
use vstd::prelude::*;

verus! {

/// Whether an event is of a type.
pub open spec fn is_of_type(event: JsonView, name: Seq<char>) -> bool {
    event.get("type"@) == Some(JsonView::Text(name))
}

proof fn lemma_types_differ()
    ensures
        "response.output_text.delta"@ != "response.output_text.done"@,
        "response.output_text.delta"@ != "response.output_item.done"@,
        "response.output_text.delta"@ != "response.completed"@,
        "response.output_text.delta"@ != "response.done"@,
        "response.output_text.delta"@ != "response.failed"@,
        "response.output_text.delta"@ != "error"@,
        "response.output_text.done"@ != "response.output_item.done"@,
        "response.output_text.done"@ != "response.completed"@,
        "response.output_text.done"@ != "response.done"@,
        "response.output_text.done"@ != "response.failed"@,
        "response.output_text.done"@ != "error"@,
        "response.output_item.done"@ != "response.completed"@,
        "response.output_item.done"@ != "response.done"@,
        "response.output_item.done"@ != "response.failed"@,
        "response.output_item.done"@ != "error"@,
        "response.completed"@ != "response.done"@,
        "response.completed"@ != "response.failed"@,
        "response.completed"@ != "error"@,
        "response.done"@ != "response.failed"@,
        "response.done"@ != "error"@,
        "response.failed"@ != "error"@,
{
    reveal_strlit("response.output_text.delta");
    reveal_strlit("response.output_text.done");
    reveal_strlit("response.output_item.done");
    reveal_strlit("response.completed");
    reveal_strlit("response.done");
    reveal_strlit("response.failed");
    reveal_strlit("error");
    assert("response.output_text.done"@[16] == 't' && "response.output_item.done"@[16] == 'i');
    assert("response.output_text.delta"@.len() == 26);
    assert("response.output_text.done"@.len() == 25 && "response.output_item.done"@.len() == 25);
    assert("response.completed"@.len() == 18 && "response.done"@.len() == 13);
    assert("response.failed"@.len() == 15 && "error"@.len() == 5);
}

proof fn lemma_members_differ()
    ensures
        "type"@ != "delta"@,
        "type"@ != "text"@,
        "type"@ != "item"@,
        "type"@ != "response"@,
        "type"@ != "message"@,
{
    reveal_strlit("type");
    reveal_strlit("delta");
    reveal_strlit("text");
    reveal_strlit("item");
    reveal_strlit("response");
    reveal_strlit("message");
    assert("type"@.len() == 4 && "delta"@.len() == 5 && "response"@.len() == 8);
    assert("type"@[0] == 't' && "type"@[1] == 'y' && "text"@[1] == 'e' && "item"@[0] == 'i');
    assert("message"@.len() == 7);
}

/// A delta is added and told exactly as it stands, character for character, and
/// changes nothing else; an empty one does nothing.
pub proof fn deltas_are_kept_as_they_stand(
    state: StreamStateView,
    event: JsonView,
    t: Seq<char>,
    saw_delta: bool,
)
    requires
        is_of_type(event, "response.output_text.delta"@),
        event.get("delta"@) == Some(JsonView::Text(t)),
    ensures
        reported_error(event) is None,
        t.len() > 0 ==> {
            &&& event_text(event, saw_delta) == Some(t)
            &&& added_text(event) == Some(t)
            &&& advanced(state, event) == (StreamStateView {
                saw_delta: true,
                text: state.text + t,
                ..state
            })
        },
        t.len() == 0 ==> {
            &&& event_text(event, saw_delta) is None
            &&& added_text(event) is None
            &&& advanced(state, event) == state
        },
{
    lemma_types_differ();
}

/// The event that is written as its type and its delta is such a delta, whichever of
/// the two stands first: it adds its text as it stands.
pub proof fn a_written_delta_adds_its_text(state: StreamStateView, t: Seq<char>)
    requires
        t.len() > 0,
    ensures
        ({
            let kind = ("type"@, JsonView::Text("response.output_text.delta"@));
            let delta = ("delta"@, JsonView::Text(t));
            forall|event: JsonView|
                event == JsonView::Object(seq![kind, delta]) || event == JsonView::Object(
                    seq![delta, kind],
                ) ==> {
                    &&& #[trigger] added_text(event) == Some(t)
                    &&& run(state, seq![event]).pieces == seq![t]
                    &&& run(state, seq![event]).error is None
                    &&& run(state, seq![event]).state.text == state.text + t
                    &&& run(state, seq![event]).state.saw_delta
                }
        }),
{
    lemma_members_differ();
    let kind = JsonView::Text("response.output_text.delta"@);
    let delta = JsonView::Text(t);
    let first = JsonView::Object(seq![("type"@, kind), ("delta"@, delta)]);
    let second = JsonView::Object(seq![("delta"@, delta), ("type"@, kind)]);
    pairs_are_found("type"@, kind, "delta"@, delta, "type"@);
    pairs_are_found("delta"@, delta, "type"@, kind, "type"@);
    deltas_are_kept_as_they_stand(state, first, t, state.saw_delta);
    deltas_are_kept_as_they_stand(state, second, t, state.saw_delta);
    single_events_run(state, first);
    single_events_run(state, second);
}

/// A run of one event is what that event does: it ends at once where the event
/// reports an error, and goes on from the new state where it does not.
pub proof fn single_events_run(state: StreamStateView, event: JsonView)
    ensures
        run(state, Seq::empty()).state == state,
        run(state, Seq::empty()).pieces.len() == 0,
        run(state, Seq::empty()).error is None,
        reported_error(event) matches Some(message) ==> {
            &&& run(state, seq![event]).state == state
            &&& run(state, seq![event]).pieces.len() == 0
            &&& run(state, seq![event]).error == Some(message)
        },
        reported_error(event) is None ==> {
            &&& run(state, seq![event]).state == advanced(state, event)
            &&& run(state, seq![event]).error is None
            &&& match added_text(event) {
                Some(t) => run(state, seq![event]).pieces == seq![t],
                None => run(state, seq![event]).pieces.len() == 0,
            }
        },
{
    assert(seq![event].drop_first() =~= Seq::<JsonView>::empty());
    reveal_with_fuel(run, 2);
    if let Some(t) = added_text(event) {
        assert(seq![t] + Seq::<Seq<char>>::empty() =~= seq![t]);
    }
}

/// The finished text is what to fall back on, as it stands, where nothing else is and
/// no delta has come; it adds no piece.
pub proof fn finished_texts_are_a_fallback(state: StreamStateView, event: JsonView, t: Seq<char>)
    requires
        is_of_type(event, "response.output_text.done"@),
        event.get("text"@) == Some(JsonView::Text(t)),
    ensures
        reported_error(event) is None,
        added_text(event) is None,
        t.len() > 0 ==> event_text(event, false) == Some(t),
        t.len() == 0 ==> event_text(event, false) is None && advanced(state, event) == state,
        event_text(event, true) is None,
        t.len() > 0 && !state.saw_delta && state.fallback is None ==> advanced(state, event) == (StreamStateView {
            fallback: Some(t),
            ..state
        }),
        state.saw_delta || state.fallback is Some ==> advanced(state, event) == state,
{
    lemma_types_differ();
}

/// A completed item is put behind those before it, where it can be read, and nothing
/// else changes.
pub proof fn completed_items_are_put_behind(
    state: StreamStateView,
    event: JsonView,
    value: JsonView,
)
    requires
        is_of_type(event, "response.output_item.done"@),
        event.get("item"@) == Some(value),
    ensures
        reported_error(event) is None,
        added_text(event) is None,
        read_output(value) matches Some(item) ==> advanced(state, event) == (StreamStateView {
            output: state.output.push(item),
            ..state
        }),
        read_output(value) is None ==> advanced(state, event) == state,
{
    lemma_types_differ();
}

/// Where a completed response lists output of its own, what to fall back on is its
/// text with that output, whatever items were completed before; only where it lists
/// none do those take its place. What there was to fall back on before stays.
pub proof fn completed_responses_are_a_fallback(
    state: StreamStateView,
    event: JsonView,
    value: JsonView,
    response: ResponseView,
)
    requires
        is_of_type(event, "response.completed"@) || is_of_type(event, "response.done"@),
        event.get("response"@) == Some(value),
        read_response(value) == Some(response),
    ensures
        reported_error(event) is None,
        added_text(event) is None,
        state.fallback is Some ==> advanced(state, event) == state,
        state.fallback is None && response.output.len() > 0 ==> advanced(state, event) == (
        StreamStateView { fallback: response_text(response), ..state }),
        state.fallback is None && response.output.len() == 0 ==> advanced(state, event) == (
        StreamStateView {
            fallback: response_text(
                ResponseView { output: state.output, output_text: response.output_text },
            ),
            ..state
        }),
{
    lemma_types_differ();
}

/// A completed response with output of its own leaves the same to fall back on,
/// whatever items were completed before.
pub proof fn own_output_beats_completed_items(
    state: StreamStateView,
    other: Seq<Seq<ContentView>>,
    event: JsonView,
    value: JsonView,
)
    requires
        is_of_type(event, "response.completed"@) || is_of_type(event, "response.done"@),
        event.get("response"@) == Some(value),
        read_response(value) matches Some(response) && response.output.len() > 0,
    ensures
        advanced(state, event).fallback == advanced(
            StreamStateView { output: other, ..state },
            event,
        ).fallback,
        !state.saw_delta && state.fallback is None ==> amounts_to(advanced(state, event))
            == response_text(read_response(value).unwrap()),
{
    lemma_types_differ();
}

/// An error is reported by its message, trimmed; a blank message, or none, reports
/// nothing. Without a message the code stands for it, and without a code the message
/// of the member `error`.
pub proof fn errors_are_reported_by_message(event: JsonView, m: Seq<char>, inner: JsonView)
    requires
        is_of_type(event, "error"@),
    ensures
        event.get("message"@) == Some(JsonView::Text(m)) ==> reported_error(event) == (if all_white(
            m,
        ) {
            None
        } else {
            Some(trimmed(m))
        }),
        !(event.get("message"@) matches Some(JsonView::Text(_))) && event.get("code"@) == Some(
            JsonView::Text(m),
        ) ==> reported_error(event) == (if all_white(m) {
            None
        } else {
            Some(trimmed(m))
        }),
        !(event.get("message"@) matches Some(JsonView::Text(_))) && !(event.get("code"@) matches Some(
            JsonView::Text(_),
        )) && event.get("error"@) == Some(inner) && inner.get("message"@) == Some(JsonView::Text(m))
            ==> reported_error(event) == (if all_white(m) {
            None
        } else {
            Some(trimmed(m))
        }),
{
    blank_is_all_white(m);
}

/// Where an event that tells of an error names none, it reports none; and whatever it
/// names, it changes nothing and carries no text.
pub proof fn error_events_change_nothing(state: StreamStateView, event: JsonView, saw_delta: bool)
    requires
        is_of_type(event, "error"@) || is_of_type(event, "response.failed"@),
    ensures
        advanced(state, event) == state,
        added_text(event) is None,
        event_text(event, saw_delta) is None,
        is_of_type(event, "error"@) && !(event.get("message"@) matches Some(JsonView::Text(_))) && !(
        event.get("code"@) matches Some(JsonView::Text(_))) && (event.get("error"@) matches Some(
            inner,
        ) ==> !(inner.get("message"@) matches Some(JsonView::Text(_)))) ==> reported_error(event)
            is None,
        is_of_type(event, "response.failed"@) && (event.get("response"@) matches Some(response)
            ==> (response.get("error"@) matches Some(error) ==> !(error.get(
            "message"@,
        ) matches Some(JsonView::Text(_))))) ==> reported_error(event) is None,
{
    lemma_types_differ();
}

/// A failed response reports the message of its error, trimmed, unless it is blank.
pub proof fn failed_responses_are_reported(
    event: JsonView,
    response: JsonView,
    error: JsonView,
    m: Seq<char>,
)
    requires
        is_of_type(event, "response.failed"@),
        event.get("response"@) == Some(response),
        response.get("error"@) == Some(error),
        error.get("message"@) == Some(JsonView::Text(m)),
    ensures
        reported_error(event) == (if all_white(m) {
            None
        } else {
            Some(trimmed(m))
        }),
{
    lemma_types_differ();
    blank_is_all_white(m);
}

/// An event of any other type, or of none, does nothing at all.
pub proof fn other_events_do_nothing(state: StreamStateView, event: JsonView, saw_delta: bool)
    requires
        !is_of_type(event, "response.output_text.delta"@),
        !is_of_type(event, "response.output_text.done"@),
        !is_of_type(event, "response.output_item.done"@),
        !is_of_type(event, "response.completed"@),
        !is_of_type(event, "response.done"@),
        !is_of_type(event, "response.failed"@),
        !is_of_type(event, "error"@),
    ensures
        reported_error(event) is None,
        added_text(event) is None,
        event_text(event, saw_delta) is None,
        advanced(state, event) == state,
{
}

/// An event that does not hold what its type says does nothing: a delta or a finished
/// text without its text, an item or a response that is not there or cannot be read.
pub proof fn hollow_events_do_nothing(state: StreamStateView, event: JsonView)
    requires
        ({
            ||| is_of_type(event, "response.output_text.delta"@) && !(event.get(
                "delta"@,
            ) matches Some(JsonView::Text(_)))
            ||| is_of_type(event, "response.output_text.done"@) && !(event.get("text"@) matches Some(
                JsonView::Text(_),
            ))
            ||| is_of_type(event, "response.output_item.done"@) && event.get("item"@) is None
            ||| (is_of_type(event, "response.completed"@) || is_of_type(event, "response.done"@)) && (
            event.get("response"@) matches Some(value) ==> read_response(value) is None)
        }),
    ensures
        reported_error(event) is None,
        added_text(event) is None,
        event_text(event, state.saw_delta) is None,
        advanced(state, event) == state,
{
    lemma_types_differ();
}

/// A stream begins with nothing, and amounts to its pieces where any has come, and to
/// what there is to fall back on where none has.
pub proof fn streams_amount_to_their_text(state: StreamStateView)
    ensures
        !fresh_state().saw_delta,
        fresh_state().text.len() == 0,
        fresh_state().fallback is None,
        fresh_state().output.len() == 0,
        state.saw_delta && state.text.len() > 0 ==> amounts_to(state) == Some(state.text),
        state.saw_delta && state.text.len() == 0 ==> amounts_to(state) is None,
        !state.saw_delta ==> amounts_to(state) == state.fallback,
{
}

} // verus!
