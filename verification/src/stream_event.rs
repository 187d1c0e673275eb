//! The events of a response stream, and what they make of the text so far.

use crate::json::{Json, JsonView};
use crate::text::{
    first_nonempty, nonblank, nonempty, nonempty_preserve, opt_str, opt_text, same_text,
};
use crate::wire::{
    decode_output, decode_response, extract_text, outputs, read_output, read_response,
    response_text, ContentView, ResponseView, ResponsesOutput,
};
use vstd::prelude::*;
use vstd::string::*;

verus! {

/// What a stream has yielded so far.
#[derive(Debug)]
pub struct CodexStreamState {
    /// Whether a piece of text has come.
    pub saw_delta: bool,
    /// The pieces of text, one behind the other.
    pub delta_accumulator: String,
    /// The text to fall back on where no piece of text comes.
    pub fallback_text: Option<String>,
    /// The output items that have been completed.
    pub accumulated_output: Vec<ResponsesOutput>,
}

/// The model of [`CodexStreamState`].
pub struct StreamStateView {
    pub saw_delta: bool,
    pub text: Seq<char>,
    pub fallback: Option<Seq<char>>,
    pub output: Seq<Seq<ContentView>>,
}

impl View for CodexStreamState {
    type V = StreamStateView;

    open spec fn view(&self) -> StreamStateView {
        StreamStateView {
            saw_delta: self.saw_delta,
            text: self.delta_accumulator@,
            fallback: opt_text(self.fallback_text),
            output: outputs(self.accumulated_output@),
        }
    }
}

/// The state in which a stream begins.
pub open spec fn fresh_state() -> StreamStateView {
    StreamStateView {
        saw_delta: false,
        text: Seq::empty(),
        fallback: None,
        output: Seq::empty(),
    }
}

impl Default for CodexStreamState {
    /// The state in which a stream begins.
    fn default() -> (r: Self)
        ensures
            r@ == fresh_state(),
    {
        let r = CodexStreamState {
            saw_delta: false,
            delta_accumulator: String::new(),
            fallback_text: None,
            accumulated_output: Vec::new(),
        };
        assert(r@.output =~= Seq::<Seq<ContentView>>::empty());
        r
    }
}

/// An error that the stream itself reported.
#[derive(Debug)]
pub struct StreamFault {
    pub message: String,
}

/// What a user reads of an error that the stream reported.
pub open spec fn stream_fault_message(message: Seq<char>) -> Seq<char> {
    "OpenAI Codex stream error: "@ + message
}

impl StreamFault {
    /// What a user reads of the error.
    pub fn message(&self) -> (r: String)
        ensures
            r@ == stream_fault_message(self.message@),
    {
        "OpenAI Codex stream error: ".to_owned().concat(self.message.as_str())
    }
}

/// The type of an event.
pub open spec fn event_type(event: JsonView) -> Option<Seq<char>> {
    event.text_at("type"@)
}

/// The member called `b` of the member called `a`.
pub open spec fn get_path(v: JsonView, a: Seq<char>, b: Seq<char>) -> Option<JsonView> {
    match v.get(a) {
        Some(inner) => inner.get(b),
        None => None,
    }
}

/// The text at `a`, `b`.
pub open spec fn text_at_path(v: JsonView, a: Seq<char>, b: Seq<char>) -> Option<Seq<char>> {
    match get_path(v, a, b) {
        Some(t) => t.as_text(),
        None => None,
    }
}

/// What an `error` event says went wrong: its message, else its code, else the
/// message of its error.
pub open spec fn error_text(event: JsonView) -> Option<Seq<char>> {
    if event.text_at("message"@) is Some {
        event.text_at("message"@)
    } else if event.text_at("code"@) is Some {
        event.text_at("code"@)
    } else {
        text_at_path(event, "error"@, "message"@)
    }
}

/// The error that an event reports, if it is one that does and names it.
pub open spec fn reported_error(event: JsonView) -> Option<Seq<char>> {
    if event_type(event) == Some("error"@) {
        nonblank(error_text(event))
    } else if event_type(event) == Some("response.failed"@) {
        nonblank(
            match event.get("response"@) {
                Some(response) => text_at_path(response, "error"@, "message"@),
                None => None,
            },
        )
    } else {
        None
    }
}

/// The text that an event carries: a piece, or, while no piece has come, the
/// whole.
pub open spec fn event_text(event: JsonView, saw_delta: bool) -> Option<Seq<char>> {
    if event_type(event) == Some("response.output_text.delta"@) {
        nonempty(event.text_at("delta"@))
    } else if event_type(event) == Some("response.output_text.done"@) && !saw_delta {
        nonempty(event.text_at("text"@))
    } else {
        None
    }
}

/// The response that a closing event carries, with the completed output items
/// where it lists none.
pub open spec fn closing_response(event: JsonView, output: Seq<Seq<ContentView>>) -> Option<
    ResponseView,
> {
    if event_type(event) == Some("response.completed"@) || event_type(event) == Some(
        "response.done"@,
    ) {
        match event.get("response"@) {
            Some(v) => match read_response(v) {
                Some(response) => if response.output.len() == 0 {
                    Some(ResponseView { output, ..response })
                } else {
                    Some(response)
                },
                None => None,
            },
            None => None,
        }
    } else {
        None
    }
}

/// `first`, or `second` where there is none.
pub open spec fn or_else(first: Option<Seq<char>>, second: Option<Seq<char>>) -> Option<Seq<char>> {
    if first is Some {
        first
    } else {
        second
    }
}

/// What an event makes of the state, where it reports no error.
pub open spec fn advanced(state: StreamStateView, event: JsonView) -> StreamStateView {
    if event_type(event) == Some("response.output_item.done"@) {
        match event.get("item"@) {
            Some(v) => match read_output(v) {
                Some(item) => StreamStateView { output: state.output.push(item), ..state },
                None => state,
            },
            None => state,
        }
    } else if event_type(event) == Some("response.output_text.delta"@) {
        match event_text(event, state.saw_delta) {
            Some(t) => StreamStateView { saw_delta: true, text: state.text + t, ..state },
            None => state,
        }
    } else {
        let closing = match closing_response(event, state.output) {
            Some(response) => response_text(response),
            None => None,
        };
        let fallback = or_else(state.fallback, closing);
        StreamStateView {
            fallback: or_else(fallback, event_text(event, state.saw_delta)),
            ..state
        }
    }
}

/// The piece of text that an event adds, where it reports no error.
pub open spec fn added_text(event: JsonView) -> Option<Seq<char>> {
    if event_type(event) == Some("response.output_text.delta"@) {
        nonempty(event.text_at("delta"@))
    } else {
        None
    }
}

/// The member called `b` of the member called `a`, if it is there and a text.
fn str_at_path<'a>(v: &'a Json, a: &str, b: &str) -> (r: Option<&'a str>)
    ensures
        opt_str(r) == text_at_path(v@, a@, b@),
{
    match v.get(a) {
        Some(inner) => inner.str_at(b),
        None => None,
    }
}

/// Whether an event is of the type `name`.
fn is_type(event: &Json, name: &str) -> (r: bool)
    ensures
        r == (event_type(event@) == Some(name@)),
{
    match event.str_at("type") {
        Some(t) => same_text(t, name),
        None => false,
    }
}

/// The error that an event reports, if it is one that does and names it.
pub fn extract_stream_error_message(event: &Json) -> (r: Option<String>)
    ensures
        opt_text(r) == reported_error(event@),
{
    if is_type(event, "error") {
        let mut text = event.str_at("message");
        if text.is_none() {
            text = event.str_at("code");
        }
        if text.is_none() {
            text = str_at_path(event, "error", "message");
        }
        return first_nonempty(text);
    }
    if is_type(event, "response.failed") {
        return first_nonempty(
            match event.get("response") {
                Some(response) => str_at_path(response, "error", "message"),
                None => None,
            },
        );
    }
    None
}

/// The text that an event carries: a piece, or, while no piece has come, the
/// whole.
pub fn extract_stream_event_text(event: &Json, saw_delta: bool) -> (r: Option<String>)
    ensures
        opt_text(r) == event_text(event@, saw_delta),
{
    if is_type(event, "response.output_text.delta") {
        nonempty_preserve(event.str_at("delta"))
    } else if is_type(event, "response.output_text.done") && !saw_delta {
        nonempty_preserve(event.str_at("text"))
    } else {
        None
    }
}

proof fn lemma_item_is_no_delta()
    ensures
        "response.output_item.done"@ != "response.output_text.delta"@,
{
    reveal_strlit("response.output_item.done");
    reveal_strlit("response.output_text.delta");
    assert("response.output_item.done"@.len() != "response.output_text.delta"@.len());
}

/// The text that a closing event's response holds.
fn closing_text(event: &Json, output: &Vec<ResponsesOutput>) -> (r: Option<String>)
    ensures
        opt_text(r) == (match closing_response(event@, outputs(output@)) {
            Some(response) => response_text(response),
            None => None,
        }),
{
    if !is_type(event, "response.completed") && !is_type(event, "response.done") {
        return None;
    }
    match event.get("response") {
        Some(v) => match decode_response(v) {
            Some(response) => {
                let summary = match &response.output_text {
                    Some(t) => Some(t.as_str()),
                    None => None,
                };
                if response.output.is_empty() {
                    extract_text(summary, output)
                } else {
                    extract_text(summary, &response.output)
                }
            },
            None => None,
        },
        None => None,
    }
}

/// Takes one event into the state.
///
/// An event that reports an error changes nothing. Otherwise the piece of text
/// that the event adds, if any, is returned, for whoever follows the stream.
pub fn process_stream_event(event: &Json, state: &mut CodexStreamState) -> (r: Result<
    Option<String>,
    StreamFault,
>)
    ensures
        reported_error(event@) matches Some(m) ==> {
            &&& r matches Err(fault)
            &&& fault.message@ == m
            &&& final(state)@ == old(state)@
        },
        reported_error(event@) is None ==> {
            &&& r matches Ok(piece)
            &&& opt_text(piece) == added_text(event@)
            &&& final(state)@ == advanced(old(state)@, event@)
        },
{
    if let Some(message) = extract_stream_error_message(event) {
        return Err(StreamFault { message });
    }
    if is_type(event, "response.output_item.done") {
        proof {
            lemma_item_is_no_delta();
        }
        if let Some(v) = event.get("item") {
            if let Some(item) = decode_output(v) {
                let ghost before = outputs(state.accumulated_output@);
                state.accumulated_output.push(item);
                assert(outputs(state.accumulated_output@) =~= before.push(item@));
            }
        }
        return Ok(None);
    }
    let text = extract_stream_event_text(event, state.saw_delta);
    if is_type(event, "response.output_text.delta") {
        if let Some(piece) = &text {
            state.saw_delta = true;
            state.delta_accumulator.append(piece.as_str());
        }
        return Ok(text);
    }
    let closing = closing_text(event, &state.accumulated_output);
    if state.fallback_text.is_none() {
        state.fallback_text = closing;
    }
    if state.fallback_text.is_none() {
        state.fallback_text = text;
    }
    Ok(None)
}

/// Takes one event into the state, for a reader who only wants the state.
pub fn process_stream_event_sync(event: &Json, state: &mut CodexStreamState) -> (r: Result<
    (),
    StreamFault,
>)
    ensures
        reported_error(event@) matches Some(m) ==> {
            &&& r matches Err(fault)
            &&& fault.message@ == m
            &&& final(state)@ == old(state)@
        },
        reported_error(event@) is None ==> {
            &&& r is Ok
            &&& final(state)@ == advanced(old(state)@, event@)
        },
{
    match process_stream_event(event, state) {
        Ok(_) => Ok(()),
        Err(fault) => Err(fault),
    }
}

/// What a sequence of events makes of a state.
pub struct Run {
    pub state: StreamStateView,
    /// The pieces of text that the events added, in order.
    pub pieces: Seq<Seq<char>>,
    /// The error that ended the run, if one did.
    pub error: Option<Seq<char>>,
}

/// Takes events into the state until one reports an error.
pub open spec fn run(state: StreamStateView, events: Seq<JsonView>) -> Run
    decreases events.len(),
{
    if events.len() == 0 {
        Run { state, pieces: Seq::empty(), error: None }
    } else if reported_error(events[0]) is Some {
        Run { state, pieces: Seq::empty(), error: reported_error(events[0]) }
    } else {
        let later = run(advanced(state, events[0]), events.drop_first());
        match added_text(events[0]) {
            Some(t) => Run { pieces: seq![t] + later.pieces, ..later },
            None => later,
        }
    }
}

/// Runs do not depend on how the events are grouped: unless the first group
/// ends in an error, the second goes on where it stopped.
pub proof fn runs_compose(state: StreamStateView, a: Seq<JsonView>, b: Seq<JsonView>)
    ensures
        run(state, a).error is Some ==> run(state, a + b) == run(state, a),
        run(state, a).error is None ==> run(state, a + b) == (Run {
            pieces: run(state, a).pieces + run(run(state, a).state, b).pieces,
            ..run(run(state, a).state, b)
        }),
    decreases a.len(),
{
    if a.len() == 0 {
        assert(a + b =~= b);
        assert(Seq::<Seq<char>>::empty() + run(state, b).pieces =~= run(state, b).pieces);
    } else {
        assert((a + b).drop_first() =~= a.drop_first() + b);
        if reported_error(a[0]) is None {
            let next = advanced(state, a[0]);
            runs_compose(next, a.drop_first(), b);
            if let Some(t) = added_text(a[0]) {
                let p = run(next, a.drop_first()).pieces;
                let q = run(run(next, a.drop_first()).state, b).pieces;
                assert(seq![t] + (p + q) =~= (seq![t] + p) + q);
            }
        }
    }
}

/// What every run keeps: the text grows by the pieces, in order; text has come
/// exactly when a piece has; a text to fall back on stays once it is there; and
/// completed output items stay in their places.
pub proof fn runs_only_add(state: StreamStateView, events: Seq<JsonView>)
    ensures
        ({
            let after = run(state, events);
            &&& after.state.text == state.text + after.pieces.flatten()
            &&& after.state.saw_delta <==> state.saw_delta || after.pieces.len() > 0
            &&& forall|i: int| 0 <= i < after.pieces.len() ==> (#[trigger] after.pieces[i]).len() > 0
            &&& state.fallback is Some ==> after.state.fallback == state.fallback
            &&& state.output.len() <= after.state.output.len()
            &&& after.state.output.take(state.output.len() as int) == state.output
        }),
    decreases events.len(),
{
    if events.len() == 0 || reported_error(events[0]) is Some {
        assert(state.text + Seq::<Seq<char>>::empty().flatten() =~= state.text);
        assert(state.output.take(state.output.len() as int) =~= state.output);
    } else {
        lemma_item_is_no_delta();
        let next = advanced(state, events[0]);
        let later = run(next, events.drop_first());
        runs_only_add(next, events.drop_first());
        match added_text(events[0]) {
            Some(t) => {
                let pieces = seq![t] + later.pieces;
                assert(pieces.drop_first() =~= later.pieces);
                assert(state.text + pieces.flatten() =~= (state.text + t)
                    + later.pieces.flatten());
            },
            None => {},
        }
        assert(next.output.take(state.output.len() as int) =~= state.output);
        assert(later.state.output.take(state.output.len() as int) =~= later.state.output.take(
            next.output.len() as int,
        ).take(state.output.len() as int));
    }
}

} // verus!
