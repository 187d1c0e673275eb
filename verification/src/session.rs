//! Following a response stream as it arrives.
//!
//! A session takes the bytes of a response one chunk at a time and says what
//! whoever follows it is to be told. Once text has been told, a stream that
//! breaks is over like one that ends: only a stream that has told nothing fails.

use crate::sse::{
    amounts_to, arrival_fits, chunk_events, complete_events, does_arrival_fit,
    does_last_chunk_fit, first_separator, first_separator_is_first,
    framing_is_arrival_independent, last_chunk_fits, leftover, process_sse_buffer, process_sse_chunk, text_events,
    untaken, untaken_is_leftover,
};
use crate::stream_event::{
    fresh_state, run, runs_compose, runs_only_add, stream_fault_message, CodexStreamState, Run,
    StreamStateView,
};
use crate::text::{is_blank, opt_str, texts, trimmed};
use crate::utf8_stream::{
    append_utf8_stream_chunk, decoded, decoding_is_chunk_independent, decoding_is_complete,
    expect_whole, incomplete, utf8_error_text, Utf8FaultView,
};
use vstd::prelude::*;
use vstd::string::*;
use vstd::utf8::*;

verus! {

/// Something that whoever follows a stream is told.
#[derive(Debug)]
pub enum Emission {
    /// More text.
    Delta(String),
    /// The stream failed, and nothing follows.
    Failed(String),
    /// The stream is over, and nothing follows.
    Final,
}

/// The model of [`Emission`].
pub enum EmissionView {
    Delta(Seq<char>),
    Failed(Seq<char>),
    Final,
}

impl View for Emission {
    type V = EmissionView;

    open spec fn view(&self) -> EmissionView {
        match self {
            Emission::Delta(text) => EmissionView::Delta(text@),
            Emission::Failed(message) => EmissionView::Failed(message@),
            Emission::Final => EmissionView::Final,
        }
    }
}

/// What a list of emissions holds.
pub open spec fn emissions(v: Seq<Emission>) -> Seq<EmissionView> {
    v.map_values(|e: Emission| e@)
}

/// What a chunk of bytes leads to.
#[derive(Debug)]
pub struct Step {
    pub emissions: Vec<Emission>,
    /// Whether nothing more is to be read.
    pub over: bool,
}

/// A stream that is being followed.
#[derive(Debug)]
pub struct StreamSession {
    pub state: CodexStreamState,
    /// The text that no event has been read from yet.
    pub buffer: String,
    /// The bytes of a character that has not arrived whole.
    pub pending: Vec<u8>,
}

/// The model of [`StreamSession`].
pub struct SessionView {
    pub state: StreamStateView,
    pub buffer: Seq<char>,
    pub pending: Seq<u8>,
}

impl View for StreamSession {
    type V = SessionView;

    open spec fn view(&self) -> SessionView {
        SessionView { state: self.state@, buffer: self.buffer@, pending: self.pending@ }
    }
}

impl SessionView {
    /// What holds of a session that goes on: only a cut character waits for
    /// bytes, and only a cut chunk for text.
    pub open spec fn wf(self) -> bool {
        &&& self.pending.len() == 0 || incomplete(self.pending)
        &&& first_separator(self.buffer) is None
    }
}

impl SessionView {
    /// Whether a chunk of bytes completes no event that is too long to be read.
    pub open spec fn takes(self, bytes: Seq<u8>) -> bool {
        arrival_fits(self.buffer, self.pending, bytes)
    }

    /// Whether what is left at the end is no event that is too long to be read.
    pub open spec fn can_end(self) -> bool {
        self.pending.len() == 0 ==> last_chunk_fits(self.buffer)
    }
}

/// The session of which nothing has arrived.
pub open spec fn fresh_session() -> SessionView {
    SessionView { state: fresh_state(), buffer: Seq::empty(), pending: Seq::empty() }
}

/// What is told of pieces of text.
pub open spec fn deltas(pieces: Seq<Seq<char>>) -> Seq<EmissionView> {
    pieces.map_values(|piece: Seq<char>| EmissionView::Delta(piece))
}

/// What is told of a stream that breaks: an end, where text has been told, and
/// else the failure.
pub open spec fn broken_off(told_text: bool, message: Seq<char>) -> EmissionView {
    if told_text {
        EmissionView::Final
    } else {
        EmissionView::Failed(message)
    }
}

/// What is told at the end of a stream: the text to fall back on, where no other
/// has been told, and the end.
pub open spec fn closing(state: StreamStateView) -> Seq<EmissionView> {
    match state.fallback {
        Some(text) => if state.saw_delta {
            seq![EmissionView::Final]
        } else {
            seq![EmissionView::Delta(text), EmissionView::Final]
        },
        None => seq![EmissionView::Final],
    }
}

/// What is told of a run of events: the text they add, and how the run broke off.
pub open spec fn told_so_far(after: Run) -> Seq<EmissionView> {
    match after.error {
        Some(message) => deltas(after.pieces).push(
            broken_off(after.state.saw_delta, stream_fault_message(message)),
        ),
        None => deltas(after.pieces),
    }
}

/// What is told of a run of events behind which the stream ends.
pub open spec fn told(after: Run) -> Seq<EmissionView> {
    if after.error is Some {
        told_so_far(after)
    } else {
        deltas(after.pieces) + closing(after.state)
    }
}

/// What a chunk of bytes leads to.
pub struct Reaction {
    pub next: SessionView,
    pub out: Seq<EmissionView>,
    pub over: bool,
}

/// What a chunk of bytes leads to: the events that it completes are taken in.
pub open spec fn after_bytes(s: SessionView, bytes: Seq<u8>) -> Reaction {
    let d = decoded(s.pending + bytes);
    let all = s.buffer + d.text;
    if d.broken {
        let fault = Utf8FaultView::Invalid(utf8_error_text(s.pending + bytes));
        Reaction {
            next: SessionView { state: s.state, buffer: all, pending: d.rest },
            out: seq![broken_off(s.state.saw_delta, fault.message())],
            over: true,
        }
    } else {
        let after = run(s.state, complete_events(all));
        Reaction {
            next: SessionView {
                state: after.state,
                buffer: untaken(all, s.state),
                pending: d.rest,
            },
            out: told_so_far(after),
            over: after.error is Some,
        }
    }
}

/// How the bytes of a response come to an end.
pub enum Ending {
    /// All of them have arrived.
    Complete,
    /// Reading them failed.
    ReadError(Seq<char>),
}

/// What a user reads of a failure to read the response.
pub open spec fn read_error_message(error: Seq<char>) -> Seq<char> {
    "error reading OpenAI Codex response stream: "@ + error
}

/// What is told when no more bytes come.
pub open spec fn after_ending(s: SessionView, ending: Ending) -> Seq<EmissionView> {
    match ending {
        Ending::ReadError(error) => seq![broken_off(s.state.saw_delta, read_error_message(error))],
        Ending::Complete => if s.pending.len() > 0 {
            let fault = Utf8FaultView::Incomplete(utf8_error_text(s.pending));
            seq![broken_off(s.state.saw_delta, fault.message())]
        } else if trimmed(s.buffer).len() == 0 {
            closing(s.state)
        } else {
            told(run(s.state, chunk_events(s.buffer)))
        },
    }
}

/// All that is told of a stream from some point on.
pub open spec fn session(s: SessionView, chunks: Seq<Seq<u8>>, ending: Ending) -> Seq<EmissionView>
    decreases chunks.len(),
{
    if chunks.len() == 0 {
        after_ending(s, ending)
    } else {
        let r = after_bytes(s, chunks[0]);
        if r.over {
            r.out
        } else {
            r.out + session(r.next, chunks.drop_first(), ending)
        }
    }
}

fn emit_deltas(pieces: Vec<String>) -> (r: Vec<Emission>)
    ensures
        emissions(r@) == deltas(texts(pieces@)),
{
    let mut out: Vec<Emission> = Vec::new();
    let mut i: usize = 0;
    while i < pieces.len()
        invariant
            i <= pieces@.len(),
            out@.len() == i,
            forall|k: int| 0 <= k < i ==> (#[trigger] out@[k])@ == EmissionView::Delta(pieces@[k]@),
        decreases pieces@.len() - i,
    {
        out.push(Emission::Delta(pieces[i].as_str().to_owned()));
        i += 1;
    }
    assert(emissions(out@) =~= deltas(texts(pieces@)));
    out
}

fn emit(out: &mut Vec<Emission>, e: Emission)
    ensures
        emissions(final(out)@) == emissions(old(out)@).push(e@),
{
    out.push(e);
    assert(emissions(out@) =~= emissions(old(out)@).push(e@));
}

fn break_off(told_text: bool, message: String) -> (r: Emission)
    ensures
        r@ == broken_off(told_text, message@),
{
    if told_text {
        Emission::Final
    } else {
        Emission::Failed(message)
    }
}

/// What a user reads where nobody takes the text that is told.
pub open spec fn undelivered_message() -> Seq<char> {
    "stream receiver dropped"@
}

/// The failure of following a stream, once something was told: text that nobody took
/// is one, and ends it. `delivered` says whether what was told was taken.
pub fn undelivered(told: &Emission, delivered: bool) -> (r: Option<String>)
    ensures
        r is Some <==> told@ is Delta && !delivered,
        r matches Some(message) ==> message@ == undelivered_message(),
{
    match told {
        Emission::Delta(_) => if delivered {
            None
        } else {
            Some("stream receiver dropped".to_owned())
        },
        _ => None,
    }
}

/// What a user reads of a response that refuses the request: its status, and what
/// it says, where that can be read.
pub open spec fn refusal(status: Seq<char>, said: Option<Seq<char>>) -> Seq<char> {
    status + ": "@ + (match said {
        Some(text) => text,
        None => "HTTP error: "@ + status,
    })
}

/// What a user reads of a response that refuses the request: its status, and what
/// it says, where that can be read.
pub fn refusal_message(status: &str, said: Option<&str>) -> (r: String)
    ensures
        r@ == refusal(status@, opt_str(said)),
{
    let lead = status.to_owned().concat(": ");
    match said {
        Some(text) => lead.concat(text),
        None => {
            let fallback = "HTTP error: ".to_owned().concat(status);
            lead.concat(fallback.as_str())
        },
    }
}

impl StreamSession {
    /// The session of which nothing has arrived.
    pub fn new() -> (r: StreamSession)
        ensures
            r@ == fresh_session(),
            r@.wf(),
    {
        let r = StreamSession {
            state: CodexStreamState::default(),
            buffer: String::new(),
            pending: Vec::new(),
        };
        assert(r@.buffer =~= Seq::<char>::empty());
        assert(r@.pending =~= Seq::<u8>::empty());
        r
    }

    /// Whether a chunk of bytes completes no event that is too long to be read.
    pub fn takes(&self, bytes: &[u8]) -> (r: bool)
        ensures
            r == self@.takes(bytes@),
    {
        does_arrival_fit(self.buffer.as_str(), self.pending.as_slice(), bytes)
    }

    /// Whether what is left at the end is no event that is too long to be read.
    pub fn can_end(&self) -> (r: bool)
        ensures
            r == self@.can_end(),
    {
        !self.pending.is_empty() || does_last_chunk_fit(self.buffer.as_str())
    }

    /// Takes in a chunk of bytes.
    pub fn on_bytes(&mut self, bytes: &[u8]) -> (r: Step)
        requires
            old(self)@.wf(),
            old(self)@.takes(bytes@),
        ensures
            final(self)@ == after_bytes(old(self)@, bytes@).next,
            emissions(r.emissions@) == after_bytes(old(self)@, bytes@).out,
            r.over == after_bytes(old(self)@, bytes@).over,
            !r.over ==> final(self)@.wf(),
    {
        let mut out: Vec<Emission> = Vec::new();
        if let Err(fault) = append_utf8_stream_chunk(&mut self.buffer, &mut self.pending, bytes) {
            emit(&mut out, break_off(self.state.saw_delta, fault.message()));
            assert(emissions(out@) =~= after_bytes(old(self)@, bytes@).out);
            return Step { emissions: out, over: true };
        }
        let ghost all = self.buffer@;
        proof {
            let before = old(self)@.state;
            lemma_leftover_is_cut(all);
            if run(before, complete_events(all)).error is None {
                untaken_is_leftover(all, before);
            }
        }
        let mut pieces: Vec<String> = Vec::new();
        let outcome = process_sse_buffer(&mut self.buffer, &mut self.state, &mut pieces);
        proof {
            let after = run(old(self)@.state, complete_events(all));
            assert(texts(pieces@) =~= after.pieces);
        }
        let mut out = emit_deltas(pieces);
        match outcome {
            Ok(()) => Step { emissions: out, over: false },
            Err(fault) => {
                emit(&mut out, break_off(self.state.saw_delta, fault.message()));
                Step { emissions: out, over: true }
            },
        }
    }

    /// What is told when reading the bytes fails.
    pub fn on_read_error(&self, error: &str) -> (r: Emission)
        ensures
            seq![r@] == after_ending(self@, Ending::ReadError(error@)),
    {
        break_off(
            self.state.saw_delta,
            "error reading OpenAI Codex response stream: ".to_owned().concat(error),
        )
    }

    /// What is told when all the bytes have arrived.
    pub fn on_end(self) -> (r: Vec<Emission>)
        requires
            self@.wf(),
            self@.can_end(),
        ensures
            emissions(r@) == after_ending(self@, Ending::Complete),
    {
        let mut state = self.state;
        let mut out: Vec<Emission> = Vec::new();
        if let Err(fault) = expect_whole(self.pending.as_slice()) {
            emit(&mut out, break_off(state.saw_delta, fault.message()));
            assert(emissions(out@) =~= after_ending(self@, Ending::Complete));
            return out;
        }
        if !is_blank(self.buffer.as_str()) {
            let mut pieces: Vec<String> = Vec::new();
            let outcome = process_sse_chunk(self.buffer.as_str(), &mut state, &mut pieces);
            proof {
                let after = run(self@.state, chunk_events(self@.buffer));
                assert(texts(pieces@) =~= after.pieces);
            }
            out = emit_deltas(pieces);
            if let Err(fault) = outcome {
                emit(&mut out, break_off(state.saw_delta, fault.message()));
                return out;
            }
        }
        let ghost said = emissions(out@);
        if !state.saw_delta {
            if let Some(text) = &state.fallback_text {
                emit(&mut out, Emission::Delta(text.as_str().to_owned()));
            }
        }
        emit(&mut out, Emission::Final);
        assert(emissions(out@) =~= said + closing(state@));
        assert(Seq::<EmissionView>::empty() + closing(state@) =~= closing(state@));
        out
    }
}

proof fn lemma_leftover_is_cut(s: Seq<char>)
    ensures
        first_separator(leftover(s)) is None,
    decreases s.len(),
{
    first_separator_is_first(s);
    if let Some((k, n)) = first_separator(s) {
        lemma_leftover_is_cut(s.skip(k + n));
    }
}

/// What is told of a stream does not depend on how it arrives: it goes by the
/// events of all the text together, and by what is left behind them.
///
/// A stream with a byte in it that no continuation makes valid is left out: what
/// is told of it depends on the chunk in which that byte arrives.
pub proof fn telling_is_arrival_independent(s: SessionView, chunks: Seq<Seq<u8>>, ending: Ending)
    requires
        s.wf(),
        !decoded(s.pending + chunks.flatten()).broken,
    ensures
        ({
            let d = decoded(s.pending + chunks.flatten());
            let all = s.buffer + d.text;
            let after = run(s.state, complete_events(all));
            let last = SessionView { state: after.state, buffer: leftover(all), pending: d.rest };
            &&& after.error is Some ==> session(s, chunks, ending) == told_so_far(after)
            &&& after.error is None ==> session(s, chunks, ending) == deltas(after.pieces)
                + after_ending(last, ending)
        }),
    decreases chunks.len(),
{
    let whole = s.pending + chunks.flatten();
    let d = decoded(whole);
    let all = s.buffer + d.text;
    if chunks.len() == 0 {
        assert(whole =~= s.pending);
        lemma_nothing_decoded(s.pending);
        assert(all =~= s.buffer);
        assert(run(s.state, complete_events(all)).pieces =~= Seq::<Seq<char>>::empty());
        assert(deltas(Seq::empty()) + after_ending(s, ending) =~= after_ending(s, ending));
    } else {
        let x = s.pending + chunks[0];
        let y = chunks.drop_first().flatten();
        assert(whole =~= x + y);
        decoding_is_chunk_independent(x, y);
        let first = decoded(x);
        let second = decoded(first.rest + y);
        let here = s.buffer + first.text;
        assert(all =~= here + second.text);
        framing_is_arrival_independent(here, second.text);
        runs_compose(
            s.state,
            complete_events(here),
            complete_events(leftover(here) + second.text),
        );
        let before = run(s.state, complete_events(here));
        if before.error is None {
            untaken_is_leftover(here, s.state);
            lemma_leftover_is_cut(here);
            let next = after_bytes(s, chunks[0]).next;
            telling_is_arrival_independent(next, chunks.drop_first(), ending);
            let later = run(next.state, complete_events(leftover(here) + second.text));
            assert(deltas(before.pieces) + deltas(later.pieces) =~= deltas(
                before.pieces + later.pieces,
            ));
            let rest = session(next, chunks.drop_first(), ending);
            if later.error is None {
                let last = SessionView {
                    state: later.state,
                    buffer: leftover(all),
                    pending: d.rest,
                };
                let close = after_ending(last, ending);
                assert(deltas(before.pieces) + (deltas(later.pieces) + close) =~= deltas(
                    before.pieces + later.pieces,
                ) + close);
            } else {
                assert(deltas(before.pieces) + rest =~= told_so_far(run(s.state, complete_events(all))));
            }
        }
    }
}

proof fn lemma_nothing_decoded(pending: Seq<u8>)
    requires
        pending.len() == 0 || incomplete(pending),
    ensures
        decoded(pending).text == Seq::<char>::empty(),
        decoded(pending).rest == pending,
{
    assert(pending.take(0) =~= Seq::<u8>::empty());
    assert(pending.skip(0) =~= pending);
    assert(decode_utf8(Seq::<u8>::empty()) =~= Seq::<char>::empty());
}

/// A stream that arrives whole is told as its text reads, however it is cut into
/// chunks: the pieces of text that its events add, and how it ended.
pub proof fn whole_streams_are_told_as_they_read(chunks: Seq<Seq<u8>>)
    requires
        valid_utf8(chunks.flatten()),
    ensures
        session(fresh_session(), chunks, Ending::Complete) == told(
            run(fresh_state(), text_events(decode_utf8(chunks.flatten()))),
        ),
{
    let bytes = chunks.flatten();
    let text = decode_utf8(bytes);
    let s = fresh_session();
    assert(s.pending + bytes =~= bytes);
    assert(s.buffer + text =~= text);
    decoding_is_complete(bytes);
    telling_is_arrival_independent(s, chunks, Ending::Complete);
    runs_compose(s.state, complete_events(text), chunk_events(leftover(text)));
    let before = run(s.state, complete_events(text));
    if before.error is None && trimmed(leftover(text)).len() > 0 {
        let later = run(before.state, chunk_events(leftover(text)));
        assert(deltas(before.pieces) + deltas(later.pieces) =~= deltas(
            before.pieces + later.pieces,
        ));
        assert(deltas(before.pieces) + told(later) =~= told(run(s.state, text_events(text))));
    }
}

/// The text in what is told.
pub open spec fn told_text(out: Seq<EmissionView>) -> Seq<char>
    decreases out.len(),
{
    if out.len() == 0 {
        Seq::empty()
    } else {
        match out.last() {
            EmissionView::Delta(text) => told_text(out.drop_last()) + text,
            _ => told_text(out.drop_last()),
        }
    }
}

proof fn lemma_told_deltas(pieces: Seq<Seq<char>>)
    ensures
        told_text(deltas(pieces)) == pieces.flatten(),
    decreases pieces.len(),
{
    if pieces.len() > 0 {
        let before = pieces.drop_last();
        lemma_told_deltas(before);
        assert(deltas(pieces).drop_last() =~= deltas(before));
        assert(pieces =~= before.push(pieces.last()));
        before.lemma_flatten_push(pieces.last());
    } else {
        assert(pieces.flatten() =~= Seq::<char>::empty());
    }
}

/// The text that is told of a stream without an error is the text that the
/// stream amounts to, and an end follows it.
pub proof fn the_told_text_is_the_answer(events: Seq<crate::json::JsonView>)
    requires
        run(fresh_state(), events).error is None,
    ensures
        ({
            let after = run(fresh_state(), events);
            &&& told(after).last() == EmissionView::Final
            &&& told_text(told(after)) == (match amounts_to(after.state) {
                Some(text) => text,
                None => Seq::empty(),
            })
        }),
{
    let after = run(fresh_state(), events);
    runs_only_add(fresh_state(), events);
    lemma_told_deltas(after.pieces);
    let out = told(after);
    reveal_with_fuel(told_text, 3);
    assert(after.state.text =~= after.pieces.flatten());
    if !after.state.saw_delta && after.state.fallback is Some {
        let text = after.state.fallback.unwrap();
        assert(after.pieces.flatten() =~= Seq::<char>::empty());
        assert(out.drop_last() =~= deltas(after.pieces).push(EmissionView::Delta(text)));
        assert(out.drop_last().drop_last() =~= deltas(after.pieces));
        assert(Seq::<char>::empty() + text =~= text);
    } else {
        assert(out.drop_last() =~= deltas(after.pieces));
        assert(after.state.text.len() == 0 ==> after.state.text =~= Seq::<char>::empty());
        if !after.state.saw_delta {
            assert(after.pieces.flatten() =~= Seq::<char>::empty());
        }
    }
}

/// Whether what is told ends, once, and a failure only where nothing else is told.
pub open spec fn well_told(told_before: bool, out: Seq<EmissionView>) -> bool {
    &&& out.len() > 0
    &&& out.last() is Final || out.last() is Failed
    &&& out.last() is Failed ==> !told_before && out.len() == 1
    &&& forall|i: int| 0 <= i < out.len() - 1 ==> (#[trigger] out[i]) is Delta
}

/// Whatever arrives and however it ends: the last thing that is told is that the
/// stream is over or failed, nothing before it is, and a failure is told only
/// where no text has been.
pub proof fn a_failure_is_told_alone(s: SessionView, chunks: Seq<Seq<u8>>, ending: Ending)
    ensures
        well_told(s.state.saw_delta, session(s, chunks, ending)),
    decreases chunks.len(),
{
    if chunks.len() == 0 {
        runs_only_add(s.state, chunk_events(s.buffer));
    } else {
        let r = after_bytes(s, chunks[0]);
        let all = s.buffer + decoded(s.pending + chunks[0]).text;
        runs_only_add(s.state, complete_events(all));
        if !r.over {
            a_failure_is_told_alone(r.next, chunks.drop_first(), ending);
        }
    }
}

} // verus!
