//! Reading a response that is wanted as a whole.

use crate::json::JsonView;
use crate::session::{
    deltas, fresh_session, read_error_message, session, the_told_text_is_the_answer, told_text,
    whole_streams_are_told_as_they_read, EmissionView, Ending,
};
use crate::sse::{
    amounts_to, arrival_fits, chunk_events, complete_events, does_arrival_fit,
    does_last_chunk_fit, framing_is_arrival_independent, last_chunk_fits, leftover,
    process_sse_buffer_sync, process_sse_chunk_sync, text_events, untaken_is_leftover,
};
use crate::stream_event::{
    fresh_state, run, runs_compose, runs_only_add, stream_fault_message, CodexStreamState, Run,
    StreamFault, StreamStateView,
};
use crate::text::{begins, begins_with, is_blank, trim_start, trimmed, trimmed_start};
use crate::utf8_stream::{
    append_utf8_stream_chunk, decoded, decoding_is_complete, expect_whole, fed,
    feeding_is_decoding_the_whole, incomplete, stream_fault, utf8_error_text, Utf8Fault,
    Utf8FaultView,
};
use crate::wire::{extract_responses_text, response_text, ResponsesResponse};
use vstd::prelude::*;
use vstd::string::*;
use vstd::utf8::*;

verus! {

/// Why a response gives no answer.
#[derive(Debug)]
pub enum BodyError {
    /// Reading the response failed.
    Unreadable(String),
    /// The response is no UTF-8.
    NotUtf8(Utf8Fault),
    /// The response is a stream that reports an error.
    Stream(StreamFault),
    /// The response is a stream without an answer, of which an excerpt is given.
    Unanswered(String),
    /// The response is neither a stream nor JSON: the parser's error, and an excerpt.
    NotJson(String, String),
    /// The response holds no text.
    NoText,
}

impl BodyError {
    /// What a user reads of the error.
    pub open spec fn text(self) -> Seq<char> {
        match self {
            BodyError::Unreadable(error) => read_error_message(error@),
            BodyError::NotUtf8(fault) => fault@.message(),
            BodyError::Stream(fault) => stream_fault_message(fault.message@),
            BodyError::Unanswered(excerpt) => "No response from OpenAI Codex stream payload: "@
                + excerpt@,
            BodyError::NotJson(error, excerpt) => "OpenAI Codex JSON parse failed: "@ + error@
                + ". Payload: "@ + excerpt@,
            BodyError::NoText => "No response from OpenAI Codex"@,
        }
    }

    /// What a user reads of the error.
    pub fn message(&self) -> (r: String)
        ensures
            r@ == self.text(),
    {
        match self {
            BodyError::Unreadable(error) => {
                "error reading OpenAI Codex response stream: ".to_owned().concat(error.as_str())
            },
            BodyError::NotUtf8(fault) => fault.message(),
            BodyError::Stream(fault) => fault.message(),
            BodyError::Unanswered(excerpt) => {
                "No response from OpenAI Codex stream payload: ".to_owned().concat(excerpt.as_str())
            },
            BodyError::NotJson(error, excerpt) => {
                "OpenAI Codex JSON parse failed: ".to_owned().concat(error.as_str()).concat(
                    ". Payload: ",
                ).concat(excerpt.as_str())
            },
            BodyError::NoText => "No response from OpenAI Codex".to_owned(),
        }
    }
}

/// What a response that arrived whole turns out to be.
#[derive(Debug)]
pub enum Reading {
    /// A stream with an answer.
    Answer(String),
    /// A stream without an answer, all of it.
    Unanswered(String),
    /// No stream: the response, all of it, is a JSON document, if it is anything.
    Document(String),
}

/// The model of [`Reading`].
pub enum ReadingView {
    Answer(Seq<char>),
    Unanswered(Seq<char>),
    Document(Seq<char>),
}

impl View for Reading {
    type V = ReadingView;

    open spec fn view(&self) -> ReadingView {
        match self {
            Reading::Answer(text) => ReadingView::Answer(text@),
            Reading::Unanswered(body) => ReadingView::Unanswered(body@),
            Reading::Document(body) => ReadingView::Document(body@),
        }
    }
}

/// Whether a text begins like a stream, white space aside.
pub open spec fn looks_like_stream(body: Seq<char>) -> bool {
    begins(trimmed_start(body), "event:"@) || begins(trimmed_start(body), "data:"@)
}

/// What a run of events amounts to, given the response's text: the text counts only
/// where the events hold no answer.
pub open spec fn reading_of(after: Run, body: Seq<char>) -> Result<ReadingView, Seq<char>> {
    match after.error {
        Some(message) => Err(message),
        None => match amounts_to(after.state) {
            Some(text) => Ok(ReadingView::Answer(text)),
            None => if looks_like_stream(body) {
                Ok(ReadingView::Unanswered(body))
            } else {
                Ok(ReadingView::Document(body))
            },
        },
    }
}

/// What a response that arrived whole turns out to be, or the error that it
/// reports.
pub open spec fn body_reading(body: Seq<char>) -> Result<ReadingView, Seq<char>> {
    reading_of(run(fresh_state(), text_events(body)), body)
}

/// A response that is read while it arrives, and wanted as a whole.
///
/// Events are read as they come. The text is kept only until they hold an answer or
/// report an error: from then on nothing asks for it.
#[derive(Debug)]
pub struct BodyReader {
    state: CodexStreamState,
    /// The text that no event has been read from yet.
    buffer: String,
    /// The bytes of a character that has not arrived whole.
    pending: Vec<u8>,
    /// The error that an event reported.
    fault: Option<StreamFault>,
    /// The text so far, while it is kept.
    kept: String,
}

/// The model of [`BodyReader`].
pub struct ReaderView {
    pub state: StreamStateView,
    pub buffer: Seq<char>,
    pub pending: Seq<u8>,
    pub fault: Option<Seq<char>>,
    pub kept: Seq<char>,
}

impl View for BodyReader {
    type V = ReaderView;

    closed spec fn view(&self) -> ReaderView {
        ReaderView {
            state: self.state@,
            buffer: self.buffer@,
            pending: self.pending@,
            fault: match self.fault {
                Some(fault) => Some(fault.message@),
                None => None,
            },
            kept: self.kept@,
        }
    }
}

impl ReaderView {
    /// What holds of a reader that goes on: only a cut character waits for bytes.
    pub open spec fn wf(self) -> bool {
        self.pending.len() == 0 || incomplete(self.pending)
    }

    /// Whether a chunk of bytes completes no event that is too long to be read.
    pub open spec fn takes(self, bytes: Seq<u8>) -> bool {
        self.fault is None ==> arrival_fits(self.buffer, self.pending, bytes)
    }

    /// Whether what is left at the end is no event that is too long to be read.
    pub open spec fn can_end(self) -> bool {
        self.pending.len() == 0 && self.fault is None ==> last_chunk_fits(self.buffer)
    }
}

/// The reader to which nothing has come.
pub open spec fn fresh_reader() -> ReaderView {
    ReaderView {
        state: fresh_state(),
        buffer: Seq::empty(),
        pending: Seq::empty(),
        fault: None,
        kept: Seq::empty(),
    }
}

/// What a reader becomes with a chunk of bytes that holds no fault.
pub open spec fn reader_after(s: ReaderView, bytes: Seq<u8>) -> ReaderView {
    let d = decoded(s.pending + bytes);
    let all = s.buffer + d.text;
    let after = run(s.state, complete_events(all));
    if s.fault is Some {
        ReaderView { pending: d.rest, ..s }
    } else if after.error is Some {
        ReaderView {
            state: after.state,
            buffer: Seq::empty(),
            pending: d.rest,
            fault: after.error,
            kept: Seq::empty(),
        }
    } else {
        ReaderView {
            state: after.state,
            buffer: leftover(all),
            pending: d.rest,
            fault: None,
            kept: if amounts_to(after.state) is Some {
                Seq::empty()
            } else {
                s.kept + d.text
            },
        }
    }
}

/// The error of a response that is no UTF-8, or of one that reports an error.
pub enum ReaderError {
    NotUtf8(Utf8FaultView),
    Stream(Seq<char>),
}

/// What a reader makes of the response when all bytes have arrived.
pub open spec fn reader_result(s: ReaderView) -> Result<ReadingView, ReaderError> {
    if s.pending.len() > 0 {
        Err(ReaderError::NotUtf8(Utf8FaultView::Incomplete(utf8_error_text(s.pending))))
    } else if s.fault is Some {
        Err(ReaderError::Stream(s.fault.unwrap()))
    } else {
        let last = if trimmed(s.buffer).len() == 0 {
            Seq::empty()
        } else {
            chunk_events(s.buffer)
        };
        match reading_of(run(s.state, last), s.kept) {
            Ok(reading) => Ok(reading),
            Err(message) => Err(ReaderError::Stream(message)),
        }
    }
}

/// What a reader makes of chunks and the end behind them.
pub open spec fn read_chunks(s: ReaderView, chunks: Seq<Seq<u8>>) -> Result<ReadingView, ReaderError>
    decreases chunks.len(),
{
    if chunks.len() == 0 {
        reader_result(s)
    } else if decoded(s.pending + chunks[0]).broken {
        Err(ReaderError::NotUtf8(Utf8FaultView::Invalid(utf8_error_text(s.pending + chunks[0]))))
    } else {
        read_chunks(reader_after(s, chunks[0]), chunks.drop_first())
    }
}

/// Whether a stream in this state amounts to a text.
fn is_answered(state: &CodexStreamState) -> (r: bool)
    ensures
        r == (amounts_to(state@) is Some),
{
    if state.saw_delta {
        !state.delta_accumulator.as_str().is_empty()
    } else {
        state.fallback_text.is_some()
    }
}

impl BodyReader {
    /// The reader to which nothing has come.
    pub fn new() -> (r: BodyReader)
        ensures
            r@ == fresh_reader(),
            r@.wf(),
    {
        let r = BodyReader {
            state: CodexStreamState::default(),
            buffer: String::new(),
            pending: Vec::new(),
            fault: None,
            kept: String::new(),
        };
        assert(r@.buffer =~= Seq::<char>::empty());
        assert(r@.pending =~= Seq::<u8>::empty());
        assert(r@.kept =~= Seq::<char>::empty());
        r
    }

    /// Whether a chunk of bytes completes no event that is too long to be read.
    pub fn takes(&self, bytes: &[u8]) -> (r: bool)
        ensures
            r == self@.takes(bytes@),
    {
        self.fault.is_some() || does_arrival_fit(
            self.buffer.as_str(),
            self.pending.as_slice(),
            bytes,
        )
    }

    /// Whether what is left at the end is no event that is too long to be read.
    pub fn can_end(&self) -> (r: bool)
        ensures
            r == self@.can_end(),
    {
        !self.pending.is_empty() || self.fault.is_some() || does_last_chunk_fit(
            self.buffer.as_str(),
        )
    }

    /// Takes in a chunk of bytes. It is refused exactly where a byte in it makes the
    /// response no UTF-8.
    pub fn on_bytes(&mut self, bytes: &[u8]) -> (r: Result<(), BodyError>)
        requires
            old(self)@.wf(),
            old(self)@.takes(bytes@),
        ensures
            decoded(old(self)@.pending + bytes@).broken ==> (r matches Err(BodyError::NotUtf8(fault))
                && fault@ == Utf8FaultView::Invalid(utf8_error_text(old(self)@.pending + bytes@))),
            !decoded(old(self)@.pending + bytes@).broken ==> {
                &&& r is Ok
                &&& final(self)@ == reader_after(old(self)@, bytes@)
                &&& final(self)@.wf()
            },
    {
        let mut text = String::new();
        if let Err(fault) = append_utf8_stream_chunk(&mut text, &mut self.pending, bytes) {
            return Err(BodyError::NotUtf8(fault));
        }
        let ghost d = decoded(old(self)@.pending + bytes@);
        assert(text@ =~= d.text);
        if self.fault.is_some() {
            return Ok(());
        }
        self.buffer.append(text.as_str());
        self.kept.append(text.as_str());
        let ghost all = self.buffer@;
        proof {
            if run(old(self)@.state, complete_events(all)).error is None {
                untaken_is_leftover(all, old(self)@.state);
            }
        }
        if let Err(fault) = process_sse_buffer_sync(&mut self.buffer, &mut self.state) {
            self.fault = Some(fault);
            self.buffer = String::new();
            self.kept = String::new();
            assert(self.buffer@ =~= Seq::<char>::empty());
            assert(self.kept@ =~= Seq::<char>::empty());
            return Ok(());
        }
        if is_answered(&self.state) {
            self.kept = String::new();
            assert(self.kept@ =~= Seq::<char>::empty());
        }
        Ok(())
    }

    /// What the response turns out to be, when all bytes have arrived.
    pub fn finish(self) -> (r: Result<Reading, BodyError>)
        requires
            self@.wf(),
            self@.can_end(),
        ensures
            match reader_result(self@) {
                Ok(reading) => r matches Ok(read) && read@ == reading,
                Err(ReaderError::NotUtf8(fault)) => r matches Err(BodyError::NotUtf8(found))
                    && found@ == fault,
                Err(ReaderError::Stream(message)) => r matches Err(BodyError::Stream(found))
                    && found.message@ == message,
            },
    {
        if let Err(fault) = expect_whole(self.pending.as_slice()) {
            return Err(BodyError::NotUtf8(fault));
        }
        if let Some(fault) = self.fault {
            return Err(BodyError::Stream(fault));
        }
        let mut state = self.state;
        if !is_blank(self.buffer.as_str()) {
            if let Err(fault) = process_sse_chunk_sync(self.buffer.as_str(), &mut state) {
                return Err(BodyError::Stream(fault));
            }
        }
        if is_answered(&state) {
            if state.saw_delta {
                return Ok(Reading::Answer(state.delta_accumulator));
            }
            if let Some(text) = state.fallback_text {
                return Ok(Reading::Answer(text));
            }
        }
        let start = trim_start(self.kept.as_str());
        if begins_with(start, "event:") || begins_with(start, "data:") {
            Ok(Reading::Unanswered(self.kept))
        } else {
            Ok(Reading::Document(self.kept))
        }
    }
}

/// The answer in a response that is a JSON document.
pub fn answer_of(response: &ResponsesResponse) -> (r: Result<String, BodyError>)
    ensures
        match response_text(response@) {
            Some(text) => r matches Ok(answer) && answer@ == text,
            None => r matches Err(BodyError::NoText),
        },
{
    match extract_responses_text(response) {
        Some(text) => Ok(text),
        None => Err(BodyError::NoText),
    }
}

/// What a reader holds after some text: the state that its complete chunks lead to,
/// what is left behind them, and the text itself where it may still be asked for.
pub open spec fn holds(s: ReaderView, text: Seq<char>) -> bool {
    let after = run(fresh_state(), complete_events(text));
    &&& s.wf()
    &&& s.state == after.state
    &&& s.fault == after.error
    &&& after.error is None ==> s.buffer == leftover(text)
    &&& after.error is None && amounts_to(after.state) is None ==> s.kept == text
}

proof fn lemma_answers_stay(a: Seq<JsonView>, b: Seq<JsonView>)
    requires
        run(fresh_state(), a).error is None,
        amounts_to(run(fresh_state(), a).state) is Some,
    ensures
        amounts_to(run(fresh_state(), a + b).state) is Some,
{
    runs_compose(fresh_state(), a, b);
    runs_only_add(fresh_state(), a);
    let before = run(fresh_state(), a);
    runs_only_add(before.state, b);
    let whole = run(fresh_state(), a + b);
    runs_only_add(fresh_state(), a + b);
    if whole.state.saw_delta {
        assert(whole.pieces[0].len() > 0);
        assert(whole.state.text =~= whole.pieces.flatten());
    }
}

proof fn lemma_reader_holds(s: ReaderView, text: Seq<char>, bytes: Seq<u8>)
    requires
        holds(s, text),
        !decoded(s.pending + bytes).broken,
    ensures
        holds(reader_after(s, bytes), text + decoded(s.pending + bytes).text),
{
    let more = decoded(s.pending + bytes).text;
    let before = run(fresh_state(), complete_events(text));
    framing_is_arrival_independent(text, more);
    let next = complete_events(leftover(text) + more);
    runs_compose(fresh_state(), complete_events(text), next);
    if before.error is None && amounts_to(before.state) is Some {
        lemma_answers_stay(complete_events(text), next);
    }
}

proof fn lemma_read_chunks(s: ReaderView, text: Seq<char>, chunks: Seq<Seq<u8>>)
    requires
        holds(s, text),
    ensures
        read_chunks(s, chunks) == (match stream_fault(fed(s.pending, chunks)) {
            Some(fault) => Err(ReaderError::NotUtf8(fault)),
            None => match body_reading(text + fed(s.pending, chunks).text) {
                Ok(reading) => Ok(reading),
                Err(message) => Err(ReaderError::Stream(message)),
            },
        }),
    decreases chunks.len(),
{
    if chunks.len() == 0 {
        assert(text + fed(s.pending, chunks).text =~= text);
        let before = run(fresh_state(), complete_events(text));
        runs_compose(fresh_state(), complete_events(text), chunk_events(leftover(text)));
        if before.error is None && amounts_to(before.state) is Some {
            lemma_answers_stay(complete_events(text), chunk_events(leftover(text)));
        }
    } else {
        let d = decoded(s.pending + chunks[0]);
        if !d.broken {
            lemma_reader_holds(s, text, chunks[0]);
            let next = reader_after(s, chunks[0]);
            lemma_read_chunks(next, text + d.text, chunks.drop_first());
            let later = fed(d.rest, chunks.drop_first());
            assert(text + (d.text + later.text) =~= (text + d.text) + later.text);
        }
    }
}

/// However a response is cut into chunks, reading it while it arrives gives what its
/// whole text does: a text that is no longer kept is not asked for.
pub proof fn reading_is_arrival_independent(chunks: Seq<Seq<u8>>)
    ensures
        read_chunks(fresh_reader(), chunks) == (match stream_fault(fed(Seq::empty(), chunks)) {
            Some(fault) => Err(ReaderError::NotUtf8(fault)),
            None => match body_reading(decode_utf8(chunks.flatten())) {
                Ok(reading) => Ok(reading),
                Err(message) => Err(ReaderError::Stream(message)),
            },
        }),
        stream_fault(fed(Seq::empty(), chunks)) is None <==> valid_utf8(chunks.flatten()),
{
    let nothing = Seq::<char>::empty();
    assert(fresh_reader().buffer == leftover(nothing));
    lemma_read_chunks(fresh_reader(), nothing, chunks);
    feeding_is_decoding_the_whole(Seq::empty(), chunks);
    assert(Seq::<u8>::empty() + chunks.flatten() =~= chunks.flatten());
    decoding_is_complete(chunks.flatten());
    assert(nothing + fed(Seq::empty(), chunks).text =~= fed(Seq::empty(), chunks).text);
}

/// A response reads the same whether it is followed or wanted as a whole, however
/// it is cut into chunks: who follows it is told the answer that the whole holds
/// and an end; and of an error that the stream reports, unless text had come
/// before it.
pub proof fn following_and_waiting_agree(chunks: Seq<Seq<u8>>)
    requires
        valid_utf8(chunks.flatten()),
    ensures
        ({
            let out = session(fresh_session(), chunks, Ending::Complete);
            match body_reading(decode_utf8(chunks.flatten())) {
                Ok(ReadingView::Answer(text)) => told_text(out) == text && out.last() is Final,
                Ok(_) => out == seq![EmissionView::Final],
                Err(message) => (out.last() is Final && out.len() > 1) || out == seq![
                    EmissionView::Failed(stream_fault_message(message)),
                ],
            }
        }),
{
    let text = decode_utf8(chunks.flatten());
    let after = run(fresh_state(), text_events(text));
    let out = session(fresh_session(), chunks, Ending::Complete);
    whole_streams_are_told_as_they_read(chunks);
    runs_only_add(fresh_state(), text_events(text));
    if after.error is None {
        the_told_text_is_the_answer(text_events(text));
        if amounts_to(after.state) is None {
            if after.state.saw_delta {
                assert(after.state.text =~= after.pieces.flatten());
                assert(after.pieces[0].len() > 0);
            }
            assert(deltas(after.pieces) =~= Seq::<EmissionView>::empty());
            assert(out =~= seq![EmissionView::Final]);
        }
    } else if !after.state.saw_delta {
        assert(out =~= seq![
            EmissionView::Failed(stream_fault_message(after.error.unwrap())),
        ]);
    }
}

} // verus!
