//! What is told of a stream, and what a response as a whole reads as.

use crate::body::{body_reading, ReadingView};
use crate::json::JsonView;
use crate::laws::events::{deltas_are_kept_as_they_stand, is_of_type, single_events_run};
use crate::laws::framing::{
    complete_chunks_are_read, incomplete_chunks_wait, is_event, is_one_chunk, one_line_holds_its_event,
};
use crate::session::{
    after_bytes, after_ending, fresh_session, refusal, session, told, told_so_far, undelivered_message,
    whole_streams_are_told_as_they_read, EmissionView, Ending, SessionView,
};
use crate::sse::{amounts_to, chunk_events, complete_events, separator_at, text_events, untaken};
use crate::stream_event::{
    fresh_state, run, runs_compose, runs_only_add, Run, StreamStateView,
};
use crate::text::{begins, trimmed, trimmed_start};
use crate::utf8_stream::{decoded, utf8_error_text};
use vstd::prelude::*;
use vstd::utf8::*;

verus! {

/// Of a run that reported no error every piece is told, each by itself, as it stands
/// and in order; then the text to fall back on, only where no piece came; and then
/// the end.
pub proof fn every_piece_is_told(after: Run)
    requires
        after.error is None,
    ensures
        ({
            let out = told(after);
            let n = after.pieces.len() as int;
            &&& out.len() > n
            &&& forall|i: int|
                0 <= i < n ==> #[trigger] out[i] == EmissionView::Delta(after.pieces[i])
            &&& match after.state.fallback {
                Some(text) if !after.state.saw_delta => out.skip(n) == seq![
                    EmissionView::Delta(text),
                    EmissionView::Final,
                ],
                _ => out.skip(n) == seq![EmissionView::Final],
            }
            &&& told_so_far(after).len() == n && forall|i: int|
                0 <= i < n ==> #[trigger] told_so_far(after)[i] == EmissionView::Delta(
                    after.pieces[i],
                )
        }),
{
    let out = told(after);
    let n = after.pieces.len() as int;
    if after.state.fallback is Some && !after.state.saw_delta {
        assert(out.skip(n) =~= seq![
            EmissionView::Delta(after.state.fallback.unwrap()),
            EmissionView::Final,
        ]);
    } else {
        assert(out.skip(n) =~= seq![EmissionView::Final]);
    }
}

/// Of a run that reported an error every piece before it is told; then the end, where
/// text has come, and the error, as it was reported, where none has.
pub proof fn an_error_is_told_behind_the_pieces(after: Run, message: Seq<char>)
    requires
        after.error == Some(message),
    ensures
        ({
            let out = told(after);
            let n = after.pieces.len() as int;
            &&& out == told_so_far(after)
            &&& out.len() == n + 1
            &&& forall|i: int|
                0 <= i < n ==> #[trigger] out[i] == EmissionView::Delta(after.pieces[i])
            &&& after.state.saw_delta ==> out[n] == EmissionView::Final
            &&& !after.state.saw_delta ==> out[n] == EmissionView::Failed(
                "OpenAI Codex stream error: "@ + message,
            )
        }),
{
}

/// Bytes that are no UTF-8 end the stream at once, with what came before them in the
/// same chunk unread: in an end where text has come, and else in the failure.
pub proof fn invalid_bytes_end_the_stream(s: SessionView, bytes: Seq<u8>)
    requires
        decoded(s.pending + bytes).broken,
    ensures
        after_bytes(s, bytes).over,
        s.state.saw_delta ==> after_bytes(s, bytes).out == seq![EmissionView::Final],
        !s.state.saw_delta ==> after_bytes(s, bytes).out == seq![
            EmissionView::Failed(
                "OpenAI Codex response contained invalid UTF-8: "@ + utf8_error_text(
                    s.pending + bytes,
                ),
            ),
        ],
{
}

/// A chunk of bytes adds its text to what was left, tells what the events say that
/// this completes, and leaves the rest for later; it ends the stream exactly where an
/// event reports an error.
pub proof fn bytes_add_to_what_was_left(s: SessionView, bytes: Seq<u8>)
    requires
        !decoded(s.pending + bytes).broken,
    ensures
        ({
            let text = s.buffer + decoded(s.pending + bytes).text;
            let after = run(s.state, complete_events(text));
            let r = after_bytes(s, bytes);
            &&& r.over <==> after.error is Some
            &&& r.next.state == after.state
            &&& r.next.buffer == untaken(text, s.state)
            &&& r.next.pending == decoded(s.pending + bytes).rest
            &&& r.out.len() == after.pieces.len() + (if r.over {
                1int
            } else {
                0
            })
            &&& forall|i: int|
                0 <= i < after.pieces.len() ==> #[trigger] r.out[i] == EmissionView::Delta(
                    after.pieces[i],
                )
        }),
{
}

/// A failure to read, and a character that is cut by the end, are told where no text
/// has come, each as what it is; where text has come, the stream is over.
pub proof fn cut_streams_fail_or_end(s: SessionView, error: Seq<char>)
    ensures
        s.state.saw_delta ==> after_ending(s, Ending::ReadError(error)) == seq![
            EmissionView::Final,
        ],
        !s.state.saw_delta ==> after_ending(s, Ending::ReadError(error)) == seq![
            EmissionView::Failed("error reading OpenAI Codex response stream: "@ + error),
        ],
        s.pending.len() > 0 && s.state.saw_delta ==> after_ending(s, Ending::Complete) == seq![
            EmissionView::Final,
        ],
        s.pending.len() > 0 && !s.state.saw_delta ==> after_ending(s, Ending::Complete) == seq![
            EmissionView::Failed(
                "OpenAI Codex response ended with incomplete UTF-8: "@ + utf8_error_text(s.pending),
            ),
        ],
{
}

/// At the end, what is left is read as a last chunk, unless it is blank.
pub proof fn the_last_chunk_counts(s: SessionView)
    requires
        s.pending.len() == 0,
    ensures
        trimmed(s.buffer).len() > 0 ==> after_ending(s, Ending::Complete) == told(
            run(s.state, chunk_events(s.buffer)),
        ),
        trimmed(s.buffer).len() == 0 ==> after_ending(s, Ending::Complete) == told(
            run(s.state, Seq::empty()),
        ),
{
    let none = run(s.state, Seq::empty());
    assert(told(none) =~= after_ending(s, Ending::Complete) || trimmed(s.buffer).len() > 0);
}

/// A session begins with nothing, and what is left unsaid of a dropped receiver and a
/// refusal is said in these words.
pub proof fn plain_words(status: Seq<char>, said: Seq<char>)
    ensures
        fresh_session().buffer.len() == 0,
        fresh_session().pending.len() == 0,
        fresh_session().state == fresh_state(),
        undelivered_message() == "stream receiver dropped"@,
        refusal(status, Some(said)) == status + ": "@ + said,
        refusal(status, None) == status + ": "@ + ("HTTP error: "@ + status),
{
}

/// Whether a text is written JSON of a delta with the text `t`, on one line.
pub open spec fn writes_delta(x: Seq<char>, t: Seq<char>) -> bool {
    &&& !x.contains('\n')
    &&& !x.contains('\r')
    &&& x.len() > 0
    &&& t.len() > 0
    &&& exists|event: JsonView| #[trigger]
        is_event(trimmed(x), event) && is_of_type(event, "response.output_text.delta"@)
            && event.get("delta"@) == Some(JsonView::Text(t))
}

/// The stream of the given lines, each an event of its own.
pub open spec fn stream_of(lines: Seq<Seq<char>>) -> Seq<char>
    decreases lines.len(),
{
    if lines.len() == 0 {
        Seq::empty()
    } else {
        ("data:"@ + lines[0]) + seq!['\n', '\n'] + stream_of(lines.drop_first())
    }
}

/// Whether each line writes the delta at its place.
pub open spec fn write_deltas(lines: Seq<Seq<char>>, ts: Seq<Seq<char>>) -> bool {
    &&& lines.len() == ts.len()
    &&& forall|i: int| 0 <= i < ts.len() ==> writes_delta(#[trigger] lines[i], ts[i])
}

proof fn lemma_line_is_one_chunk(x: Seq<char>)
    requires
        !x.contains('\n'),
        !x.contains('\r'),
        x.len() > 0,
    ensures
        is_one_chunk("data:"@ + x),
{
    reveal_strlit("data:");
    let chunk = "data:"@ + x;
    assert forall|i: int| 0 <= i < chunk.len() implies chunk[i] != '\n' && chunk[i] != '\r' by {
        if i >= 5 {
            assert(x.contains(x[i - 5]));
        }
    }
    assert forall|i: int| 0 <= i < chunk.len() implies #[trigger] separator_at(chunk, i) == 0 by {
        assert(chunk[i] != '\n' && chunk[i] != '\r');
    }
}

proof fn lemma_stream_of_deltas(
    state: StreamStateView,
    lines: Seq<Seq<char>>,
    ts: Seq<Seq<char>>,
)
    requires
        write_deltas(lines, ts),
    ensures
        run(state, text_events(stream_of(lines))).pieces == ts,
        run(state, text_events(stream_of(lines))).error is None,
        run(state, text_events(stream_of(lines))).state.fallback == state.fallback,
    decreases lines.len(),
{
    if lines.len() == 0 {
        incomplete_chunks_wait(Seq::empty());
        assert(text_events(stream_of(lines)) =~= Seq::<JsonView>::empty());
        assert(ts =~= Seq::<Seq<char>>::empty());
    } else {
        let x = lines[0];
        let t = ts[0];
        assert(writes_delta(x, t));
        let event = choose|event: JsonView| #[trigger]
            is_event(trimmed(x), event) && is_of_type(event, "response.output_text.delta"@)
                && event.get("delta"@) == Some(JsonView::Text(t));
        let rest = lines.drop_first();
        lemma_line_is_one_chunk(x);
        one_line_holds_its_event(x, event);
        complete_chunks_are_read("data:"@ + x, seq!['\n', '\n'], stream_of(rest));
        deltas_are_kept_as_they_stand(state, event, t, state.saw_delta);
        single_events_run(state, event);
        runs_compose(state, seq![event], text_events(stream_of(rest)));
        let next = run(state, seq![event]).state;
        assert forall|i: int| 0 <= i < ts.drop_first().len() implies writes_delta(
            #[trigger] rest[i],
            ts.drop_first()[i],
        ) by {
            assert(rest[i] == lines[i + 1]);
        }
        lemma_stream_of_deltas(next, rest, ts.drop_first());
        assert(seq![t] + ts.drop_first() =~= ts);
    }
}

/// A stream of deltas is told delta by delta, each as it stands, and then ends; and its
/// answer is all of them, one behind the other, with nothing between.
pub proof fn deltas_are_handed_on(lines: Seq<Seq<char>>, ts: Seq<Seq<char>>, chunks: Seq<Seq<u8>>)
    requires
        write_deltas(lines, ts),
        ts.len() > 0,
        valid_utf8(chunks.flatten()),
        decode_utf8(chunks.flatten()) == stream_of(lines),
    ensures
        ({
            let out = session(fresh_session(), chunks, Ending::Complete);
            &&& out.len() == ts.len() + 1
            &&& forall|i: int| 0 <= i < ts.len() ==> #[trigger] out[i] == EmissionView::Delta(ts[i])
            &&& out.last() == EmissionView::Final
        }),
        body_reading(stream_of(lines)) == Ok::<ReadingView, Seq<char>>(
            ReadingView::Answer(ts.flatten()),
        ),
{
    let text = stream_of(lines);
    lemma_stream_of_deltas(fresh_state(), lines, ts);
    whole_streams_are_told_as_they_read(chunks);
    let after = run(fresh_state(), text_events(text));
    runs_only_add(fresh_state(), text_events(text));
    every_piece_is_told(after);
    let out = told(after);
    assert(out.last() == out.skip(ts.len() as int).last());
    assert(out.len() == ts.len() + out.skip(ts.len() as int).len());
    assert(after.state.text =~= ts.flatten());
    assert(after.pieces[0].len() > 0);
}

/// A response as a whole is the answer that its events amount to, or the error that
/// one reports; without either, all of it is a stream without an answer where it
/// begins like one, and else a document.
pub proof fn whole_responses_read_as_their_events(body: Seq<char>)
    ensures
        ({
            let after = run(fresh_state(), text_events(body));
            match after.error {
                Some(message) => body_reading(body) == Err::<ReadingView, Seq<char>>(message),
                None => match amounts_to(after.state) {
                    Some(text) => body_reading(body) == Ok::<ReadingView, Seq<char>>(
                        ReadingView::Answer(text),
                    ),
                    None => if begins(trimmed_start(body), "event:"@) || begins(
                        trimmed_start(body),
                        "data:"@,
                    ) {
                        body_reading(body) == Ok::<ReadingView, Seq<char>>(
                            ReadingView::Unanswered(body),
                        )
                    } else {
                        body_reading(body) == Ok::<ReadingView, Seq<char>>(
                            ReadingView::Document(body),
                        )
                    },
                },
            }
        }),
{
}

} // verus!
