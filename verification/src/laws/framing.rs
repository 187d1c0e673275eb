//! Cutting a stream into events.

use crate::json::{json_of, JsonView};
use crate::sse::{
    chunk_events, chunks_fit, complete_events, data_field, data_lines, field_events, first_separator,
    first_separator_is_first, last_chunk_fits, leftover, line_end, lines_are_read_one_by_one,
    separator_at, short_texts_fit, text_events, untaken,
};
use crate::stream_event::{run, StreamStateView};
use crate::text::{begins, ends, joined, trimmed, trimming_is_idempotent};
use vstd::prelude::*;

verus! {

/// Chunks are separated by two line feeds, or by two pairs of carriage return and
/// line feed, and by nothing else.
pub proof fn separators_are_empty_lines(s: Seq<char>, i: int)
    requires
        0 <= i <= s.len(),
    ensures
        separator_at(s, i) == 2 <==> i + 2 <= s.len() && s.subrange(i, i + 2) == seq!['\n', '\n'],
        separator_at(s, i) == 4 <==> i + 4 <= s.len() && s.subrange(i, i + 4) == seq![
            '\r',
            '\n',
            '\r',
            '\n',
        ],
        separator_at(s, i) == 2 || separator_at(s, i) == 4 || separator_at(s, i) == 0,
{
    if i + 2 <= s.len() {
        let two = s.subrange(i, i + 2);
        if two == seq!['\n', '\n'] {
            assert(two[0] == s[i] && two[1] == s[i + 1]);
        }
        if separator_at(s, i) == 2 {
            assert(two =~= seq!['\n', '\n']);
        }
    }
    if i + 4 <= s.len() {
        let four = s.subrange(i, i + 4);
        if four == seq!['\r', '\n', '\r', '\n'] {
            assert(four[0] == s[i] && four[1] == s[i + 1] && four[2] == s[i + 2] && four[3] == s[i
                + 3]);
        }
        if separator_at(s, i) == 4 {
            assert(four =~= seq!['\r', '\n', '\r', '\n']);
        }
    }
}

/// A `data:` line carries what stands behind the colon, trimmed; no other line carries
/// anything.
pub proof fn data_lines_carry_what_stands_behind(line: Seq<char>, x: Seq<char>)
    ensures
        data_field("data:"@ + x) == Some(trimmed(x)),
        data_field(line) is Some ==> begins(line, "data:"@),
{
    reveal_strlit("data:");
    let whole = "data:"@ + x;
    assert(whole.take(5) =~= "data:"@);
    assert(whole.skip(5) =~= x);
}

proof fn lemma_one_line(line: Seq<char>, i: int)
    requires
        !line.contains('\n'),
        0 <= i <= line.len(),
    ensures
        line_end(line, i) == line.len(),
    decreases line.len() - i,
{
    if i < line.len() {
        assert(line.contains(line[i]));
        lemma_one_line(line, i + 1);
    }
}

/// The last line of a chunk counts without a line end, too.
pub proof fn last_lines_count(x: Seq<char>, other: Seq<char>)
    requires
        !x.contains('\n'),
        !other.contains('\n'),
        !begins(other, "data:"@),
    ensures
        data_lines("data:"@ + x) == seq![trimmed(x)],
        data_lines(other) == Seq::<Seq<char>>::empty(),
{
    reveal_strlit("data:");
    let line = "data:"@ + x;
    assert(!line.contains('\n')) by {
        if line.contains('\n') {
            let i = choose|i: int| 0 <= i < line.len() && line[i] == '\n';
            if i >= 5 {
                assert(x[i - 5] == '\n');
            }
        }
    }
    lemma_one_line(line, 0);
    lemma_one_line(other, 0);
    assert(line.take(line.len() as int) =~= line);
    assert(other.take(other.len() as int) =~= other);
    data_lines_carry_what_stands_behind(other, x);
    assert(seq![trimmed(x)] + Seq::<Seq<char>>::empty() =~= seq![trimmed(x)]);
}

/// `data:` lines are read one behind the other, each with its own field, and lines
/// between them do not count.
pub proof fn data_lines_are_read_in_order(x: Seq<char>, other: Seq<char>, rest: Seq<char>)
    requires
        !x.contains('\n'),
        !other.contains('\n'),
        !begins(other, "data:"@),
    ensures
        data_lines(("data:"@ + x).push('\n') + rest) == seq![trimmed(x)] + data_lines(rest),
        data_lines(other.push('\n') + rest) == data_lines(rest),
{
    reveal_strlit("data:");
    let line = "data:"@ + x;
    assert(!line.contains('\n')) by {
        if line.contains('\n') {
            let i = choose|i: int| 0 <= i < line.len() && line[i] == '\n';
            if i >= 5 {
                assert(x[i - 5] == '\n');
            }
        }
    }
    lines_are_read_one_by_one(line, rest);
    lines_are_read_one_by_one(other, rest);
    data_lines_carry_what_stands_behind(other, x);
    assert(Seq::<Seq<char>>::empty() + data_lines(rest) =~= data_lines(rest));
}

/// Whether a text is JSON, and neither empty nor the mark of the stream's end.
pub open spec fn is_event(text: Seq<char>, event: JsonView) -> bool {
    text.len() > 0 && text != "[DONE]"@ && json_of(text) == Some(event)
}

/// Where the fields of a chunk, a line each, are JSON together, they hold that one
/// event; where they are nothing or the mark of the stream's end, they hold none.
pub proof fn fields_that_are_one_event(chunk: Seq<char>, event: JsonView)
    ensures
        data_lines(chunk).len() > 0 && is_event(
            trimmed(joined(data_lines(chunk), seq!['\n'])),
            event,
        ) ==> chunk_events(chunk) == seq![event],
        data_lines(chunk).len() == 0 ==> chunk_events(chunk).len() == 0,
        trimmed(joined(data_lines(chunk), seq!['\n'])).len() == 0 ==> chunk_events(chunk).len() == 0,
        trimmed(joined(data_lines(chunk), seq!['\n'])) == "[DONE]"@ ==> chunk_events(chunk).len()
            == 0,
{
    reveal_strlit("\n");
    assert("\n"@ =~= seq!['\n']);
}

/// Where the fields of a chunk are no JSON together, each that is JSON holds an event:
/// all of them count, in order, and the others are passed over.
pub proof fn fields_that_are_events_each(chunk: Seq<char>)
    requires
        data_lines(chunk).len() > 0,
        json_of(trimmed(joined(data_lines(chunk), seq!['\n']))) is None,
        trimmed(joined(data_lines(chunk), seq!['\n'])).len() > 0,
        trimmed(joined(data_lines(chunk), seq!['\n'])) != "[DONE]"@,
    ensures
        chunk_events(chunk) == field_events(data_lines(chunk)),
{
    reveal_strlit("\n");
    assert("\n"@ =~= seq!['\n']);
}

/// The events of fields that hold one each: those of the first fields, and behind them
/// those of the rest; a field that is an event holds it, and any other none.
pub proof fn fields_are_read_one_by_one(
    a: Seq<Seq<char>>,
    b: Seq<Seq<char>>,
    field: Seq<char>,
    event: JsonView,
)
    ensures
        field_events(a + b) == field_events(a) + field_events(b),
        is_event(field, event) ==> field_events(seq![field]) == seq![event],
        field.len() == 0 || field == "[DONE]"@ || json_of(field) is None ==> field_events(
            seq![field],
        ).len() == 0,
    decreases a.len(),
{
    assert(seq![field].drop_first() =~= Seq::<Seq<char>>::empty());
    reveal_with_fuel(field_events, 2);
    assert(seq![event] + Seq::<JsonView>::empty() =~= seq![event]);
    if a.len() == 0 {
        assert(a + b =~= b);
        assert(field_events(a) + field_events(b) =~= field_events(b));
    } else {
        fields_are_read_one_by_one(a.drop_first(), b, field, event);
        assert((a + b).drop_first() =~= a.drop_first() + b);
        assert(field_events(a + b) =~= field_events(a) + field_events(b));
    }
}

/// A chunk of one `data:` line holds the event in it.
pub proof fn one_line_holds_its_event(x: Seq<char>, event: JsonView)
    requires
        !x.contains('\n'),
        is_event(trimmed(x), event),
    ensures
        chunk_events("data:"@ + x) == seq![event],
        chunk_events(("data:"@ + x).push('\n')) == seq![event],
{
    reveal_strlit("data:");
    last_lines_count(x, Seq::empty());
    data_lines_are_read_in_order(x, Seq::empty(), Seq::empty());
    let line = "data:"@ + x;
    assert(line.push('\n') + Seq::<char>::empty() =~= line.push('\n'));
    assert(data_lines(Seq::empty()) =~= Seq::<Seq<char>>::empty());
    assert(seq![trimmed(x)] + Seq::<Seq<char>>::empty() =~= seq![trimmed(x)]);
    reveal_with_fuel(joined, 2);
    trimming_is_idempotent(x);
    fields_that_are_one_event(line, event);
    fields_that_are_one_event(line.push('\n'), event);
}

/// Whether a text can be a whole chunk: no separator stands in it, nor begins in it.
pub open spec fn is_one_chunk(chunk: Seq<char>) -> bool {
    &&& forall|i: int| 0 <= i < chunk.len() ==> #[trigger] separator_at(chunk, i) == 0
    &&& chunk.len() > 0 ==> chunk.last() != '\n' && chunk.last() != '\r'
}

proof fn lemma_chunk_ends(chunk: Seq<char>, mark: Seq<char>, rest: Seq<char>)
    requires
        is_one_chunk(chunk),
        mark == seq!['\n', '\n'] || mark == seq!['\r', '\n', '\r', '\n'],
    ensures
        first_separator(chunk + mark + rest) == Some((chunk.len() as int, mark.len() as int)),
{
    let s = chunk + mark + rest;
    let n = chunk.len() as int;
    first_separator_is_first(s);
    assert(s[n] == mark[0] && s[n + 1] == mark[1]);
    if mark.len() == 4 {
        assert(s[n + 2] == mark[2] && s[n + 3] == mark[3]);
    }
    assert(separator_at(s, n) == mark.len());
    assert forall|j: int| 0 <= j < n implies separator_at(s, j) == 0 by {
        assert(separator_at(chunk, j) == 0);
        assert(s[n - 1] == chunk[n - 1]);
        assert(s[j] == chunk[j]);
        if j + 1 < n {
            assert(s[j + 1] == chunk[j + 1]);
        }
        if j + 2 < n {
            assert(s[j + 2] == chunk[j + 2]);
        }
        if j + 3 < n {
            assert(s[j + 3] == chunk[j + 3]);
        }
    }
}

/// A chunk with a separator behind it is complete: its events come first, then those of
/// the rest, and what is left is what is left of the rest.
pub proof fn complete_chunks_are_read(chunk: Seq<char>, mark: Seq<char>, rest: Seq<char>)
    requires
        is_one_chunk(chunk),
        mark == seq!['\n', '\n'] || mark == seq!['\r', '\n', '\r', '\n'],
    ensures
        complete_events(chunk + mark + rest) == chunk_events(chunk) + complete_events(rest),
        leftover(chunk + mark + rest) == leftover(rest),
        text_events(chunk + mark + rest) == chunk_events(chunk) + text_events(rest),
{
    let s = chunk + mark + rest;
    lemma_chunk_ends(chunk, mark, rest);
    assert(s.take(chunk.len() as int) =~= chunk);
    assert(s.skip(chunk.len() + mark.len() as int) =~= rest);
    assert(text_events(s) =~= chunk_events(chunk) + text_events(rest));
}

/// Without a separator nothing is complete, and all is left: it counts at the end,
/// unless it is blank.
pub proof fn incomplete_chunks_wait(s: Seq<char>)
    requires
        forall|i: int| 0 <= i < s.len() ==> #[trigger] separator_at(s, i) == 0,
    ensures
        complete_events(s).len() == 0,
        leftover(s) == s,
        trimmed(s).len() > 0 ==> text_events(s) == chunk_events(s),
        trimmed(s).len() == 0 ==> text_events(s).len() == 0,
{
    first_separator_is_first(s);
    assert(Seq::<JsonView>::empty() + chunk_events(s) =~= chunk_events(s));
}

/// What is left of a text is its end, and has no separator in it.
pub proof fn leftovers_are_ends(s: Seq<char>)
    ensures
        ends(s, leftover(s)),
        first_separator(leftover(s)) is None,
    decreases s.len(),
{
    match first_separator(s) {
        Some((k, n)) => {
            lemma_separator_fits(s);
            let rest = s.skip(k + n);
            leftovers_are_ends(rest);
            let left = leftover(rest);
            assert(s.skip(s.len() - left.len()) =~= rest.skip(rest.len() - left.len()));
        },
        None => {
            assert(s.skip(0) =~= s);
        },
    }
}

proof fn lemma_separator_fits(s: Seq<char>)
    ensures
        first_separator(s) matches Some((k, n)) ==> 0 <= k && 0 < n && k + n <= s.len(),
{
    first_separator_is_first(s);
}

/// Every text of an ordinary length can be read, as a whole and chunk by chunk.
pub proof fn ordinary_texts_can_be_read(s: Seq<char>)
    requires
        s.len() <= 0x7fff_ffff,
    ensures
        chunks_fit(s),
        last_chunk_fits(s),
        last_chunk_fits(leftover(s)),
{
    short_texts_fit(s);
}

/// Reading stops at a chunk that reports an error, with all that stands behind it
/// untaken; it goes on behind one that does not.
pub proof fn reading_stops_at_an_error(
    state: StreamStateView,
    chunk: Seq<char>,
    mark: Seq<char>,
    rest: Seq<char>,
)
    requires
        is_one_chunk(chunk),
        mark == seq!['\n', '\n'] || mark == seq!['\r', '\n', '\r', '\n'],
    ensures
        run(state, chunk_events(chunk)).error is Some ==> untaken(chunk + mark + rest, state)
            == rest,
        run(state, chunk_events(chunk)).error is None ==> untaken(chunk + mark + rest, state)
            == untaken(rest, run(state, chunk_events(chunk)).state),
{
    let s = chunk + mark + rest;
    lemma_chunk_ends(chunk, mark, rest);
    first_separator_is_first(s);
    assert(s.take(chunk.len() as int) =~= chunk);
    assert(s.skip(chunk.len() + mark.len() as int) =~= rest);
}

} // verus!
