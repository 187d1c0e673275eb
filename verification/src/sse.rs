//! Server-sent events: cutting a text into chunks, and reading their events.
//!
//! A chunk ends at an empty line. Its events stand in its `data:` lines, either
//! one event over all of them or one in each.

use crate::json::{json_of, parse_json, JsonView, MAX_JSON_CHARS};
use crate::stream_event::{
    fresh_state, process_stream_event, run, runs_compose, CodexStreamState, StreamFault,
    StreamStateView,
};
use crate::text::{
    begins, blank_is_all_white, chars_of, is_blank, is_white, join, joined, matches_at, nonempty, nonempty_preserve, opt_text,
    same_text, texts, trim, trim_bounds, trimmed, trimming_drops_white_at_the_end,
    trimming_makes_nothing_longer,
};
use crate::utf8_stream::{
    append_utf8_stream_chunk, decoded, decoding_makes_nothing_longer, lemma_encode_concat,
    lemma_encode_injective,
};
use vstd::prelude::*;
use vstd::slice::*;
use vstd::string::*;
use vstd::utf8::*;

verus! {

/// The length of the chunk separator at index `i`: an empty line, with either
/// kind of line end; 0 where none stands there.
pub open spec fn separator_at(s: Seq<char>, i: int) -> int {
    if 0 <= i && i + 2 <= s.len() && s[i] == '\n' && s[i + 1] == '\n' {
        2
    } else if 0 <= i && i + 4 <= s.len() && s[i] == '\r' && s[i + 1] == '\n' && s[i + 2] == '\r'
        && s[i + 3] == '\n' {
        4
    } else {
        0
    }
}

/// The first separator from index `i` on: where it stands, and its length.
pub open spec fn separator_from(s: Seq<char>, i: int) -> Option<(int, int)>
    decreases s.len() - i,
{
    if i < 0 || i >= s.len() {
        None
    } else if separator_at(s, i) > 0 {
        Some((i, separator_at(s, i)))
    } else {
        separator_from(s, i + 1)
    }
}

/// The first separator: where it stands, and its length, in characters.
pub open spec fn first_separator(s: Seq<char>) -> Option<(int, int)> {
    separator_from(s, 0)
}

proof fn lemma_separator_from(s: Seq<char>, i: int)
    requires
        0 <= i,
    ensures
        match separator_from(s, i) {
            Some((k, n)) => i <= k && n > 0 && k + n <= s.len() && n == separator_at(s, k)
                && forall|j: int| i <= j < k ==> separator_at(s, j) == 0,
            None => forall|j: int| i <= j ==> separator_at(s, j) == 0,
        },
    decreases s.len() - i,
{
    if i < s.len() && separator_at(s, i) == 0 {
        lemma_separator_from(s, i + 1);
    }
}

/// The first separator is a separator, it fits, and none stands before it; and
/// where there is none, none stands anywhere.
pub proof fn first_separator_is_first(s: Seq<char>)
    ensures
        match first_separator(s) {
            Some((k, n)) => 0 <= k && n > 0 && k + n <= s.len() && n == separator_at(s, k)
                && forall|j: int| 0 <= j < k ==> separator_at(s, j) == 0,
            None => forall|j: int| 0 <= j ==> separator_at(s, j) == 0,
        },
{
    lemma_separator_from(s, 0);
}

/// How many bytes the UTF-8 encoding of `c` takes.
fn utf8_width(c: char) -> (r: usize)
    ensures
        r == encode_scalar(c as u32).len(),
        r <= 4,
{
    let v: u32 = c as u32;
    if v <= 0x7f {
        1
    } else if v <= 0x7ff {
        2
    } else if v <= 0xffff {
        3
    } else {
        4
    }
}

proof fn lemma_encode_one_more(s: Seq<char>, i: int)
    requires
        0 <= i < s.len(),
    ensures
        encode_utf8(s.take(i + 1)) == encode_utf8(s.take(i)) + encode_scalar(s[i] as u32),
        encode_utf8(s.take(i + 1)).len() <= encode_utf8(s).len(),
{
    let one = seq![s[i]];
    assert(s.take(i + 1) =~= s.take(i) + one);
    lemma_encode_concat(s.take(i), one);
    assert(one.drop_first() =~= Seq::<char>::empty());
    reveal_with_fuel(encode_utf8, 2);
    assert(encode_utf8(one) =~= encode_scalar(s[i] as u32));
    assert(s =~= s.take(i + 1) + s.skip(i + 1));
    lemma_encode_concat(s.take(i + 1), s.skip(i + 1));
}

/// The first chunk separator in `buffer`: the byte index where it stands, and
/// its length.
pub fn find_sse_separator(buffer: &str) -> (r: Option<(usize, usize)>)
    ensures
        match first_separator(buffer@) {
            Some((k, n)) => r matches Some((at, len)) && at == encode_utf8(buffer@.take(k)).len()
                && len == n,
            None => r is None,
        },
{
    let cs = chars_of(buffer);
    let total: usize = buffer.as_bytes().len();
    let n: usize = cs.len();
    let mut i: usize = 0;
    let mut at: usize = 0;
    assert(buffer@.take(0) =~= Seq::<char>::empty());
    while i < n
        invariant
            i <= n,
            n == cs@.len(),
            cs@ == buffer@,
            total == encode_utf8(buffer@).len(),
            at == encode_utf8(buffer@.take(i as int)).len(),
            first_separator(buffer@) == separator_from(buffer@, i as int),
        decreases n - i,
    {
        if n - i >= 2 && cs[i] == '\n' && cs[i + 1] == '\n' {
            return Some((at, 2));
        }
        if n - i >= 4 && cs[i] == '\r' && cs[i + 1] == '\n' && cs[i + 2] == '\r' && cs[i + 3]
            == '\n' {
            return Some((at, 4));
        }
        proof {
            lemma_encode_one_more(buffer@, i as int);
        }
        at += utf8_width(cs[i]);
        i += 1;
    }
    None
}

/// Where the line that begins at index `i` ends.
pub open spec fn line_end(s: Seq<char>, i: int) -> int
    decreases s.len() - i,
{
    if i < 0 || i >= s.len() || s[i] == '\n' {
        i
    } else {
        line_end(s, i + 1)
    }
}

/// A line ends at its beginning or later, and within the text.
pub proof fn lemma_line_end(s: Seq<char>, i: int)
    requires
        0 <= i <= s.len(),
    ensures
        i <= line_end(s, i) <= s.len(),
    decreases s.len() - i,
{
    if i < s.len() && s[i] != '\n' {
        lemma_line_end(s, i + 1);
    }
}

/// What a line carries, trimmed, if it is a `data:` line.
pub open spec fn data_field(line: Seq<char>) -> Option<Seq<char>> {
    if begins(line, "data:"@) {
        Some(trimmed(line.skip(5)))
    } else {
        None
    }
}

/// What the `data:` lines of a chunk carry, in order. (A carriage return before
/// a line feed is white space, and goes where the field is trimmed.)
pub open spec fn data_lines(s: Seq<char>) -> Seq<Seq<char>>
    decreases s.len(),
{
    if s.len() == 0 {
        Seq::empty()
    } else {
        let e = line_end(s, 0);
        proof {
            lemma_line_end(s, 0);
        }
        let later = if e < s.len() {
            data_lines(s.skip(e + 1))
        } else {
            Seq::empty()
        };
        match data_field(s.take(e)) {
            Some(t) => seq![t] + later,
            None => later,
        }
    }
}

/// A field that holds no event: an empty one, or the mark of the stream's end.
pub open spec fn holds_nothing(field: Seq<char>) -> bool {
    field.len() == 0 || field == "[DONE]"@
}

/// The events of fields that each hold one; a field that is no JSON is passed over.
pub open spec fn field_events(fields: Seq<Seq<char>>) -> Seq<JsonView>
    decreases fields.len(),
{
    if fields.len() == 0 {
        Seq::empty()
    } else {
        let later = field_events(fields.drop_first());
        if holds_nothing(fields[0]) {
            later
        } else {
            match json_of(fields[0]) {
                Some(event) => seq![event] + later,
                None => later,
            }
        }
    }
}

/// The events of a chunk whose `data:` lines carry `fields`.
pub open spec fn fields_events(fields: Seq<Seq<char>>) -> Seq<JsonView> {
    let whole = trimmed(joined(fields, "\n"@));
    if fields.len() == 0 || holds_nothing(whole) {
        Seq::empty()
    } else {
        match json_of(whole) {
            Some(event) => seq![event],
            None => field_events(fields),
        }
    }
}

/// The events of a chunk, in order.
pub open spec fn chunk_events(chunk: Seq<char>) -> Seq<JsonView> {
    fields_events(data_lines(chunk))
}

/// What the `data:` lines of a chunk carry, in order.
fn read_data_lines(chunk: &str) -> (r: Vec<String>)
    ensures
        texts(r@) == data_lines(chunk@),
{
    let cs = chars_of(chunk);
    let prefix = chars_of("data:");
    let n: usize = cs.len();
    let mut out: Vec<String> = Vec::new();
    let mut start: usize = 0;
    proof {
        reveal_strlit("data:");
        assert(chunk@.skip(0) =~= chunk@);
        assert(texts(out@) + data_lines(chunk@) =~= data_lines(chunk@));
    }
    while start < n
        invariant
            start <= n,
            n == cs@.len(),
            cs@ == chunk@,
            prefix@ == "data:"@,
            prefix@.len() == 5,
            data_lines(chunk@) == texts(out@) + data_lines(chunk@.skip(start as int)),
        decreases n - start,
    {
        let ghost tail = chunk@.skip(start as int);
        let ghost before = texts(out@);
        let mut end: usize = start;
        while end < n && cs[end] != '\n'
            invariant
                start <= end <= n,
                n == cs@.len(),
                tail == cs@.skip(start as int),
                line_end(tail, 0) == line_end(tail, end - start),
            decreases n - end,
        {
            assert(tail[end - start] == cs@[end as int]);
            end += 1;
        }
        assert(end < n ==> tail[end - start] == cs@[end as int]);
        let line = slice_subrange(cs.as_slice(), start, end);
        assert(line@ =~= tail.take(end - start));
        let ghost later = if end < n {
            data_lines(tail.skip(end - start + 1))
        } else {
            Seq::empty()
        };
        proof {
            if line@.len() >= 5 {
                assert(line@.subrange(0, 5) =~= line@.take(5));
            }
        }
        if matches_at(line, prefix.as_slice(), 0) {
            let field = slice_subrange(line, 5, line.len());
            let (a, b) = trim_bounds(field);
            assert(field@ =~= line@.skip(5));
            let from: usize = start + 5 + a;
            let to: usize = start + 5 + b;
            let text = chunk.substring_char(from, to).to_owned();
            assert(text@ =~= field@.subrange(a as int, b as int));
            out.push(text);
            assert(texts(out@) =~= before.push(text@));
            assert(before + (seq![text@] + later) =~= texts(out@) + later);
        }
        if end < n {
            assert(tail.skip(end - start + 1) =~= chunk@.skip(end + 1));
            start = end + 1;
        } else {
            assert(chunk@.skip(n as int) =~= Seq::<char>::empty());
            start = end;
        }
    }
    assert(chunk@.skip(start as int) =~= Seq::<char>::empty());
    assert(texts(out@) + Seq::<Seq<char>>::empty() =~= texts(out@));
    out
}

/// Whether a field holds no event.
fn is_nothing(field: &str) -> (r: bool)
    ensures
        r == holds_nothing(field@),
{
    field.is_empty() || same_text(field, "[DONE]")
}

/// What texts take up together, each with a separator of one character.
spec fn room_of(parts: Seq<Seq<char>>) -> nat
    decreases parts.len(),
{
    if parts.len() == 0 {
        0
    } else {
        room_of(parts.drop_last()) + parts.last().len() + 1
    }
}

proof fn lemma_room_before(first: Seq<char>, parts: Seq<Seq<char>>)
    ensures
        room_of(seq![first] + parts) == first.len() + 1 + room_of(parts),
    decreases parts.len(),
{
    let all = seq![first] + parts;
    if parts.len() == 0 {
        assert(all.drop_last() =~= Seq::<Seq<char>>::empty());
        assert(all.last() == first);
        reveal_with_fuel(room_of, 2);
    } else {
        lemma_room_before(first, parts.drop_last());
        assert(all.drop_last() =~= seq![first] + parts.drop_last());
        assert(all.last() == parts.last());
    }
}

proof fn lemma_joined_room(parts: Seq<Seq<char>>, sep: Seq<char>)
    requires
        sep.len() == 1,
    ensures
        joined(parts, sep).len() <= room_of(parts),
        forall|i: int| 0 <= i < parts.len() ==> (#[trigger] parts[i]).len() <= room_of(parts),
    decreases parts.len(),
{
    if parts.len() > 0 {
        lemma_joined_room(parts.drop_last(), sep);
        assert forall|i: int| 0 <= i < parts.len() implies (#[trigger] parts[i]).len() <= room_of(
            parts,
        ) by {
            if i < parts.len() - 1 {
                assert(parts[i] == parts.drop_last()[i]);
            }
        }
    }
}

proof fn lemma_data_lines_room(s: Seq<char>)
    ensures
        room_of(data_lines(s)) <= s.len(),
    decreases s.len(),
{
    if s.len() > 0 {
        let e = line_end(s, 0);
        lemma_line_end(s, 0);
        let later = if e < s.len() {
            data_lines(s.skip(e + 1))
        } else {
            Seq::empty()
        };
        if e < s.len() {
            lemma_data_lines_room(s.skip(e + 1));
        }
        if let Some(field) = data_field(s.take(e)) {
            reveal_strlit("data:");
            trimming_makes_nothing_longer(s.take(e).skip(5));
            lemma_room_before(field, later);
        }
    }
}

/// No text that a chunk hands to the JSON parser is longer than the chunk.
proof fn lemma_fields_fit(chunk: Seq<char>)
    ensures
        trimmed(joined(data_lines(chunk), "\n"@)).len() <= chunk.len(),
        forall|i: int|
            0 <= i < data_lines(chunk).len() ==> (#[trigger] data_lines(chunk)[i]).len()
                <= chunk.len(),
{
    reveal_strlit("\n");
    lemma_data_lines_room(chunk);
    lemma_joined_room(data_lines(chunk), "\n"@);
    trimming_makes_nothing_longer(joined(data_lines(chunk), "\n"@));
}

/// Takes the events of fields that each hold one into the state.
fn process_fields(
    fields: &Vec<String>,
    state: &mut CodexStreamState,
    pieces: &mut Vec<String>,
) -> (r: Result<(), StreamFault>)
    requires
        forall|i: int| 0 <= i < fields@.len() ==> (#[trigger] fields@[i])@.len() <= MAX_JSON_CHARS,
    ensures
        ({
            let after = run(old(state)@, field_events(texts(fields@)));
            &&& final(state)@ == after.state
            &&& texts(final(pieces)@) == texts(old(pieces)@) + after.pieces
            &&& after.error matches Some(m) ==> (r matches Err(fault) && fault.message@ == m)
            &&& after.error is None ==> r is Ok
        }),
{
    let ghost all = texts(fields@);
    let ghost goal = run(state@, field_events(all));
    let ghost begun = texts(pieces@);
    let mut i: usize = 0;
    proof {
        assert(all.skip(0) =~= all);
    }
    while i < fields.len()
        invariant
            i <= fields@.len(),
            forall|k: int|
                0 <= k < fields@.len() ==> (#[trigger] fields@[k])@.len() <= MAX_JSON_CHARS,
            all == texts(fields@),
            goal == run(old(state)@, field_events(all)),
            begun == texts(old(pieces)@),
            begun + goal.pieces == texts(pieces@) + run(
                state@,
                field_events(all.skip(i as int)),
            ).pieces,
            goal.state == run(state@, field_events(all.skip(i as int))).state,
            goal.error == run(state@, field_events(all.skip(i as int))).error,
        decreases fields@.len() - i,
    {
        let ghost later = field_events(all.skip(i + 1));
        proof {
            assert(all.skip(i as int).drop_first() =~= all.skip(i + 1));
            assert(all.skip(i as int)[0] == fields@[i as int]@);
        }
        let field = fields[i].as_str();
        if !is_nothing(field) {
            if let Some(event) = parse_json(field) {
                let ghost events = seq![event@] + later;
                let ghost before = texts(pieces@);
                assert(events.drop_first() =~= later);
                match process_stream_event(&event, state) {
                    Ok(Some(piece)) => {
                        pieces.push(piece);
                        proof {
                            assert(texts(pieces@) =~= before.push(piece@));
                            let rest = run(state@, later).pieces;
                            assert(before + (seq![piece@] + rest) =~= texts(pieces@) + rest);
                        }
                    },
                    Ok(None) => {},
                    Err(fault) => {
                        assert(before + Seq::<Seq<char>>::empty() =~= before);
                        return Err(fault);
                    },
                }
            }
        }
        i += 1;
    }
    assert(texts(pieces@) + Seq::<Seq<char>>::empty() =~= texts(pieces@));
    Ok(())
}

/// Takes the events of a chunk into the state, up to one that reports an error,
/// and adds the pieces of text that they carry to `pieces`.
pub fn process_sse_chunk(
    chunk: &str,
    state: &mut CodexStreamState,
    pieces: &mut Vec<String>,
) -> (r: Result<(), StreamFault>)
    requires
        chunk@.len() <= MAX_JSON_CHARS,
    ensures
        ({
            let after = run(old(state)@, chunk_events(chunk@));
            &&& final(state)@ == after.state
            &&& texts(final(pieces)@) == texts(old(pieces)@) + after.pieces
            &&& after.error matches Some(m) ==> (r matches Err(fault) && fault.message@ == m)
            &&& after.error is None ==> r is Ok
        }),
{
    let ghost before = texts(pieces@);
    assert(before + Seq::<Seq<char>>::empty() =~= before);
    let fields = read_data_lines(chunk);
    proof {
        lemma_fields_fit(chunk@);
        assert forall|i: int| 0 <= i < fields@.len() implies (#[trigger] fields@[i])@.len()
            <= MAX_JSON_CHARS by {
            assert(fields@[i]@ == data_lines(chunk@)[i]);
        }
    }
    if fields.is_empty() {
        return Ok(());
    }
    let all = join(&fields, "\n");
    let whole = trim(all.as_str());
    if is_nothing(whole) {
        return Ok(());
    }
    match parse_json(whole) {
        Some(event) => {
            proof {
                let events = seq![event@];
                assert(events.drop_first() =~= Seq::<JsonView>::empty());
                reveal_with_fuel(run, 2);
            }
            match process_stream_event(&event, state) {
                Ok(Some(piece)) => {
                    pieces.push(piece);
                    assert(texts(pieces@) =~= before + seq![piece@]);
                    assert(seq![piece@] + Seq::<Seq<char>>::empty() =~= seq![piece@]);
                    Ok(())
                },
                Ok(None) => Ok(()),
                Err(fault) => Err(fault),
            }
        },
        None => process_fields(&fields, state, pieces),
    }
}

/// Takes the events of a chunk into the state, up to one that reports an error.
pub fn process_sse_chunk_sync(chunk: &str, state: &mut CodexStreamState) -> (r: Result<
    (),
    StreamFault,
>)
    requires
        chunk@.len() <= MAX_JSON_CHARS,
    ensures
        ({
            let after = run(old(state)@, chunk_events(chunk@));
            &&& final(state)@ == after.state
            &&& after.error matches Some(m) ==> (r matches Err(fault) && fault.message@ == m)
            &&& after.error is None ==> r is Ok
        }),
{
    let mut pieces: Vec<String> = Vec::new();
    process_sse_chunk(chunk, state, &mut pieces)
}

/// The events of the complete chunks of a text, in order.
pub open spec fn complete_events(s: Seq<char>) -> Seq<JsonView>
    decreases s.len(),
{
    match first_separator(s) {
        Some((k, n)) => {
            proof {
                first_separator_is_first(s);
            }
            chunk_events(s.take(k)) + complete_events(s.skip(k + n))
        },
        None => Seq::empty(),
    }
}

/// What stands behind the last complete chunk of a text.
pub open spec fn leftover(s: Seq<char>) -> Seq<char>
    decreases s.len(),
{
    match first_separator(s) {
        Some((k, n)) => {
            proof {
                first_separator_is_first(s);
            }
            leftover(s.skip(k + n))
        },
        None => s,
    }
}

/// Whether each complete chunk of a text can be read as JSON.
pub open spec fn chunks_fit(s: Seq<char>) -> bool
    decreases s.len(),
{
    match first_separator(s) {
        Some((k, n)) => {
            proof {
                first_separator_is_first(s);
            }
            k <= MAX_JSON_CHARS && chunks_fit(s.skip(k + n))
        },
        None => true,
    }
}

/// Whether what is left behind the complete chunks of a text, unless it is blank,
/// can be read as JSON.
pub open spec fn last_chunk_fits(last: Seq<char>) -> bool {
    trimmed(last).len() > 0 ==> last.len() <= MAX_JSON_CHARS
}

/// A text that can be read as JSON has no chunk that cannot.
pub proof fn short_texts_fit(s: Seq<char>)
    requires
        s.len() <= MAX_JSON_CHARS,
    ensures
        chunks_fit(s),
        leftover(s).len() <= s.len(),
    decreases s.len(),
{
    first_separator_is_first(s);
    if let Some((k, n)) = first_separator(s) {
        short_texts_fit(s.skip(k + n));
    }
}

proof fn lemma_separator_of_skipped(s: Seq<char>, by: int, i: int)
    requires
        0 <= by <= s.len(),
        0 <= i,
    ensures
        separator_from(s, by + i) == (match separator_from(s.skip(by), i) {
            Some((k, n)) => Some((k + by, n)),
            None => None,
        }),
    decreases s.len() - by - i,
{
    let t = s.skip(by);
    if i < t.len() {
        assert(separator_at(s, by + i) == separator_at(t, i));
        if separator_at(t, i) == 0 {
            lemma_separator_of_skipped(s, by, i + 1);
        }
    }
}

/// Where what is left behind the complete chunks of a text begins, if each of them
/// can be read as JSON.
fn find_leftover(s: &str) -> (r: Option<usize>)
    ensures
        r is Some <==> chunks_fit(s@),
        r matches Some(start) ==> start <= s@.len() && s@.skip(start as int) == leftover(s@),
{
    let cs = chars_of(s);
    let n: usize = cs.len();
    let mut start: usize = 0;
    let mut i: usize = 0;
    assert(s@.skip(0) =~= s@);
    while i < n
        invariant
            start <= i <= n,
            n == cs@.len(),
            cs@ == s@,
            chunks_fit(s@) == chunks_fit(s@.skip(start as int)),
            leftover(s@) == leftover(s@.skip(start as int)),
            separator_from(s@, start as int) == separator_from(s@, i as int),
        decreases n - i,
    {
        let len: usize = if n - i >= 2 && cs[i] == '\n' && cs[i + 1] == '\n' {
            2
        } else if n - i >= 4 && cs[i] == '\r' && cs[i + 1] == '\n' && cs[i + 2] == '\r' && cs[i
            + 3] == '\n' {
            4
        } else {
            0
        };
        assert(len == separator_at(s@, i as int));
        if len > 0 {
            proof {
                lemma_separator_of_skipped(s@, start as int, 0);
                assert(s@.skip(start as int).skip(i - start + len) =~= s@.skip(i + len));
            }
            if i - start > MAX_JSON_CHARS {
                return None;
            }
            i += len;
            start = i;
        } else {
            i += 1;
        }
    }
    proof {
        lemma_separator_of_skipped(s@, start as int, 0);
    }
    Some(start)
}

/// Whether each complete chunk of a text can be read as JSON.
pub fn do_chunks_fit(s: &str) -> (r: bool)
    ensures
        r == chunks_fit(s@),
{
    find_leftover(s).is_some()
}

/// Whether each chunk of a text that is over can be read as JSON.
pub fn does_text_fit(s: &str) -> (r: bool)
    ensures
        r == (chunks_fit(s@) && last_chunk_fits(leftover(s@))),
{
    match find_leftover(s) {
        Some(start) => {
            let n: usize = s.unicode_len();
            assert(s@.subrange(start as int, n as int) =~= s@.skip(start as int));
            does_last_chunk_fit(s.substring_char(start, n))
        },
        None => false,
    }
}

/// Whether what is left behind the complete chunks of a text, unless it is blank,
/// can be read as JSON.
pub fn does_last_chunk_fit(last: &str) -> (r: bool)
    ensures
        r == last_chunk_fits(last@),
{
    is_blank(last) || last.unicode_len() <= MAX_JSON_CHARS
}

/// Whether each chunk that bytes complete, behind the text in `buffer` and the cut
/// character in `pending`, can be read as JSON.
pub open spec fn arrival_fits(buffer: Seq<char>, pending: Seq<u8>, bytes: Seq<u8>) -> bool {
    !decoded(pending + bytes).broken ==> chunks_fit(buffer + decoded(pending + bytes).text)
}

/// Whether each chunk that bytes complete, behind the text in `buffer` and the cut
/// character in `pending`, can be read as JSON.
pub fn does_arrival_fit(buffer: &str, pending: &[u8], bytes: &[u8]) -> (r: bool)
    ensures
        r == arrival_fits(buffer@, pending@, bytes@),
{
    let most: u128 = buffer.unicode_len() as u128 + pending.len() as u128 + bytes.len() as u128;
    if most <= MAX_JSON_CHARS as u128 {
        proof {
            decoding_makes_nothing_longer(pending@ + bytes@);
            short_texts_fit(buffer@ + decoded(pending@ + bytes@).text);
        }
        return true;
    }
    let mut text = buffer.to_owned();
    let mut rest: Vec<u8> = Vec::new();
    rest.extend_from_slice(pending);
    assert(rest@ =~= pending@);
    match append_utf8_stream_chunk(&mut text, &mut rest, bytes) {
        Ok(()) => do_chunks_fit(text.as_str()),
        Err(_) => true,
    }
}

/// What stands behind the chunks of a text that are taken into a state: all the
/// complete ones, or those up to one that reports an error.
pub open spec fn untaken(s: Seq<char>, state: StreamStateView) -> Seq<char>
    decreases s.len(),
{
    match first_separator(s) {
        Some((k, n)) => {
            proof {
                first_separator_is_first(s);
            }
            let after = run(state, chunk_events(s.take(k)));
            if after.error is Some {
                s.skip(k + n)
            } else {
                untaken(s.skip(k + n), after.state)
            }
        },
        None => s,
    }
}

/// The events of a text that is over: those of its complete chunks, and of what
/// is left, unless that is blank.
pub open spec fn text_events(s: Seq<char>) -> Seq<JsonView> {
    let last = leftover(s);
    if trimmed(last).len() == 0 {
        complete_events(s)
    } else {
        complete_events(s) + chunk_events(last)
    }
}

/// Where no event reports an error, every complete chunk is taken.
pub proof fn untaken_is_leftover(s: Seq<char>, state: StreamStateView)
    requires
        run(state, complete_events(s)).error is None,
    ensures
        untaken(s, state) == leftover(s),
    decreases s.len(),
{
    first_separator_is_first(s);
    if let Some((k, n)) = first_separator(s) {
        runs_compose(state, chunk_events(s.take(k)), complete_events(s.skip(k + n)));
        let after = run(state, chunk_events(s.take(k)));
        untaken_is_leftover(s.skip(k + n), after.state);
    }
}

proof fn lemma_separator_found(s: Seq<char>, i: int, k: int)
    requires
        0 <= i <= k < s.len(),
        separator_at(s, k) > 0,
        forall|j: int| i <= j < k ==> separator_at(s, j) == 0,
    ensures
        separator_from(s, i) == Some((k, separator_at(s, k))),
    decreases k - i,
{
    if i < k {
        lemma_separator_found(s, i + 1, k);
    }
}

/// More text does not move the first separator.
pub proof fn first_separator_is_stable(a: Seq<char>, b: Seq<char>)
    requires
        first_separator(a) is Some,
    ensures
        first_separator(a + b) == first_separator(a),
{
    first_separator_is_first(a);
    let (k, n) = first_separator(a)->0;
    let s = a + b;
    assert forall|j: int| 0 <= j < k implies separator_at(s, j) == 0 by {
        assert(separator_at(a, j) == 0);
        assert(s[j] == a[j] && s[j + 1] == a[j + 1]);
        if separator_at(s, j) == 4 && j + 4 > a.len() {
            assert(n == 2 && j + 1 == k);
            assert(s[j + 2] == a[k + 1]);
        }
    }
    lemma_separator_found(s, 0, k);
}

/// Cutting a stream into chunks does not depend on how the stream arrives: what
/// is left of the first part, with the second part behind it, holds the chunks
/// that are still to come.
pub proof fn framing_is_arrival_independent(a: Seq<char>, b: Seq<char>)
    ensures
        complete_events(a + b) == complete_events(a) + complete_events(leftover(a) + b),
        leftover(a + b) == leftover(leftover(a) + b),
        text_events(a + b) == complete_events(a) + text_events(leftover(a) + b),
    decreases a.len(),
{
    first_separator_is_first(a);
    match first_separator(a) {
        Some((k, n)) => {
            first_separator_is_stable(a, b);
            assert((a + b).take(k) =~= a.take(k));
            assert((a + b).skip(k + n) =~= a.skip(k + n) + b);
            framing_is_arrival_independent(a.skip(k + n), b);
        },
        None => {},
    }
    assert(complete_events(a + b) =~= complete_events(a) + complete_events(leftover(a) + b));
    assert(text_events(a + b) =~= complete_events(a) + text_events(leftover(a) + b));
}

proof fn lemma_boundary(a: Seq<char>, b: Seq<char>)
    ensures
        valid_utf8(encode_utf8(a + b)),
        is_char_boundary(encode_utf8(a + b), encode_utf8(a).len() as int),
    decreases a.len(),
{
    let s = a + b;
    encode_utf8_valid_utf8(s);
    if a.len() == 0 {
    } else {
        lemma_boundary(a.drop_first(), b);
        assert(s.drop_first() =~= a.drop_first() + b);
        encode_utf8_first_scalar(s);
        assert(pop_first_scalar(encode_utf8(s)) =~= encode_utf8(s.drop_first()));
        lemma_encode_concat(a, b);
    }
}

/// Splits a text at a byte index at which the characters `a` end.
fn split_text<'a>(s: &'a str, at: usize, Ghost(a): Ghost<Seq<char>>) -> (r: (&'a str, &'a str))
    requires
        begins(s@, a),
        at == encode_utf8(a).len(),
    ensures
        r.0@ == a,
        r.1@ == s@.skip(a.len() as int),
{
    let ghost b = s@.skip(a.len() as int);
    proof {
        assert(s@ =~= a + b);
        lemma_boundary(a, b);
        lemma_encode_concat(a, b);
    }
    let r = s.split_at(at);
    proof {
        assert(encode_utf8(r.0@) =~= encode_utf8(a));
        assert(encode_utf8(r.1@) =~= encode_utf8(b));
        lemma_encode_injective(r.0@, a);
        lemma_encode_injective(r.1@, b);
    }
    r
}

/// Takes the complete chunks of `buffer` out of it and their events into the
/// state, up to an event that reports an error, and adds the pieces of text
/// that they carry to `pieces`.
pub fn process_sse_buffer(
    buffer: &mut String,
    state: &mut CodexStreamState,
    pieces: &mut Vec<String>,
) -> (r: Result<(), StreamFault>)
    requires
        chunks_fit(old(buffer)@),
    ensures
        ({
            let after = run(old(state)@, complete_events(old(buffer)@));
            &&& final(state)@ == after.state
            &&& final(buffer)@ == untaken(old(buffer)@, old(state)@)
            &&& texts(final(pieces)@) == texts(old(pieces)@) + after.pieces
            &&& after.error matches Some(m) ==> (r matches Err(fault) && fault.message@ == m)
            &&& after.error is None ==> r is Ok
        }),
{
    let ghost goal = run(state@, complete_events(buffer@));
    let ghost rest = untaken(buffer@, state@);
    let ghost begun = texts(pieces@);
    loop
        invariant
            chunks_fit(buffer@),
            goal == run(old(state)@, complete_events(old(buffer)@)),
            rest == untaken(old(buffer)@, old(state)@),
            begun == texts(old(pieces)@),
            begun + goal.pieces == texts(pieces@) + run(state@, complete_events(buffer@)).pieces,
            goal.state == run(state@, complete_events(buffer@)).state,
            goal.error == run(state@, complete_events(buffer@)).error,
            rest == untaken(buffer@, state@),
        decreases buffer@.len(),
    {
        proof {
            first_separator_is_first(buffer@);
        }
        match find_sse_separator(buffer.as_str()) {
            Some((at, len)) => {
                let ghost (k, _) = first_separator(buffer@).unwrap();
                let ghost all = buffer@;
                let ghost before = texts(pieces@);
                let ghost events = chunk_events(all.take(k));
                let ghost later = complete_events(all.skip(k + len));
                proof {
                    runs_compose(state@, events, later);
                }
                let (head, tail) = split_text(buffer.as_str(), at, Ghost(all.take(k)));
                let ghost mark = tail@.take(len as int);
                proof {
                    lemma_mark_is_ascii(all, k);
                    assert(mark =~= all.subrange(k, k + len));
                }
                let (_, behind) = split_text(tail, len, Ghost(mark));
                assert(behind@ =~= all.skip(k + len));
                let chunk = head.to_owned();
                let next = behind.to_owned();
                *buffer = next;
                let ghost here = run(state@, events);
                let outcome = process_sse_chunk(chunk.as_str(), state, pieces);
                proof {
                    let p = run(state@, later).pieces;
                    assert(before + (here.pieces + p) =~= texts(pieces@) + p);
                }
                if let Err(fault) = outcome {
                    return Err(fault);
                }
            },
            None => {
                assert(texts(pieces@) + Seq::<Seq<char>>::empty() =~= texts(pieces@));
                return Ok(());
            },
        }
    }
}

proof fn lemma_mark_is_ascii(s: Seq<char>, k: int)
    requires
        separator_at(s, k) > 0,
    ensures
        encode_utf8(s.subrange(k, k + separator_at(s, k))).len() == separator_at(s, k),
{
    let mark = s.subrange(k, k + separator_at(s, k));
    assert(is_ascii_chars(mark));
    is_ascii_chars_encode_utf8(mark);
}

/// Takes the complete chunks of `buffer` out of it and their events into the
/// state, up to an event that reports an error.
pub fn process_sse_buffer_sync(buffer: &mut String, state: &mut CodexStreamState) -> (r: Result<
    (),
    StreamFault,
>)
    requires
        chunks_fit(old(buffer)@),
    ensures
        ({
            let after = run(old(state)@, complete_events(old(buffer)@));
            &&& final(state)@ == after.state
            &&& final(buffer)@ == untaken(old(buffer)@, old(state)@)
            &&& after.error matches Some(m) ==> (r matches Err(fault) && fault.message@ == m)
            &&& after.error is None ==> r is Ok
        }),
{
    let mut pieces: Vec<String> = Vec::new();
    process_sse_buffer(buffer, state, &mut pieces)
}

/// The text that a stream amounts to: its pieces, or what it falls back on.
pub open spec fn amounts_to(state: StreamStateView) -> Option<Seq<char>> {
    if state.saw_delta {
        nonempty(Some(state.text))
    } else {
        state.fallback
    }
}

/// The text that a stream amounts to, given all of it.
pub fn parse_sse_text(body: &str) -> (r: Result<Option<String>, StreamFault>)
    requires
        chunks_fit(body@),
        last_chunk_fits(leftover(body@)),
    ensures
        ({
            let after = run(fresh_state(), text_events(body@));
            &&& after.error matches Some(m) ==> (r matches Err(fault) && fault.message@ == m)
            &&& after.error is None ==> (r matches Ok(text) && opt_text(text) == amounts_to(
                after.state,
            ))
        }),
{
    let mut state = CodexStreamState::default();
    let mut buffer = body.to_owned();
    proof {
        runs_compose(state@, complete_events(body@), chunk_events(leftover(body@)));
    }
    if let Err(fault) = process_sse_buffer_sync(&mut buffer, &mut state) {
        return Err(fault);
    }
    proof {
        untaken_is_leftover(body@, fresh_state());
    }
    if !is_blank(buffer.as_str()) {
        if let Err(fault) = process_sse_chunk_sync(buffer.as_str(), &mut state) {
            return Err(fault);
        }
    }
    if state.saw_delta {
        return Ok(nonempty_preserve(Some(state.delta_accumulator.as_str())));
    }
    Ok(state.fallback_text)
}

/// What a line of a chunk adds to the fields: its own, if it is a `data:` line.
pub open spec fn line_fields(line: Seq<char>) -> Seq<Seq<char>> {
    match data_field(line) {
        Some(field) => seq![field],
        None => Seq::empty(),
    }
}

proof fn lemma_line_end_at(line: Seq<char>, rest: Seq<char>, i: int)
    requires
        !line.contains('\n'),
        0 <= i <= line.len(),
    ensures
        line_end(line.push('\n') + rest, i) == line.len(),
    decreases line.len() - i,
{
    let s = line.push('\n') + rest;
    if i < line.len() {
        assert(line.contains(line[i]));
        assert(s[i] == line[i]);
        lemma_line_end_at(line, rest, i + 1);
    } else {
        assert(s[i] == '\n');
    }
}

/// A chunk is read line by line: a `data:` line adds its field before those of the
/// lines behind it, and any other line nothing. A carriage return at a line's end
/// makes no difference.
pub proof fn lines_are_read_one_by_one(line: Seq<char>, rest: Seq<char>)
    requires
        !line.contains('\n'),
    ensures
        data_lines(line.push('\n') + rest) == line_fields(line) + data_lines(rest),
        data_lines(line.push('\r').push('\n') + rest) == line_fields(line) + data_lines(rest),
{
    lemma_first_line(line, rest);
    let returned = line.push('\r');
    assert(!returned.contains('\n')) by {
        if returned.contains('\n') {
            let i = choose|i: int| 0 <= i < returned.len() && returned[i] == '\n';
            assert(line[i] == '\n');
        }
    }
    lemma_first_line(returned, rest);
    lemma_returned_line(line);
}

proof fn lemma_first_line(line: Seq<char>, rest: Seq<char>)
    requires
        !line.contains('\n'),
    ensures
        data_lines(line.push('\n') + rest) == line_fields(line) + data_lines(rest),
{
    let s = line.push('\n') + rest;
    lemma_line_end_at(line, rest, 0);
    assert(s.take(line.len() as int) =~= line);
    assert(s.skip(line.len() as int + 1) =~= rest);
    assert(Seq::<Seq<char>>::empty() + data_lines(rest) =~= data_lines(rest));
}

proof fn lemma_returned_line(line: Seq<char>)
    ensures
        data_field(line.push('\r')) == data_field(line),
{
    reveal_strlit("data:");
    let returned = line.push('\r');
    if line.len() >= 5 {
        assert(returned.take(5) =~= line.take(5));
        assert(returned.skip(5) =~= line.skip(5).push('\r'));
        trimming_drops_white_at_the_end(line.skip(5), '\r');
    } else if line.len() == 4 {
        assert(returned.take(5)[4] == '\r');
        assert("data:"@[4] == ':');
    }
}

/// A text with a carriage return before each line feed.
pub open spec fn with_returns(s: Seq<char>) -> Seq<char>
    decreases s.len(),
{
    if s.len() == 0 {
        Seq::empty()
    } else if s[0] == '\n' {
        seq!['\r', '\n'] + with_returns(s.drop_first())
    } else {
        seq![s[0]] + with_returns(s.drop_first())
    }
}

proof fn lemma_with_returns_concat(a: Seq<char>, b: Seq<char>)
    ensures
        with_returns(a + b) == with_returns(a) + with_returns(b),
    decreases a.len(),
{
    if a.len() == 0 {
        assert(a + b =~= b);
        assert(with_returns(a) + with_returns(b) =~= with_returns(b));
    } else {
        assert((a + b).drop_first() =~= a.drop_first() + b);
        lemma_with_returns_concat(a.drop_first(), b);
        assert(with_returns(a + b) =~= with_returns(a) + with_returns(b));
    }
}

proof fn lemma_with_returns_of_line(line: Seq<char>)
    requires
        !line.contains('\n'),
    ensures
        with_returns(line) == line,
    decreases line.len(),
{
    if line.len() > 0 {
        assert(line.contains(line[0]));
        assert forall|c: char| line.drop_first().contains(c) implies line.contains(c) by {
            let i = choose|i: int| 0 <= i < line.drop_first().len() && line.drop_first()[i] == c;
            assert(line[i + 1] == c);
        }
        lemma_with_returns_of_line(line.drop_first());
        assert(seq![line[0]] + line.drop_first() =~= line);
    } else {
        assert(line =~= Seq::<char>::empty());
    }
}

proof fn lemma_separator_shifts(s: Seq<char>, i: int)
    requires
        s.len() > 0,
        0 <= i,
    ensures
        separator_from(s, i + 1) == (match separator_from(s.drop_first(), i) {
            Some((k, n)) => Some((k + 1, n)),
            None => None,
        }),
    decreases s.len() - i,
{
    let t = s.drop_first();
    if i < t.len() {
        assert(separator_at(s, i + 1) == separator_at(t, i));
        if separator_at(t, i) == 0 {
            lemma_separator_shifts(s, i + 1);
        }
    }
}

proof fn lemma_separator_with_returns(s: Seq<char>)
    requires
        !s.contains('\r'),
    ensures
        first_separator(with_returns(s)) == (match first_separator(s) {
            Some((k, n)) => Some((with_returns(s.take(k)).len() as int, 4int)),
            None => None,
        }),
        first_separator(s) matches Some((k, n)) ==> n == 2,
    decreases s.len(),
{
    if s.len() > 0 {
        let rest = s.drop_first();
        let w = with_returns(s);
        let v = with_returns(rest);
        assert(s.contains(s[0]));
        assert forall|c: char| rest.contains(c) implies s.contains(c) by {
            let i = choose|i: int| 0 <= i < rest.len() && rest[i] == c;
            assert(s[i + 1] == c);
        }
        if rest.len() > 0 {
            assert(rest.contains(rest[0]));
            assert(v[0] == (if rest[0] == '\n' {
                '\r'
            } else {
                rest[0]
            }));
            assert(rest[0] == '\n' ==> v[1] == '\n');
        }
        if separator_at(s, 0) > 0 {
            assert(s[0] == '\n' && rest[0] == '\n');
            assert(w[2] == v[0] && w[3] == v[1]);
            assert(separator_at(w, 0) == 4);
            assert(s.take(0) =~= Seq::<char>::empty());
        } else {
            lemma_separator_with_returns(rest);
            lemma_separator_shifts(s, 0);
            if let Some((k, n)) = first_separator(rest) {
                lemma_separator_from(rest, 0);
                assert(s.take(k + 1).drop_first() =~= rest.take(k));
                assert(s.take(k + 1)[0] == s[0]);
            }
            if s[0] == '\n' {
                assert(w.drop_first().drop_first() =~= v);
                assert(rest.len() > 0 ==> w[2] == v[0]);
                assert(separator_at(w, 0) == 0);
                assert(separator_at(w.drop_first(), 0) == 0);
                lemma_separator_shifts(w, 0);
                lemma_separator_shifts(w.drop_first(), 0);
            } else {
                assert(w.drop_first() =~= v);
                assert(separator_at(w, 0) == 0);
                lemma_separator_shifts(w, 0);
            }
        }
    }
}

proof fn lemma_lines_with_returns(s: Seq<char>)
    ensures
        data_lines(with_returns(s)) == data_lines(s),
    decreases s.len(),
{
    if s.len() > 0 {
        let e = line_end(s, 0);
        lemma_line_end(s, 0);
        lemma_no_line_end_before(s, 0);
        let line = s.take(e);
        assert(!line.contains('\n'));
        if e < s.len() {
            let rest = s.skip(e + 1);
            assert(s =~= line + (seq!['\n'] + rest));
            assert(s =~= line.push('\n') + rest);
            lemma_with_returns_concat(line, seq!['\n'] + rest);
            lemma_with_returns_of_line(line);
            assert((seq!['\n'] + rest).drop_first() =~= rest);
            assert(with_returns(s) =~= line.push('\r').push('\n') + with_returns(rest));
            lines_are_read_one_by_one(line, rest);
            lines_are_read_one_by_one(line, with_returns(rest));
            lemma_lines_with_returns(rest);
        } else {
            assert(line =~= s);
            lemma_with_returns_of_line(s);
        }
    }
}

proof fn lemma_no_line_end_before(s: Seq<char>, i: int)
    requires
        0 <= i <= s.len(),
    ensures
        forall|j: int| i <= j < line_end(s, i) ==> s[j] != '\n',
        line_end(s, i) < s.len() ==> s[line_end(s, i)] == '\n',
    decreases s.len() - i,
{
    if i < s.len() && s[i] != '\n' {
        lemma_no_line_end_before(s, i + 1);
    }
}

proof fn lemma_blank_with_returns(s: Seq<char>)
    ensures
        (trimmed(with_returns(s)).len() == 0) == (trimmed(s).len() == 0),
    decreases s.len(),
{
    blank_is_all_white(s);
    blank_is_all_white(with_returns(s));
    lemma_white_with_returns(s);
}

proof fn lemma_white_with_returns(s: Seq<char>)
    ensures
        (forall|i: int| 0 <= i < with_returns(s).len() ==> is_white(#[trigger] with_returns(s)[i]))
            <==> (forall|i: int| 0 <= i < s.len() ==> is_white(#[trigger] s[i])),
    decreases s.len(),
{
    if s.len() > 0 {
        let rest = s.drop_first();
        let w = with_returns(s);
        let v = with_returns(rest);
        let led: int = if s[0] == '\n' {
            2
        } else {
            1
        };
        lemma_white_with_returns(rest);
        assert(forall|i: int| 0 <= i < rest.len() ==> rest[i] == s[i + 1]);
        assert(forall|i: int| 0 <= i < v.len() ==> v[i] == w[i + led]);
        assert(w.skip(led) =~= v);
        assert(w[led - 1] == s[0]);
        if forall|i: int| 0 <= i < w.len() ==> is_white(#[trigger] w[i]) {
            assert forall|i: int| 0 <= i < v.len() implies is_white(#[trigger] v[i]) by {
                assert(v[i] == w[i + led]);
            }
            assert forall|i: int| 0 <= i < s.len() implies is_white(#[trigger] s[i]) by {
                if i > 0 {
                    assert(rest[i - 1] == s[i]);
                }
            }
        }
        if forall|i: int| 0 <= i < s.len() ==> is_white(#[trigger] s[i]) {
            assert forall|i: int| 0 <= i < rest.len() implies is_white(#[trigger] rest[i]) by {
                assert(rest[i] == s[i + 1]);
            }
            assert forall|i: int| 0 <= i < w.len() implies is_white(#[trigger] w[i]) by {
                if i >= led {
                    assert(v[i - led] == w[i]);
                }
            }
        }
    }
}

/// A stream reads the same whichever way its lines end.
pub proof fn line_ends_read_alike(s: Seq<char>)
    requires
        !s.contains('\r'),
    ensures
        complete_events(with_returns(s)) == complete_events(s),
        leftover(with_returns(s)) == with_returns(leftover(s)),
        text_events(with_returns(s)) == text_events(s),
    decreases s.len(),
{
    lemma_separator_with_returns(s);
    first_separator_is_first(s);
    match first_separator(s) {
        Some((k, n)) => {
            let head = s.take(k);
            let rest = s.skip(k + 2);
            assert(s =~= head + (seq!['\n', '\n'] + rest));
            lemma_with_returns_concat(head, seq!['\n', '\n'] + rest);
            lemma_with_returns_concat(seq!['\n', '\n'], rest);
            assert(seq!['\n', '\n'].drop_first() =~= seq!['\n']);
            assert(seq!['\n'].drop_first() =~= Seq::<char>::empty());
            reveal_with_fuel(with_returns, 3);
            assert(with_returns(seq!['\n', '\n']) =~= seq!['\r', '\n', '\r', '\n']);
            let w = with_returns(s);
            let at = with_returns(head).len() as int;
            assert(w.take(at) =~= with_returns(head));
            assert(w.skip(at + 4) =~= with_returns(rest));
            lemma_lines_with_returns(head);
            assert forall|c: char| rest.contains(c) implies s.contains(c) by {
                let i = choose|i: int| 0 <= i < rest.len() && rest[i] == c;
                assert(s[i + k + 2] == c);
            }
            line_ends_read_alike(rest);
        },
        None => {},
    }
    lemma_lines_with_returns(leftover(s));
    lemma_blank_with_returns(leftover(s));
}

} // verus!
