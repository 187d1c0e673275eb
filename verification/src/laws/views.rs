//! Models hold what the values hold: every part of a value, and every value of a list at
//! its place.

use crate::auth::{headers_of, Credentials};
use crate::body::{Reading, ReadingView};
use crate::input::{messages_of, ChatMessage};
use crate::json::{members_of, values_of, Json, JsonView};
use crate::request::{inputs, pieces, ResponsesInput, ResponsesInputContent, ResponsesRequest};
use crate::session::{emissions, Emission, EmissionView, StreamSession};
use crate::stream_event::CodexStreamState;
use crate::text::{opt_str, opt_text, texts};
use crate::utf8_stream::{chunk_bytes, decoded, valid_len, valid_len_is_longest};
use crate::wire::{contents, outputs, ResponsesContent, ResponsesOutput, ResponsesResponse};
use vstd::prelude::*;
use vstd::utf8::*;

verus! {

/// An optional text is modelled as the text, if it is there.
pub proof fn optional_texts_are_texts(o: Option<String>, s: Option<&str>)
    ensures
        o is Some == opt_text(o) is Some,
        o matches Some(t) ==> opt_text(o) == Some(t@),
        s is Some == opt_str(s) is Some,
        s matches Some(t) ==> opt_str(s) == Some(t@),
{
}

/// A list of texts, messages, bytes or headers is modelled item by item.
pub proof fn lists_are_modelled_item_by_item(
    strings: Seq<String>,
    messages: Seq<ChatMessage>,
    headers: Seq<(String, String)>,
    chunks: Seq<&[u8]>,
    i: int,
)
    ensures
        texts(strings).len() == strings.len(),
        0 <= i < strings.len() ==> texts(strings)[i] == strings[i]@,
        messages_of(messages).len() == messages.len(),
        0 <= i < messages.len() ==> messages_of(messages)[i].role == messages[i].role@
            && messages_of(messages)[i].content == messages[i].content@,
        headers_of(headers).len() == headers.len(),
        0 <= i < headers.len() ==> headers_of(headers)[i] == (headers[i].0@, headers[i].1@),
        chunk_bytes(chunks).len() == chunks.len(),
        0 <= i < chunks.len() ==> chunk_bytes(chunks)[i] == chunks[i]@,
{
}

/// A JSON value is modelled with all its items and members, in order.
pub proof fn json_is_modelled_item_by_item(
    items: Vec<Json>,
    members: Vec<(String, Json)>,
    s: String,
    b: bool,
    i: int,
)
    ensures
        Json::Text(s)@ == JsonView::Text(s@),
        Json::Bool(b)@ == JsonView::Bool(b),
        Json::Null@ == JsonView::Null,
        values_of(items@).len() == items@.len(),
        0 <= i < items@.len() ==> values_of(items@)[i] == items@[i]@,
        members_of(members@).len() == members@.len(),
        0 <= i < members@.len() ==> members_of(members@)[i] == (members@[i].0@, members@[i].1@),
        Json::Array(items)@ == JsonView::Array(values_of(items@)),
        Json::Object(members)@ == JsonView::Object(members_of(members@)),
{
    assert(Json::Array(items)@->Array_0 =~= values_of(items@));
    assert(Json::Object(members)@->Object_0 =~= members_of(members@));
}

/// A response is modelled with all its parts.
pub proof fn responses_are_modelled_in_full(
    piece: ResponsesContent,
    item: ResponsesOutput,
    response: ResponsesResponse,
    i: int,
)
    ensures
        piece@.kind == opt_text(piece.kind),
        piece@.text == opt_text(piece.text),
        item@.len() == item.content@.len(),
        0 <= i < item.content@.len() ==> item@[i] == item.content@[i]@,
        contents(item.content@) == item@,
        response@.output.len() == response.output@.len(),
        0 <= i < response.output@.len() ==> response@.output[i] == response.output@[i]@,
        outputs(response.output@) == response@.output,
        response@.output_text == opt_text(response.output_text),
{
}

/// A request is modelled with all its parts.
pub proof fn requests_are_modelled_in_full(
    piece: ResponsesInputContent,
    turn: ResponsesInput,
    request: ResponsesRequest,
    i: int,
)
    ensures
        piece@.kind == piece.kind@,
        piece@.text == opt_text(piece.text),
        piece@.image_url == opt_text(piece.image_url),
        turn@.role == turn.role@,
        turn@.content.len() == turn.content@.len(),
        0 <= i < turn.content@.len() ==> turn@.content[i] == turn.content@[i]@,
        pieces(turn.content@) == turn@.content,
        request@.model == request.model@,
        request@.input.len() == request.input@.len(),
        0 <= i < request.input@.len() ==> request@.input[i] == request.input@[i]@,
        inputs(request.input@) == request@.input,
        request@.instructions == request.instructions@,
        request@.store == request.store,
        request@.stream == request.stream,
        request@.verbosity == request.text.verbosity@,
        request@.effort == request.reasoning.effort@,
        request@.summary == request.reasoning.summary@,
        request@.include_parts == texts(request.include_parts@),
        request@.tool_choice == request.tool_choice@,
        request@.parallel_tool_calls == request.parallel_tool_calls,
{
}

/// What is told, read and held of a stream is modelled in full.
pub proof fn streams_are_modelled_in_full(
    told: Seq<Emission>,
    text: String,
    state: CodexStreamState,
    session: StreamSession,
    credentials: Credentials,
    i: int,
)
    ensures
        emissions(told).len() == told.len(),
        0 <= i < told.len() ==> emissions(told)[i] == told[i]@,
        Emission::Delta(text)@ == EmissionView::Delta(text@),
        Emission::Failed(text)@ == EmissionView::Failed(text@),
        Emission::Final@ == EmissionView::Final,
        Reading::Answer(text)@ == ReadingView::Answer(text@),
        Reading::Unanswered(text)@ == ReadingView::Unanswered(text@),
        Reading::Document(text)@ == ReadingView::Document(text@),
        state@.saw_delta == state.saw_delta,
        state@.text == state.delta_accumulator@,
        state@.fallback == opt_text(state.fallback_text),
        state@.output == outputs(state.accumulated_output@),
        session@.state == session.state@,
        session@.buffer == session.buffer@,
        session@.pending == session.pending@,
        credentials@.access_token == opt_text(credentials.access_token),
        credentials@.account_id == opt_text(credentials.account_id),
{
}

/// No byte is lost in decoding: the text, encoded again, and the bytes that wait are the
/// bytes that came.
pub proof fn no_byte_is_lost(bytes: Seq<u8>)
    ensures
        encode_utf8(decoded(bytes).text) + decoded(bytes).rest == bytes,
{
    valid_len_is_longest(bytes, 0);
    let n = valid_len(bytes);
    decode_utf8_encode_utf8(bytes.take(n));
    assert(bytes.take(n) + bytes.skip(n) =~= bytes);
}

} // verus!
